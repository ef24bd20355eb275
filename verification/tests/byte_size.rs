use core::str::FromStr;
use iggy::byte_size::IggyByteSize;

#[test]
fn test_from_u64_ok() {
    let byte_size = IggyByteSize::from(123456789);
    assert_eq!(byte_size.as_bytes_u64(), 123456789);
}

#[test]
fn test_from_u64_zero() {
    let byte_size = IggyByteSize::from(0);
    assert_eq!(byte_size.as_bytes_u64(), 0);
}

#[test]
fn test_from_str_ok() {
    let byte_size = IggyByteSize::from_str("123456789").unwrap();
    assert_eq!(byte_size.as_bytes_u64(), 123456789);
}

#[test]
fn test_from_str_zero() {
    let byte_size = IggyByteSize::from_str("0").unwrap();
    assert_eq!(byte_size.as_bytes_u64(), 0);
}

#[test]
fn test_from_str_invalid() {
    let byte_size = IggyByteSize::from_str("invalid");
    assert!(byte_size.is_err());
}

#[test]
fn test_from_str_gigabyte() {
    let byte_size = IggyByteSize::from_str("1 GiB").unwrap();
    assert_eq!(byte_size.as_bytes_u64(), 1024 * 1024 * 1024);

    let byte_size = IggyByteSize::from_str("1 GB").unwrap();
    assert_eq!(byte_size.as_bytes_u64(), 1000 * 1000 * 1000);
}

#[test]
fn test_from_str_megabyte() {
    let byte_size = IggyByteSize::from_str("1 MiB").unwrap();
    assert_eq!(byte_size.as_bytes_u64(), 1024 * 1024);

    let byte_size = IggyByteSize::from_str("1 MB").unwrap();
    assert_eq!(byte_size.as_bytes_u64(), 1000 * 1000);
}

#[test]
fn test_to_human_string_ok() {
    let byte_size = IggyByteSize::from(1_073_000_000);
    assert_eq!(byte_size.as_human_string(), "1.073 GB");
}

#[test]
fn test_to_human_string_zero() {
    let byte_size = IggyByteSize::from(0);
    assert_eq!(byte_size.as_human_string(), "0 B");
}

#[test]
fn test_to_human_string_special_zero() {
    let byte_size = IggyByteSize::from(0);
    assert_eq!(
        byte_size.as_human_string_with_zero_as_unlimited(),
        "unlimited"
    );
}
