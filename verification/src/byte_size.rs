//! Byte sizes with human-readable rendering and parsing, backed by the
//! byte-unit crate for both. Zero doubles as "unlimited" in contexts that
//! treat absence of a cap that way.

use crate::error::IggyError;
use vstd::prelude::*;
use vstd::string::StringSliceAdditionalSpecFns;

verus! {

/// What byte-unit renders a byte count as, in decimal units.
pub uninterp spec fn decimal_unit_string_of(bytes: u64) -> Seq<char>;

/// What byte-unit parses a size string to.
pub uninterp spec fn parsed_byte_size_of(s: Seq<char>) -> Option<u64>;

/// Relies on byte_unit::Byte::from_u64, get_appropriate_unit(Decimal) and
/// the adjusted value's to_string: a decimal-unit rendering that depends on
/// the byte count alone.
#[verifier::external_body]
fn format_decimal_unit(bytes: u64) -> (r: String)
    ensures
        r@ == decimal_unit_string_of(bytes),
{
    byte_unit::Byte::from_u64(bytes).get_appropriate_unit(byte_unit::UnitType::Decimal).to_string()
}

/// Relies on byte_unit::Byte::from_str and Byte::as_u64: the parsed size of
/// the string, a function of its characters alone; a value outside 64 bits
/// fails to parse.
#[verifier::external_body]
fn parse_byte_unit(s: &str) -> (r: Option<u64>)
    ensures
        r == parsed_byte_size_of(s@),
{
    match <byte_unit::Byte as core::str::FromStr>::from_str(s) {
        Ok(b) => Some(b.as_u64()),
        Err(_) => None,
    }
}

/// Whether two strings hold the same characters.
fn str_eq(a: &str, b: &str) -> (r: bool)
    ensures
        r == (a@ == b@),
{
    let av = a.as_bytes();
    let bv = b.as_bytes();
    let r = vstd::slice::slice_to_vec(av) == vstd::slice::slice_to_vec(bv);
    proof {
        if r {
            assert(a.spec_bytes() =~= b.spec_bytes());
            vstd::utf8::encode_utf8_decode_utf8(a@);
            vstd::utf8::encode_utf8_decode_utf8(b@);
        }
        if a@ == b@ {
            assert(a.spec_bytes() =~= b.spec_bytes());
        }
    }
    r
}

/// A byte size.
#[derive(Clone, Copy, Debug)]
pub struct IggyByteSize {
    pub bytes: u64,
}

impl View for IggyByteSize {
    type V = u64;

    open spec fn view(&self) -> u64 {
        self.bytes
    }
}

impl IggyByteSize {
    /// The byte count.
    pub fn as_bytes_u64(&self) -> (r: u64)
        ensures
            r == self@,
    {
        self.bytes
    }

    /// The human-readable decimal-unit rendering.
    pub fn as_human_string(&self) -> (r: String)
        ensures
            r@ == decimal_unit_string_of(self@),
    {
        format_decimal_unit(self.bytes)
    }

    /// The human-readable rendering, with zero read as "unlimited".
    pub fn as_human_string_with_zero_as_unlimited(&self) -> (r: String)
        ensures
            self@ == 0 ==> r@ == "unlimited"@,
            self@ != 0 ==> r@ == decimal_unit_string_of(self@),
    {
        if self.bytes == 0 {
            return "unlimited".to_owned();
        }
        self.as_human_string()
    }

    /// Parses a size string: the plain zero spellings map to zero, anything
    /// else is what byte-unit accepts.
    pub fn parse_str(s: &str) -> (r: Result<IggyByteSize, IggyError>)
        ensures
            ({
                let zeroish = s@ == "0"@ || s@ == "unlimited"@ || s@ == "Unlimited"@ || s@
                    == "none"@ || s@ == "None"@;
                &&& (zeroish ==> r == Result::<IggyByteSize, IggyError>::Ok(
                    IggyByteSize { bytes: 0 },
                ))
                &&& (!zeroish ==> match parsed_byte_size_of(s@) {
                    Some(n) => r == Result::<IggyByteSize, IggyError>::Ok(
                        IggyByteSize { bytes: n },
                    ),
                    None => r == Result::<IggyByteSize, IggyError>::Err(IggyError::InvalidCommand),
                })
            }),
    {
        if str_eq(s, "0") || str_eq(s, "unlimited") || str_eq(s, "Unlimited") || str_eq(s, "none")
            || str_eq(s, "None") {
            return Ok(IggyByteSize { bytes: 0 });
        }
        match parse_byte_unit(s) {
            Some(n) => Ok(IggyByteSize { bytes: n }),
            None => Err(IggyError::InvalidCommand),
        }
    }
}

impl From<u64> for IggyByteSize {
    /// Wraps a byte count.
    fn from(byte_size: u64) -> (r: Self) {
        IggyByteSize { bytes: byte_size }
    }
}

impl vstd::std_specs::convert::FromSpecImpl<u64> for IggyByteSize {
    open spec fn obeys_from_spec() -> bool {
        true
    }

    open spec fn from_spec(byte_size: u64) -> Self {
        IggyByteSize { bytes: byte_size }
    }
}

impl core::str::FromStr for IggyByteSize {
    type Err = IggyError;

    fn from_str(s: &str) -> Result<Self, IggyError> {
        IggyByteSize::parse_str(s)
    }
}

} // verus!
