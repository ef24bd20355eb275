//! Little-endian byte encoding helpers, decimal rendering of integers, and
//! the FNV-1a 64-bit hash. These are the primitives the binary codec, the
//! segment log format and the key-hash partitioner are built from.

use vstd::bytes::*;
use vstd::prelude::*;
use vstd::slice::slice_subrange;

verus! {

/// Appends the 4 little-endian bytes of `x` to `buf`.
pub fn put_u32_le(buf: &mut Vec<u8>, x: u32)
    ensures
        final(buf)@ == old(buf)@ + spec_u32_to_le_bytes(x),
{
    let mut tail = u32_to_le_bytes(x);
    buf.append(&mut tail);
}

/// Appends the 8 little-endian bytes of `x` to `buf`.
pub fn put_u64_le(buf: &mut Vec<u8>, x: u64)
    ensures
        final(buf)@ == old(buf)@ + spec_u64_to_le_bytes(x),
{
    let mut tail = u64_to_le_bytes(x);
    buf.append(&mut tail);
}

/// Appends the 16 little-endian bytes of `x` to `buf`.
pub fn put_u128_le(buf: &mut Vec<u8>, x: u128)
    ensures
        final(buf)@ == old(buf)@ + spec_u128_to_le_bytes(x),
{
    let mut tail = u128_to_le_bytes(x);
    buf.append(&mut tail);
}

/// Reads the u32 encoded little-endian at `pos`.
pub fn read_u32_le(buf: &[u8], pos: usize) -> (x: u32)
    requires
        pos + 4 <= buf@.len(),
    ensures
        x == spec_u32_from_le_bytes(buf@.subrange(pos as int, pos + 4)),
{
    let _len: usize = buf.len();
    let part = slice_subrange(buf, pos, pos + 4);
    u32_from_le_bytes(part)
}

/// Reads the u64 encoded little-endian at `pos`.
pub fn read_u64_le(buf: &[u8], pos: usize) -> (x: u64)
    requires
        pos + 8 <= buf@.len(),
    ensures
        x == spec_u64_from_le_bytes(buf@.subrange(pos as int, pos + 8)),
{
    let _len: usize = buf.len();
    let part = slice_subrange(buf, pos, pos + 8);
    u64_from_le_bytes(part)
}

/// Reads the u128 encoded little-endian at `pos`.
pub fn read_u128_le(buf: &[u8], pos: usize) -> (x: u128)
    requires
        pos + 16 <= buf@.len(),
    ensures
        x == spec_u128_from_le_bytes(buf@.subrange(pos as int, pos + 16)),
{
    let _len: usize = buf.len();
    let part = slice_subrange(buf, pos, pos + 16);
    u128_from_le_bytes(part)
}

/// The decimal digit character for a value below ten.
pub open spec fn dec_digit(d: nat) -> char
    recommends
        d < 10,
{
    if d == 0 {
        '0'
    } else if d == 1 {
        '1'
    } else if d == 2 {
        '2'
    } else if d == 3 {
        '3'
    } else if d == 4 {
        '4'
    } else if d == 5 {
        '5'
    } else if d == 6 {
        '6'
    } else if d == 7 {
        '7'
    } else if d == 8 {
        '8'
    } else {
        '9'
    }
}

/// The decimal rendering of `n`, without leading zeros (except for `n == 0`).
pub open spec fn dec_str(n: nat) -> Seq<char>
    decreases n,
{
    if n < 10 {
        seq![dec_digit(n)]
    } else {
        dec_str(n / 10) + seq![dec_digit(n % 10)]
    }
}

fn dec_digit_str(d: u64) -> (r: &'static str)
    requires
        d < 10,
    ensures
        r@ == seq![dec_digit(d as nat)],
{
    proof {
        reveal_strlit("0");
        reveal_strlit("1");
        reveal_strlit("2");
        reveal_strlit("3");
        reveal_strlit("4");
        reveal_strlit("5");
        reveal_strlit("6");
        reveal_strlit("7");
        reveal_strlit("8");
        reveal_strlit("9");
    }
    let r = if d == 0 {
        "0"
    } else if d == 1 {
        "1"
    } else if d == 2 {
        "2"
    } else if d == 3 {
        "3"
    } else if d == 4 {
        "4"
    } else if d == 5 {
        "5"
    } else if d == 6 {
        "6"
    } else if d == 7 {
        "7"
    } else if d == 8 {
        "8"
    } else {
        "9"
    };
    proof {
        assert(r@ =~= seq![dec_digit(d as nat)]);
    }
    r
}

/// Renders `n` in decimal.
pub fn u64_to_dec_string(n: u64) -> (r: String)
    ensures
        r@ == dec_str(n as nat),
    decreases n,
{
    if n < 10 {
        dec_digit_str(n).to_owned()
    } else {
        let mut s = u64_to_dec_string(n / 10);
        s.append(dec_digit_str(n % 10));
        s
    }
}

/// Renders `n` in decimal.
pub fn u32_to_dec_string(n: u32) -> (r: String)
    ensures
        r@ == dec_str(n as nat),
{
    u64_to_dec_string(n as u64)
}

pub const FNV1A64_OFFSET_BASIS: u64 = 0xcbf29ce484222325;

pub const FNV1A64_PRIME: u64 = 0x100000001b3;

/// The FNV-1a 64-bit hash continued from the accumulator `acc` over `s`.
pub open spec fn fnv1a64_from(acc: u64, s: Seq<u8>) -> u64
    decreases s.len(),
{
    if s.len() == 0 {
        acc
    } else {
        fnv1a64_from(
            vstd::wrapping::u64_specs::wrapping_mul(acc ^ (s[0] as u64), FNV1A64_PRIME),
            s.skip(1),
        )
    }
}

/// The FNV-1a 64-bit hash of a byte sequence.
pub open spec fn fnv1a64_of(s: Seq<u8>) -> u64 {
    fnv1a64_from(FNV1A64_OFFSET_BASIS, s)
}

proof fn lemma_fnv1a64_step(acc: u64, s: Seq<u8>, i: int)
    requires
        0 <= i < s.len(),
    ensures
        fnv1a64_from(acc, s.skip(i)) == fnv1a64_from(
            vstd::wrapping::u64_specs::wrapping_mul(acc ^ (s[i] as u64), FNV1A64_PRIME),
            s.skip(i + 1),
        ),
{
    assert(s.skip(i)[0] == s[i]);
    assert(s.skip(i).skip(1) =~= s.skip(i + 1));
}

/// Computes the FNV-1a 64-bit hash of `data`.
pub fn fnv1a64(data: &[u8]) -> (r: u64)
    ensures
        r == fnv1a64_of(data@),
{
    let mut acc: u64 = FNV1A64_OFFSET_BASIS;
    let mut i: usize = 0;
    let ghost all = data@;
    proof {
        assert(all.skip(0) =~= all);
    }
    while i < data.len()
        invariant
            0 <= i <= all.len(),
            all == data@,
            fnv1a64_of(all) == fnv1a64_from(acc, all.skip(i as int)),
        decreases all.len() - i,
    {
        let b = data[i];
        proof {
            lemma_fnv1a64_step(acc, all, i as int);
        }
        acc = (acc ^ (b as u64)).wrapping_mul(FNV1A64_PRIME);
        i = i + 1;
    }
    proof {
        assert(all.skip(all.len() as int) =~= Seq::<u8>::empty());
    }
    acc
}

} // verus!
