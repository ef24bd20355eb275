//! Message headers: a list of key/value pairs carried with a message. A key
//! is 1 to 255 ASCII bytes without uppercase letters; a value is a tagged
//! byte string whose length is fixed by its kind. On the wire a header is a
//! 1-byte key length, the key, a 1-byte kind, a 4-byte value length and the
//! value bytes; a headers block is the plain concatenation of headers.

use crate::encoding::{put_u32_le, read_u32_le};
use crate::error::IggyError;
use vstd::bytes::*;
use vstd::prelude::*;
use vstd::slice::{slice_subrange, slice_to_vec};
use vstd::string::StringSliceAdditionalSpecFns;

verus! {

/// The largest headers block a message may carry, in bytes.
pub const MAX_HEADERS_BYTES: u64 = 65536;

/// The type tag of a header value.
#[derive(Clone, Copy, Debug, PartialEq, Eq, Structural)]
pub enum HeaderKind {
    Raw,
    Text,
    Bool,
    Int32,
    Int64,
    Uint32,
    Uint64,
    Uint128,
    Float32,
    Float64,
}

/// The wire tag of a header kind.
pub open spec fn spec_kind_byte(k: HeaderKind) -> u8 {
    match k {
        HeaderKind::Raw => 1u8,
        HeaderKind::Text => 2u8,
        HeaderKind::Bool => 3u8,
        HeaderKind::Int32 => 4u8,
        HeaderKind::Int64 => 5u8,
        HeaderKind::Uint32 => 6u8,
        HeaderKind::Uint64 => 7u8,
        HeaderKind::Uint128 => 8u8,
        HeaderKind::Float32 => 9u8,
        HeaderKind::Float64 => 10u8,
    }
}

/// The header kind a wire tag stands for.
pub open spec fn spec_kind_of_byte(b: u8) -> Option<HeaderKind> {
    if b == 1 {
        Some(HeaderKind::Raw)
    } else if b == 2 {
        Some(HeaderKind::Text)
    } else if b == 3 {
        Some(HeaderKind::Bool)
    } else if b == 4 {
        Some(HeaderKind::Int32)
    } else if b == 5 {
        Some(HeaderKind::Int64)
    } else if b == 6 {
        Some(HeaderKind::Uint32)
    } else if b == 7 {
        Some(HeaderKind::Uint64)
    } else if b == 8 {
        Some(HeaderKind::Uint128)
    } else if b == 9 {
        Some(HeaderKind::Float32)
    } else if b == 10 {
        Some(HeaderKind::Float64)
    } else {
        None
    }
}

pub fn kind_byte(k: HeaderKind) -> (r: u8)
    ensures
        r == spec_kind_byte(k),
{
    match k {
        HeaderKind::Raw => 1,
        HeaderKind::Text => 2,
        HeaderKind::Bool => 3,
        HeaderKind::Int32 => 4,
        HeaderKind::Int64 => 5,
        HeaderKind::Uint32 => 6,
        HeaderKind::Uint64 => 7,
        HeaderKind::Uint128 => 8,
        HeaderKind::Float32 => 9,
        HeaderKind::Float64 => 10,
    }
}

pub fn kind_of_byte(b: u8) -> (r: Option<HeaderKind>)
    ensures
        r == spec_kind_of_byte(b),
{
    if b == 1 {
        Some(HeaderKind::Raw)
    } else if b == 2 {
        Some(HeaderKind::Text)
    } else if b == 3 {
        Some(HeaderKind::Bool)
    } else if b == 4 {
        Some(HeaderKind::Int32)
    } else if b == 5 {
        Some(HeaderKind::Int64)
    } else if b == 6 {
        Some(HeaderKind::Uint32)
    } else if b == 7 {
        Some(HeaderKind::Uint64)
    } else if b == 8 {
        Some(HeaderKind::Uint128)
    } else if b == 9 {
        Some(HeaderKind::Float32)
    } else if b == 10 {
        Some(HeaderKind::Float64)
    } else {
        None
    }
}

/// The byte length a value of kind `k` must have. Variable-length kinds are
/// bounded by what a headers block may hold.
pub open spec fn spec_value_len_ok(k: HeaderKind, n: nat) -> bool {
    match k {
        HeaderKind::Raw => n <= 65535,
        HeaderKind::Text => n <= 65535,
        HeaderKind::Bool => n == 1,
        HeaderKind::Int32 => n == 4,
        HeaderKind::Int64 => n == 8,
        HeaderKind::Uint32 => n == 4,
        HeaderKind::Uint64 => n == 8,
        HeaderKind::Uint128 => n == 16,
        HeaderKind::Float32 => n == 4,
        HeaderKind::Float64 => n == 8,
    }
}

/// A byte a header key may hold: printable ASCII with no uppercase letter.
pub open spec fn ok_key_byte(b: u8) -> bool {
    33 <= b <= 126 && !(65 <= b <= 90)
}

/// A well-formed header key: 1 to 255 acceptable bytes.
pub open spec fn wf_key(s: Seq<u8>) -> bool {
    &&& 1 <= s.len() <= 255
    &&& forall|i: int| 0 <= i < s.len() ==> ok_key_byte(#[trigger] s[i])
}

/// A header key.
#[derive(Debug)]
pub struct HeaderKey {
    pub bytes: Vec<u8>,
}

impl View for HeaderKey {
    type V = Seq<u8>;

    open spec fn view(&self) -> Seq<u8> {
        self.bytes@
    }
}

impl HeaderKey {
    /// Builds a key from a string, rejecting anything but 1 to 255 printable
    /// ASCII bytes without uppercase letters.
    pub fn new(s: &str) -> (r: Result<HeaderKey, IggyError>)
        ensures
            r is Ok <==> wf_key(s.spec_bytes()),
            r is Ok ==> r->Ok_0@ == s.spec_bytes(),
            r is Err ==> r == Result::<HeaderKey, IggyError>::Err(IggyError::InvalidHeaderKey),
    {
        let bytes = slice_to_vec(s.as_bytes());
        HeaderKey::from_bytes(bytes)
    }

    /// Builds a key from raw bytes, with the same validation as
    /// [`HeaderKey::new`].
    pub fn from_bytes(bytes: Vec<u8>) -> (r: Result<HeaderKey, IggyError>)
        ensures
            r is Ok <==> wf_key(bytes@),
            r is Ok ==> r->Ok_0@ == bytes@,
            r is Err ==> r == Result::<HeaderKey, IggyError>::Err(IggyError::InvalidHeaderKey),
    {
        if bytes.len() == 0 || bytes.len() > 255 {
            return Err(IggyError::InvalidHeaderKey);
        }
        let mut i: usize = 0;
        while i < bytes.len()
            invariant
                0 <= i <= bytes@.len(),
                forall|j: int| 0 <= j < i ==> ok_key_byte(#[trigger] bytes@[j]),
            decreases bytes@.len() - i,
        {
            let b = bytes[i];
            if !(33 <= b && b <= 126) || (65 <= b && b <= 90) {
                return Err(IggyError::InvalidHeaderKey);
            }
            i = i + 1;
        }
        Ok(HeaderKey { bytes })
    }

    pub fn wf(&self) -> (r: bool)
        ensures
            r == wf_key(self@),
    {
        let mut i: usize = 0;
        if self.bytes.len() == 0 || self.bytes.len() > 255 {
            return false;
        }
        while i < self.bytes.len()
            invariant
                0 <= i <= self.bytes@.len(),
                forall|j: int| 0 <= j < i ==> ok_key_byte(#[trigger] self.bytes@[j]),
            decreases self.bytes@.len() - i,
        {
            let b = self.bytes[i];
            if !(33 <= b && b <= 126) || (65 <= b && b <= 90) {
                return false;
            }
            i = i + 1;
        }
        true
    }
}

impl Clone for HeaderKey {
    /// A clone has the same bytes.
    fn clone(&self) -> (r: Self)
        ensures
            r@ == self@,
    {
        HeaderKey { bytes: self.bytes.clone() }
    }
}

/// The abstract value of a header value: its kind and its raw bytes.
pub struct HeaderValueView {
    pub kind: HeaderKind,
    pub bytes: Seq<u8>,
}

/// A header value: a kind tag and the value's raw bytes, held exactly as
/// they travel on the wire. Floating-point kinds hold the bit pattern.
#[derive(Debug)]
pub struct HeaderValue {
    pub kind: HeaderKind,
    pub value: Vec<u8>,
}

impl View for HeaderValue {
    type V = HeaderValueView;

    open spec fn view(&self) -> HeaderValueView {
        HeaderValueView { kind: self.kind, bytes: self.value@ }
    }
}

impl HeaderValue {
    /// Builds a value from a kind and raw bytes, rejecting a byte length the
    /// kind does not allow.
    pub fn from_kind_bytes(kind: HeaderKind, value: Vec<u8>) -> (r: Result<
        HeaderValue,
        IggyError,
    >)
        ensures
            r is Ok <==> spec_value_len_ok(kind, value@.len()),
            r is Ok ==> r->Ok_0@ == (HeaderValueView { kind, bytes: value@ }),
            r is Err ==> r == Result::<HeaderValue, IggyError>::Err(IggyError::InvalidHeaderValue),
    {
        let n = value.len();
        let ok = match kind {
            HeaderKind::Raw => n <= 65535,
            HeaderKind::Text => n <= 65535,
            HeaderKind::Bool => n == 1,
            HeaderKind::Int32 => n == 4,
            HeaderKind::Int64 => n == 8,
            HeaderKind::Uint32 => n == 4,
            HeaderKind::Uint64 => n == 8,
            HeaderKind::Uint128 => n == 16,
            HeaderKind::Float32 => n == 4,
            HeaderKind::Float64 => n == 8,
        };
        if ok {
            Ok(HeaderValue { kind, value })
        } else {
            Err(IggyError::InvalidHeaderValue)
        }
    }

    /// A boolean value: one byte, 1 for true and 0 for false.
    pub fn of_bool(b: bool) -> (r: HeaderValue)
        ensures
            r@.kind == HeaderKind::Bool,
            r@.bytes == seq![if b { 1u8 } else { 0u8 }],
    {
        let mut value: Vec<u8> = Vec::new();
        value.push(if b { 1 } else { 0 });
        proof {
            assert(value@ =~= seq![if b { 1u8 } else { 0u8 }]);
        }
        HeaderValue { kind: HeaderKind::Bool, value }
    }

    /// A 64-bit unsigned value in little-endian bytes.
    pub fn of_u64(x: u64) -> (r: HeaderValue)
        ensures
            r@.kind == HeaderKind::Uint64,
            r@.bytes == spec_u64_to_le_bytes(x),
    {
        HeaderValue { kind: HeaderKind::Uint64, value: u64_to_le_bytes(x) }
    }

    /// A text value: the string's UTF-8 bytes, at most 65535 of them.
    pub fn of_text(s: &str) -> (r: Result<HeaderValue, IggyError>)
        ensures
            r is Ok <==> s.spec_bytes().len() <= 65535,
            r is Ok ==> r->Ok_0@ == (HeaderValueView {
                kind: HeaderKind::Text,
                bytes: s.spec_bytes(),
            }),
            r is Err ==> r == Result::<HeaderValue, IggyError>::Err(IggyError::InvalidHeaderValue),
    {
        HeaderValue::from_kind_bytes(HeaderKind::Text, slice_to_vec(s.as_bytes()))
    }

    pub fn wf(&self) -> (r: bool)
        ensures
            r == spec_value_len_ok(self.kind, self.value@.len()),
    {
        let n = self.value.len();
        match self.kind {
            HeaderKind::Raw => n <= 65535,
            HeaderKind::Text => n <= 65535,
            HeaderKind::Bool => n == 1,
            HeaderKind::Int32 => n == 4,
            HeaderKind::Int64 => n == 8,
            HeaderKind::Uint32 => n == 4,
            HeaderKind::Uint64 => n == 8,
            HeaderKind::Uint128 => n == 16,
            HeaderKind::Float32 => n == 4,
            HeaderKind::Float64 => n == 8,
        }
    }
}

impl Clone for HeaderValue {
    /// A clone has the same kind and bytes.
    fn clone(&self) -> (r: Self)
        ensures
            r@ == self@,
    {
        let r = HeaderValue { kind: self.kind, value: self.value.clone() };
        proof {
            assert(r@ =~= self@);
        }
        r
    }
}

/// The abstract value of one header.
pub struct HeaderView {
    pub key: Seq<u8>,
    pub kind: HeaderKind,
    pub bytes: Seq<u8>,
}

/// One header: a key and a value.
#[derive(Debug)]
pub struct Header {
    pub key: HeaderKey,
    pub value: HeaderValue,
}

impl View for Header {
    type V = HeaderView;

    open spec fn view(&self) -> HeaderView {
        HeaderView { key: self.key@, kind: self.value.kind, bytes: self.value.value@ }
    }
}

impl Clone for Header {
    /// A clone has the same key and value.
    fn clone(&self) -> (r: Self)
        ensures
            r@ == self@,
    {
        let r = Header { key: self.key.clone(), value: self.value.clone() };
        proof {
            assert(r@ =~= self@);
        }
        r
    }
}

/// A well-formed header.
pub open spec fn wf_header(h: HeaderView) -> bool {
    &&& wf_key(h.key)
    &&& spec_value_len_ok(h.kind, h.bytes.len())
}

/// The wire bytes of one header.
pub open spec fn spec_header_bytes(h: HeaderView) -> Seq<u8> {
    seq![h.key.len() as u8] + h.key + seq![spec_kind_byte(h.kind)] + spec_u32_to_le_bytes(
        h.bytes.len() as u32,
    ) + h.bytes
}

/// The wire bytes of a headers block: the headers in order.
pub open spec fn spec_headers_bytes(hs: Seq<HeaderView>) -> Seq<u8>
    decreases hs.len(),
{
    if hs.len() == 0 {
        Seq::empty()
    } else {
        spec_header_bytes(hs[0]) + spec_headers_bytes(hs.skip(1))
    }
}

/// Parses one header from the front of `s`: the header and the bytes it
/// occupies.
pub open spec fn spec_parse_header(s: Seq<u8>) -> Option<(HeaderView, int)> {
    if s.len() < 1 {
        None
    } else {
        let klen = s[0] as int;
        if klen < 1 || s.len() < klen + 6 {
            None
        } else {
            let key = s.subrange(1, 1 + klen);
            let kb = spec_kind_of_byte(s[1 + klen]);
            let vlen = spec_u32_from_le_bytes(s.subrange(2 + klen, 6 + klen)) as int;
            if !wf_key(key) || kb is None || s.len() < 6 + klen + vlen {
                None
            } else {
                let kind = kb->Some_0;
                if !spec_value_len_ok(kind, vlen as nat) {
                    None
                } else {
                    Some(
                        (
                            HeaderView { key, kind, bytes: s.subrange(6 + klen, 6 + klen + vlen) },
                            6 + klen + vlen,
                        ),
                    )
                }
            }
        }
    }
}

/// Parses a whole headers block: every byte of `s` must belong to a header.
pub open spec fn spec_parse_headers(s: Seq<u8>) -> Option<Seq<HeaderView>>
    decreases s.len(),
{
    if s.len() == 0 {
        Some(Seq::empty())
    } else {
        match spec_parse_header(s) {
            None => None,
            Some((h, n)) => if 0 < n <= s.len() {
                match spec_parse_headers(s.skip(n)) {
                    None => None,
                    Some(t) => Some(seq![h] + t),
                }
            } else {
                None
            },
        }
    }
}

/// Parsing one header recovers exactly what was encoded, wherever it stands
/// in front of other bytes.
pub proof fn lemma_header_round_trip(h: HeaderView, rest: Seq<u8>)
    requires
        wf_header(h),
    ensures
        spec_parse_header(spec_header_bytes(h) + rest) == Some(
            (h, spec_header_bytes(h).len() as int),
        ),
        spec_header_bytes(h).len() == 6 + h.key.len() + h.bytes.len(),
{
    let s = spec_header_bytes(h) + rest;
    let klen = h.key.len() as int;
    lemma_auto_spec_u32_to_from_le_bytes();
    assert(s[0] == klen as u8);
    assert(s.subrange(1, 1 + klen) =~= h.key);
    assert(s[1 + klen] == spec_kind_byte(h.kind));
    assert(s.subrange(2 + klen, 6 + klen) =~= spec_u32_to_le_bytes(h.bytes.len() as u32));
    assert(spec_kind_of_byte(spec_kind_byte(h.kind)) == Some(h.kind));
    assert(s.subrange(6 + klen, 6 + klen + h.bytes.len() as int) =~= h.bytes);
}

/// Parsing a whole encoded block recovers exactly the headers encoded.
pub proof fn lemma_headers_round_trip(hs: Seq<HeaderView>)
    requires
        forall|i: int| 0 <= i < hs.len() ==> wf_header(#[trigger] hs[i]),
    ensures
        spec_parse_headers(spec_headers_bytes(hs)) == Some(hs),
    decreases hs.len(),
{
    if hs.len() == 0 {
        assert(spec_headers_bytes(hs) =~= Seq::<u8>::empty());
        assert(Some(Seq::<HeaderView>::empty()) == Some(hs));
    } else {
        let h = hs[0];
        let t = hs.skip(1);
        let rest = spec_headers_bytes(t);
        lemma_header_round_trip(h, rest);
        let s = spec_header_bytes(h) + rest;
        let n = spec_header_bytes(h).len() as int;
        assert(s.skip(n) =~= rest);
        lemma_headers_round_trip(t);
        assert(seq![h] + t =~= hs);
    }
}

/// Appending one header to a block appends its bytes to the block's bytes.
pub proof fn lemma_headers_bytes_push(hs: Seq<HeaderView>, h: HeaderView)
    ensures
        spec_headers_bytes(hs.push(h)) == spec_headers_bytes(hs) + spec_header_bytes(h),
    decreases hs.len(),
{
    if hs.len() == 0 {
        assert(hs.push(h)[0] == h);
        assert(hs.push(h).skip(1) =~= Seq::<HeaderView>::empty());
        assert(spec_headers_bytes(Seq::<HeaderView>::empty()) == Seq::<u8>::empty());
        assert(spec_headers_bytes(hs.push(h)) =~= spec_header_bytes(h));
        assert(spec_headers_bytes(hs) + spec_header_bytes(h) =~= spec_header_bytes(h));
    } else {
        assert(hs.push(h)[0] == hs[0]);
        assert(hs.push(h).skip(1) =~= hs.skip(1).push(h));
        lemma_headers_bytes_push(hs.skip(1), h);
        assert(spec_headers_bytes(hs.push(h)) =~= spec_headers_bytes(hs) + spec_header_bytes(h));
    }
}

/// A parsed header occupies exactly the bytes its encoding produces: the
/// wire form is canonical.
pub proof fn lemma_parse_header_exact(s: Seq<u8>)
    requires
        spec_parse_header(s) is Some,
    ensures
        ({
            let (h, n) = spec_parse_header(s)->Some_0;
            &&& spec_header_bytes(h) == s.subrange(0, n)
            &&& n == 6 + h.key.len() + h.bytes.len()
            &&& wf_header(h)
        }),
{
    let (h, n) = spec_parse_header(s)->Some_0;
    let klen = s[0] as int;
    lemma_auto_spec_u32_to_from_le_bytes();
    assert(spec_kind_byte(h.kind) == s[1 + klen]);
    assert(s.subrange(2 + klen, 6 + klen) =~= spec_u32_to_le_bytes(h.bytes.len() as u32));
    assert(spec_header_bytes(h) =~= s.subrange(0, n));
}

/// A parsed headers block re-encodes to exactly the bytes it was parsed
/// from.
pub proof fn lemma_parse_headers_exact(s: Seq<u8>)
    requires
        spec_parse_headers(s) is Some,
    ensures
        spec_headers_bytes(spec_parse_headers(s)->Some_0) == s,
        forall|i: int|
            0 <= i < spec_parse_headers(s)->Some_0.len() ==> wf_header(
                #[trigger] spec_parse_headers(s)->Some_0[i],
            ),
    decreases s.len(),
{
    if s.len() == 0 {
        assert(spec_headers_bytes(Seq::<HeaderView>::empty()) =~= s);
    } else {
        let (h, n) = spec_parse_header(s)->Some_0;
        lemma_parse_header_exact(s);
        lemma_parse_headers_exact(s.skip(n));
        let t = spec_parse_headers(s.skip(n))->Some_0;
        let hs = spec_parse_headers(s)->Some_0;
        assert(hs =~= seq![h] + t);
        assert(hs[0] == h);
        assert(hs.skip(1) =~= t);
        assert(spec_headers_bytes(hs) =~= s);
    }
}

/// Appends the wire bytes of `h` to `buf`.
pub fn encode_header(buf: &mut Vec<u8>, h: &Header)
    requires
        wf_header(h@),
    ensures
        final(buf)@ == old(buf)@ + spec_header_bytes(h@),
{
    buf.push(h.key.bytes.len() as u8);
    buf.extend_from_slice(h.key.bytes.as_slice());
    buf.push(kind_byte(h.value.kind));
    put_u32_le(buf, h.value.value.len() as u32);
    buf.extend_from_slice(h.value.value.as_slice());
    proof {
        assert(buf@ =~= old(buf)@ + spec_header_bytes(h@));
    }
}

/// Appends the wire bytes of the whole block to `buf`.
pub fn encode_headers(buf: &mut Vec<u8>, hs: &Vec<Header>)
    requires
        forall|i: int| 0 <= i < hs@.len() ==> wf_header(#[trigger] hs@[i]@),
    ensures
        final(buf)@ == old(buf)@ + spec_headers_bytes(hs@.map_values(|h: Header| h@)),
{
    let ghost views = hs@.map_values(|h: Header| h@);
    let mut i: usize = 0;
    proof {
        assert(spec_headers_bytes(views.take(0)) =~= Seq::<u8>::empty());
        assert(buf@ =~= old(buf)@ + spec_headers_bytes(views.take(0)));
    }
    while i < hs.len()
        invariant
            0 <= i <= hs@.len(),
            views == hs@.map_values(|h: Header| h@),
            forall|k: int| 0 <= k < hs@.len() ==> wf_header(#[trigger] hs@[k]@),
            buf@ == old(buf)@ + spec_headers_bytes(views.take(i as int)),
        decreases hs@.len() - i,
    {
        let h = &hs[i];
        encode_header(buf, h);
        proof {
            lemma_headers_bytes_push(views.take(i as int), views[i as int]);
            assert(views.take(i as int).push(views[i as int]) =~= views.take(i + 1));
        }
        i = i + 1;
    }
    proof {
        assert(views.take(views.len() as int) =~= views);
    }
}

/// Parses the header standing at `pos` in `buf`. Fails exactly where
/// [`spec_parse_header`] does.
pub fn parse_header(buf: &[u8], pos: usize) -> (r: Result<(Header, usize), IggyError>)
    requires
        pos <= buf@.len(),
    ensures
        r is Ok <==> spec_parse_header(buf@.skip(pos as int)) is Some,
        r is Err ==> r == Result::<(Header, usize), IggyError>::Err(IggyError::MalformedPayload),
        r is Ok ==> {
            let (h, n) = spec_parse_header(buf@.skip(pos as int))->Some_0;
            &&& r->Ok_0.0@ == h
            &&& wf_header(h)
            &&& r->Ok_0.1 == pos + n
            &&& pos < r->Ok_0.1 <= buf@.len()
        },
{
    let ghost s = buf@.skip(pos as int);
    let buf_len: usize = buf.len();
    if buf_len - pos < 1 {
        return Err(IggyError::MalformedPayload);
    }
    let klen = buf[pos] as usize;
    assert(klen == s[0]);
    if klen < 1 || buf_len - pos < klen + 6 {
        return Err(IggyError::MalformedPayload);
    }
    let key_bytes = slice_to_vec(slice_subrange(buf, pos + 1, pos + 1 + klen));
    proof {
        assert(key_bytes@ =~= s.subrange(1, 1 + klen as int));
    }
    let key = match HeaderKey::from_bytes(key_bytes) {
        Ok(k) => k,
        Err(_) => {
            return Err(IggyError::MalformedPayload);
        },
    };
    let kb = buf[pos + 1 + klen];
    assert(kb == s[1 + klen as int]);
    let kind = match kind_of_byte(kb) {
        Some(k) => k,
        None => {
            return Err(IggyError::MalformedPayload);
        },
    };
    let vlen32 = read_u32_le(buf, pos + 2 + klen);
    proof {
        assert(buf@.subrange(pos + 2 + klen as int, pos + 6 + klen as int) =~= s.subrange(
            2 + klen as int,
            6 + klen as int,
        ));
    }
    let vlen = vlen32 as usize;
    if buf_len - pos - 6 - klen < vlen {
        return Err(IggyError::MalformedPayload);
    }
    let value_bytes = slice_to_vec(slice_subrange(buf, pos + 6 + klen, pos + 6 + klen + vlen));
    proof {
        assert(value_bytes@ =~= s.subrange(6 + klen as int, 6 + klen as int + vlen as int));
    }
    let value = match HeaderValue::from_kind_bytes(kind, value_bytes) {
        Ok(v) => v,
        Err(_) => {
            return Err(IggyError::MalformedPayload);
        },
    };
    Ok((Header { key, value }, pos + 6 + klen + vlen))
}

/// Parses a whole headers block; every byte of `buf` must belong to a
/// header. Fails exactly where [`spec_parse_headers`] does.
pub fn parse_headers(buf: &[u8]) -> (r: Result<Vec<Header>, IggyError>)
    ensures
        r is Ok <==> spec_parse_headers(buf@) is Some,
        r is Err ==> r == Result::<Vec<Header>, IggyError>::Err(IggyError::MalformedPayload),
        r is Ok ==> {
            let hs = spec_parse_headers(buf@)->Some_0;
            &&& r->Ok_0@.map_values(|h: Header| h@) == hs
            &&& forall|i: int| 0 <= i < hs.len() ==> wf_header(#[trigger] hs[i])
        },
{
    let mut out: Vec<Header> = Vec::new();
    let mut pos: usize = 0;
    let ghost all = buf@;
    proof {
        assert(all.skip(0) =~= all);
        assert(out@.map_values(|h: Header| h@) =~= Seq::<HeaderView>::empty());
    }
    loop
        invariant
            pos <= all.len(),
            all == buf@,
            forall|i: int| 0 <= i < out@.len() ==> wf_header(#[trigger] out@[i]@),
            spec_parse_headers(all) is Some <==> spec_parse_headers(all.skip(pos as int)) is Some,
            spec_parse_headers(all) is Some ==> spec_parse_headers(all)->Some_0 == out@.map_values(
                |h: Header| h@,
            ) + spec_parse_headers(all.skip(pos as int))->Some_0,
        decreases all.len() - pos,
    {
        if pos == buf.len() {
            proof {
                assert(all.skip(pos as int) =~= Seq::<u8>::empty());
                if spec_parse_headers(all) is Some {
                    assert(spec_parse_headers(all)->Some_0 =~= out@.map_values(|h: Header| h@));
                }
            }
            return Ok(out);
        }
        let ghost rem = all.skip(pos as int);
        match parse_header(buf, pos) {
            Ok((h, next)) => {
                proof {
                    let (hv, n) = spec_parse_header(rem)->Some_0;
                    assert(rem.skip(n) =~= all.skip(next as int));
                    if spec_parse_headers(all) is Some {
                        let full = spec_parse_headers(all)->Some_0;
                        let t = spec_parse_headers(rem)->Some_0;
                        assert(spec_parse_headers(rem.skip(n)) is Some);
                        let t2 = spec_parse_headers(rem.skip(n))->Some_0;
                        assert(t =~= seq![hv] + t2);
                        assert(out@.map_values(|x: Header| x@).push(hv) =~= out@.push(
                            h,
                        ).map_values(|x: Header| x@));
                        assert(full =~= out@.push(h).map_values(|x: Header| x@) + t2);
                    }
                }
                out.push(h);
                pos = next;
            },
            Err(e) => {
                return Err(e);
            },
        }
    }
}

} // verus!
