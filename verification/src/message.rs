//! Messages and their on-disk frame format. A frame is
//! `u64 offset | u64 timestamp | u128 id | u32 checksum | u32 headers_len |
//! headers | u32 payload_len | payload`, every integer little-endian. A
//! segment log file is the plain concatenation of frames; recovery parses
//! complete frames from the front and drops a trailing partial frame.

use crate::error::IggyError;
use crate::header::{
    encode_headers, parse_headers, spec_headers_bytes, wf_header, Header, HeaderView,
};
use crate::encoding::{put_u128_le, put_u32_le, put_u64_le, read_u128_le, read_u32_le, read_u64_le};
use vstd::bytes::*;
use vstd::prelude::*;
use vstd::slice::{slice_subrange, slice_to_vec};

verus! {

/// The fixed byte cost of one frame besides its headers and payload.
pub const FRAME_OVERHEAD: u64 = 44;

/// The largest payload a message may carry: one mebibyte less the fixed
/// frame overhead. Headers are bounded separately.
pub const MAX_PAYLOAD_BYTES: u64 = 1048532;

/// What a CRC-32 checksum of a byte sequence is.
pub uninterp spec fn crc32_of(data: Seq<u8>) -> u32;

/// Relies on crc32fast::hash: the CRC-32 (IEEE) checksum of the bytes, a
/// function of them alone.
#[verifier::external_body]
pub fn crc32(data: &[u8]) -> (r: u32)
    ensures
        r == crc32_of(data@),
{
    crc32fast::hash(data)
}

/// The abstract value of a message.
pub struct MessageView {
    pub offset: u64,
    pub timestamp: u64,
    pub id: u128,
    pub checksum: u32,
    pub headers: Seq<HeaderView>,
    pub payload: Seq<u8>,
}

/// One message of a partition. `offset` and `timestamp` are stamped by the
/// partition at append; `id` is producer-supplied or zero; `checksum` is the
/// CRC-32 of the payload.
#[derive(Debug)]
pub struct Message {
    pub offset: u64,
    pub timestamp: u64,
    pub id: u128,
    pub checksum: u32,
    pub headers: Vec<Header>,
    pub payload: Vec<u8>,
}

impl View for Message {
    type V = MessageView;

    open spec fn view(&self) -> MessageView {
        MessageView {
            offset: self.offset,
            timestamp: self.timestamp,
            id: self.id,
            checksum: self.checksum,
            headers: self.headers@.map_values(|h: Header| h@),
            payload: self.payload@,
        }
    }
}

impl Clone for Message {
    /// A clone has the same abstract value.
    fn clone(&self) -> (r: Self)
        ensures
            r@ == self@,
    {
        let mut headers: Vec<Header> = Vec::new();
        let mut i: usize = 0;
        while i < self.headers.len()
            invariant
                0 <= i <= self.headers@.len(),
                headers@.len() == i,
                forall|j: int| 0 <= j < i ==> #[trigger] headers@[j]@ == self.headers@[j]@,
            decreases self.headers@.len() - i,
        {
            headers.push(self.headers[i].clone());
            i = i + 1;
        }
        let r = Message {
            offset: self.offset,
            timestamp: self.timestamp,
            id: self.id,
            checksum: self.checksum,
            headers,
            payload: self.payload.clone(),
        };
        proof {
            assert(r@.headers =~= self@.headers);
            assert(r@ =~= self@);
        }
        r
    }
}

/// A well-formed message: a payload of 1 byte to [`MAX_PAYLOAD_BYTES`], and
/// well-formed headers whose block stays within its limit.
pub open spec fn wf_message(m: MessageView) -> bool {
    &&& 1 <= m.payload.len() <= MAX_PAYLOAD_BYTES
    &&& forall|i: int| 0 <= i < m.headers.len() ==> wf_header(#[trigger] m.headers[i])
    &&& spec_headers_bytes(m.headers).len() <= crate::header::MAX_HEADERS_BYTES
}

/// The frame bytes of a message.
pub open spec fn spec_frame_bytes(m: MessageView) -> Seq<u8> {
    let hb = spec_headers_bytes(m.headers);
    spec_u64_to_le_bytes(m.offset) + spec_u64_to_le_bytes(m.timestamp) + spec_u128_to_le_bytes(
        m.id,
    ) + spec_u32_to_le_bytes(m.checksum) + spec_u32_to_le_bytes(hb.len() as u32) + hb
        + spec_u32_to_le_bytes(m.payload.len() as u32) + m.payload
}

/// The byte length of a message's frame.
pub open spec fn spec_frame_len(m: MessageView) -> int {
    FRAME_OVERHEAD + spec_headers_bytes(m.headers).len() + m.payload.len()
}

/// Parses one frame from the front of `s`: the message and the bytes the
/// frame occupies. A frame whose lengths exceed the engine's limits, or
/// whose headers block does not parse, is refused.
pub open spec fn spec_parse_frame(s: Seq<u8>) -> Option<(MessageView, int)> {
    if s.len() < 40 {
        None
    } else {
        let hl = spec_u32_from_le_bytes(s.subrange(36, 40)) as int;
        if hl > crate::header::MAX_HEADERS_BYTES || s.len() < 44 + hl {
            None
        } else {
            let pl = spec_u32_from_le_bytes(s.subrange(40 + hl, 44 + hl)) as int;
            if pl < 1 || pl > MAX_PAYLOAD_BYTES || s.len() < 44 + hl + pl {
                None
            } else {
                match crate::header::spec_parse_headers(s.subrange(40, 40 + hl)) {
                    None => None,
                    Some(hs) => Some(
                        (
                            MessageView {
                                offset: spec_u64_from_le_bytes(s.subrange(0, 8)),
                                timestamp: spec_u64_from_le_bytes(s.subrange(8, 16)),
                                id: spec_u128_from_le_bytes(s.subrange(16, 32)),
                                checksum: spec_u32_from_le_bytes(s.subrange(32, 36)),
                                headers: hs,
                                payload: s.subrange(44 + hl, 44 + hl + pl),
                            },
                            44 + hl + pl,
                        ),
                    ),
                }
            }
        }
    }
}

/// Parsing one frame recovers exactly the message encoded, wherever its
/// frame stands in front of other bytes.
pub proof fn lemma_frame_round_trip(m: MessageView, rest: Seq<u8>)
    requires
        wf_message(m),
    ensures
        spec_parse_frame(spec_frame_bytes(m) + rest) == Some((m, spec_frame_len(m))),
        spec_frame_bytes(m).len() == spec_frame_len(m),
{
    let hb = spec_headers_bytes(m.headers);
    let hl = hb.len() as int;
    let pl = m.payload.len() as int;
    let s = spec_frame_bytes(m) + rest;
    lemma_auto_spec_u32_to_from_le_bytes();
    lemma_auto_spec_u64_to_from_le_bytes();
    lemma_auto_spec_u128_to_from_le_bytes();
    assert(s.subrange(0, 8) =~= spec_u64_to_le_bytes(m.offset));
    assert(s.subrange(8, 16) =~= spec_u64_to_le_bytes(m.timestamp));
    assert(s.subrange(16, 32) =~= spec_u128_to_le_bytes(m.id));
    assert(s.subrange(32, 36) =~= spec_u32_to_le_bytes(m.checksum));
    assert(s.subrange(36, 40) =~= spec_u32_to_le_bytes(hl as u32));
    assert(s.subrange(40, 40 + hl) =~= hb);
    assert(s.subrange(40 + hl, 44 + hl) =~= spec_u32_to_le_bytes(pl as u32));
    assert(s.subrange(44 + hl, 44 + hl + pl) =~= m.payload);
    crate::header::lemma_headers_round_trip(m.headers);
    let parsed = spec_parse_frame(s)->Some_0.0;
    assert(parsed =~= m);
}

/// No strict prefix of a frame parses: a torn final write is refused whole.
pub proof fn lemma_frame_prefix_incomplete(m: MessageView, k: int)
    requires
        wf_message(m),
        0 <= k < spec_frame_len(m),
    ensures
        spec_parse_frame(spec_frame_bytes(m).subrange(0, k)) is None,
{
    let hb = spec_headers_bytes(m.headers);
    let hl = hb.len() as int;
    let pl = m.payload.len() as int;
    lemma_frame_round_trip(m, Seq::empty());
    let f = spec_frame_bytes(m);
    let s = f.subrange(0, k);
    lemma_auto_spec_u32_to_from_le_bytes();
    if k < 40 {
    } else {
        assert(s.subrange(36, 40) =~= f.subrange(36, 40));
        assert(f.subrange(36, 40) =~= spec_u32_to_le_bytes(hl as u32));
        if k < 44 + hl {
        } else {
            assert(s.subrange(40 + hl, 44 + hl) =~= f.subrange(40 + hl, 44 + hl));
            assert(f.subrange(40 + hl, 44 + hl) =~= spec_u32_to_le_bytes(pl as u32));
            assert(s.len() < 44 + hl + pl);
        }
    }
}

/// A parsed frame re-encodes to exactly the bytes it occupies, and the
/// message it carries is well formed.
pub proof fn lemma_parse_frame_exact(s: Seq<u8>)
    requires
        spec_parse_frame(s) is Some,
    ensures
        ({
            let (m, n) = spec_parse_frame(s)->Some_0;
            &&& spec_frame_bytes(m) == s.subrange(0, n)
            &&& n == spec_frame_len(m)
            &&& wf_message(m)
        }),
{
    let (m, n) = spec_parse_frame(s)->Some_0;
    let hl = spec_u32_from_le_bytes(s.subrange(36, 40)) as int;
    let pl = spec_u32_from_le_bytes(s.subrange(40 + hl, 44 + hl)) as int;
    lemma_auto_spec_u32_to_from_le_bytes();
    lemma_auto_spec_u64_to_from_le_bytes();
    lemma_auto_spec_u128_to_from_le_bytes();
    crate::header::lemma_parse_headers_exact(s.subrange(40, 40 + hl));
    assert(spec_headers_bytes(m.headers) == s.subrange(40, 40 + hl));
    assert(s.subrange(0, 8) =~= s.subrange(0, n).subrange(0, 8));
    assert(spec_frame_bytes(m) =~= s.subrange(0, n));
}

/// Recovery returns messages that re-encode to exactly the prefix it kept.
pub proof fn lemma_recover_exact(s: Seq<u8>)
    ensures
        ({
            let (ms, c) = spec_recover_log(s);
            &&& 0 <= c <= s.len()
            &&& spec_log_bytes(ms) == s.subrange(0, c)
            &&& forall|i: int| 0 <= i < ms.len() ==> wf_message(#[trigger] ms[i])
        }),
    decreases s.len(),
{
    let (ms, c) = spec_recover_log(s);
    match spec_parse_frame(s) {
        None => {
            assert(ms =~= Seq::<MessageView>::empty());
            assert(spec_log_bytes(ms) =~= s.subrange(0, 0));
        },
        Some((m, n)) => {
            lemma_parse_frame_exact(s);
            lemma_recover_exact(s.skip(n));
            let (t, c2) = spec_recover_log(s.skip(n));
            assert(ms =~= seq![m] + t);
            assert(ms[0] == m);
            assert(ms.skip(1) =~= t);
            assert(spec_log_bytes(ms) =~= s.subrange(0, c));
        },
    }
}

impl Message {
    /// Builds a message ready to append: validates headers and payload size,
    /// computes the payload checksum, and leaves offset and timestamp zero
    /// for the partition to stamp.
    #[verifier::loop_isolation(false)]
    pub fn new(id: u128, headers: Vec<Header>, payload: Vec<u8>) -> (r: Result<Message, IggyError>)
        ensures
            ({
                let cand = MessageView {
                    offset: 0,
                    timestamp: 0,
                    id,
                    checksum: crc32_of(payload@),
                    headers: headers@.map_values(|h: Header| h@),
                    payload: payload@,
                };
                &&& (r is Ok <==> wf_message(cand))
                &&& (r is Ok ==> r->Ok_0@ == cand)
                &&& (!(1 <= payload@.len() <= MAX_PAYLOAD_BYTES) ==> r
                    == Result::<Message, IggyError>::Err(IggyError::TooLargePayload))
            }),
    {
        let ghost cand = MessageView {
            offset: 0,
            timestamp: 0,
            id,
            checksum: crc32_of(payload@),
            headers: headers@.map_values(|h: Header| h@),
            payload: payload@,
        };
        if payload.len() == 0 || payload.len() > MAX_PAYLOAD_BYTES as usize {
            return Err(IggyError::TooLargePayload);
        }
        let mut i: usize = 0;
        while i < headers.len()
            invariant
                0 <= i <= headers@.len(),
                forall|j: int| 0 <= j < i ==> wf_header(#[trigger] headers@[j]@),
            decreases headers@.len() - i,
        {
            if !headers[i].key.wf() {
                proof {
                    assert(cand.headers[i as int] == headers@[i as int]@);
                }
                return Err(IggyError::InvalidHeaderKey);
            }
            if !headers[i].value.wf() {
                proof {
                    assert(cand.headers[i as int] == headers@[i as int]@);
                }
                return Err(IggyError::InvalidHeaderValue);
            }
            i = i + 1;
        }
        proof {
            assert forall|j: int| 0 <= j < cand.headers.len() implies wf_header(
                #[trigger] cand.headers[j],
            ) by {
                assert(cand.headers[j] == headers@[j]@);
            }
        }
        let mut block: Vec<u8> = Vec::new();
        encode_headers(&mut block, &headers);
        proof {
            assert(block@ =~= spec_headers_bytes(cand.headers));
        }
        if block.len() > crate::header::MAX_HEADERS_BYTES as usize {
            return Err(IggyError::TooLargePayload);
        }
        let checksum = crc32(payload.as_slice());
        Ok(Message { offset: 0, timestamp: 0, id, checksum, headers, payload })
    }

    /// The frame length of this message, exactly when it is well formed.
    pub fn frame_len_checked(&self) -> (r: Option<u64>)
        ensures
            r is Some <==> wf_message(self@),
            r is Some ==> r->Some_0 == spec_frame_len(self@),
    {
        if self.payload.len() == 0 || self.payload.len() > MAX_PAYLOAD_BYTES as usize {
            return None;
        }
        let mut i: usize = 0;
        while i < self.headers.len()
            invariant
                0 <= i <= self.headers@.len(),
                forall|j: int| 0 <= j < i ==> wf_header(#[trigger] self.headers@[j]@),
            decreases self.headers@.len() - i,
        {
            if !self.headers[i].key.wf() || !self.headers[i].value.wf() {
                proof {
                    assert(self@.headers[i as int] == self.headers@[i as int]@);
                }
                return None;
            }
            i = i + 1;
        }
        proof {
            assert forall|j: int| 0 <= j < self@.headers.len() implies wf_header(
                #[trigger] self@.headers[j],
            ) by {
                assert(self@.headers[j] == self.headers@[j]@);
            }
        }
        let mut block: Vec<u8> = Vec::new();
        encode_headers(&mut block, &self.headers);
        proof {
            assert(block@ =~= spec_headers_bytes(self@.headers));
        }
        if block.len() > crate::header::MAX_HEADERS_BYTES as usize {
            return None;
        }
        Some(FRAME_OVERHEAD + block.len() as u64 + self.payload.len() as u64)
    }

    /// Appends this message's frame bytes to `buf`.
    pub fn encode_frame(&self, buf: &mut Vec<u8>)
        requires
            wf_message(self@),
        ensures
            final(buf)@ == old(buf)@ + spec_frame_bytes(self@),
    {
        proof {
            assert forall|i: int| 0 <= i < self.headers@.len() implies wf_header(
                #[trigger] self.headers@[i]@,
            ) by {
                assert(self@.headers[i] == self.headers@[i]@);
            }
        }
        let mut block: Vec<u8> = Vec::new();
        encode_headers(&mut block, &self.headers);
        put_u64_le(buf, self.offset);
        put_u64_le(buf, self.timestamp);
        put_u128_le(buf, self.id);
        put_u32_le(buf, self.checksum);
        put_u32_le(buf, block.len() as u32);
        buf.extend_from_slice(block.as_slice());
        put_u32_le(buf, self.payload.len() as u32);
        buf.extend_from_slice(self.payload.as_slice());
        proof {
            assert(buf@ =~= old(buf)@ + spec_frame_bytes(self@));
        }
    }

    /// Parses the frame standing at `pos` in `buf`, returning the message
    /// and the position just past the frame. Fails exactly where
    /// [`spec_parse_frame`] does.
    pub fn parse_frame(buf: &[u8], pos: usize) -> (r: Result<(Message, usize), IggyError>)
        requires
            pos <= buf@.len(),
        ensures
            r is Ok <==> spec_parse_frame(buf@.skip(pos as int)) is Some,
            r is Err ==> r == Result::<(Message, usize), IggyError>::Err(
                IggyError::MalformedPayload,
            ),
            r is Ok ==> {
                let (m, n) = spec_parse_frame(buf@.skip(pos as int))->Some_0;
                &&& r->Ok_0.0@ == m
                &&& wf_message(m)
                &&& r->Ok_0.1 == pos + n
                &&& pos < r->Ok_0.1 <= buf@.len()
            },
    {
        let ghost s = buf@.skip(pos as int);
        let buf_len: usize = buf.len();
        if buf_len - pos < 40 {
            return Err(IggyError::MalformedPayload);
        }
        let offset = read_u64_le(buf, pos);
        let timestamp = read_u64_le(buf, pos + 8);
        let id = read_u128_le(buf, pos + 16);
        let checksum = read_u32_le(buf, pos + 32);
        let hl32 = read_u32_le(buf, pos + 36);
        proof {
            assert(buf@.subrange(pos as int, pos + 8) =~= s.subrange(0, 8));
            assert(buf@.subrange(pos + 8, pos + 16) =~= s.subrange(8, 16));
            assert(buf@.subrange(pos + 16, pos + 32) =~= s.subrange(16, 32));
            assert(buf@.subrange(pos + 32, pos + 36) =~= s.subrange(32, 36));
            assert(buf@.subrange(pos + 36, pos + 40) =~= s.subrange(36, 40));
        }
        let avail = buf_len - pos;
        let hl = hl32 as usize;
        if hl > crate::header::MAX_HEADERS_BYTES as usize || avail < 44 || avail - 44 < hl {
            return Err(IggyError::MalformedPayload);
        }
        let pl32 = read_u32_le(buf, pos + 40 + hl);
        proof {
            assert(buf@.subrange(pos + 40 + hl as int, pos + 44 + hl as int) =~= s.subrange(
                40 + hl as int,
                44 + hl as int,
            ));
        }
        let pl = pl32 as usize;
        if pl < 1 || pl > MAX_PAYLOAD_BYTES as usize || avail - 44 - hl < pl {
            return Err(IggyError::MalformedPayload);
        }
        let block = slice_subrange(buf, pos + 40, pos + 40 + hl);
        proof {
            assert(block@ =~= s.subrange(40, 40 + hl as int));
        }
        let headers = match parse_headers(block) {
            Ok(hs) => hs,
            Err(_) => {
                return Err(IggyError::MalformedPayload);
            },
        };
        let payload = slice_to_vec(slice_subrange(buf, pos + 44 + hl, pos + 44 + hl + pl));
        proof {
            assert(payload@ =~= s.subrange(44 + hl as int, 44 + hl as int + pl as int));
        }
        let m = Message { offset, timestamp, id, checksum, headers, payload };
        proof {
            let (mv, n) = spec_parse_frame(s)->Some_0;
            assert(m@ =~= mv);
            lemma_parse_frame_exact(s);
        }
        Ok((m, pos + 44 + hl + pl))
    }
}

/// The log bytes of a sequence of messages: their frames in order.
pub open spec fn spec_log_bytes(ms: Seq<MessageView>) -> Seq<u8>
    decreases ms.len(),
{
    if ms.len() == 0 {
        Seq::empty()
    } else {
        spec_frame_bytes(ms[0]) + spec_log_bytes(ms.skip(1))
    }
}

/// Appending one message appends its frame to the log bytes.
pub proof fn lemma_log_bytes_push(ms: Seq<MessageView>, m: MessageView)
    ensures
        spec_log_bytes(ms.push(m)) == spec_log_bytes(ms) + spec_frame_bytes(m),
    decreases ms.len(),
{
    if ms.len() == 0 {
        assert(ms.push(m)[0] == m);
        assert(ms.push(m).skip(1) =~= Seq::<MessageView>::empty());
        assert(spec_log_bytes(Seq::<MessageView>::empty()) == Seq::<u8>::empty());
        assert(spec_log_bytes(ms.push(m)) =~= spec_frame_bytes(m));
        assert(spec_log_bytes(ms) + spec_frame_bytes(m) =~= spec_frame_bytes(m));
    } else {
        assert(ms.push(m)[0] == ms[0]);
        assert(ms.push(m).skip(1) =~= ms.skip(1).push(m));
        lemma_log_bytes_push(ms.skip(1), m);
        assert(spec_log_bytes(ms.push(m)) =~= spec_log_bytes(ms) + spec_frame_bytes(m));
    }
}

/// The log bytes of two runs of messages concatenate.
pub proof fn lemma_log_bytes_concat(a: Seq<MessageView>, b: Seq<MessageView>)
    ensures
        spec_log_bytes(a + b) == spec_log_bytes(a) + spec_log_bytes(b),
    decreases a.len(),
{
    if a.len() == 0 {
        assert(a + b =~= b);
        assert(spec_log_bytes(a) =~= Seq::<u8>::empty());
        assert(spec_log_bytes(a) + spec_log_bytes(b) =~= spec_log_bytes(b));
    } else {
        assert((a + b)[0] == a[0]);
        assert((a + b).skip(1) =~= a.skip(1) + b);
        lemma_log_bytes_concat(a.skip(1), b);
        assert(spec_log_bytes(a + b) =~= spec_log_bytes(a) + spec_log_bytes(b));
    }
}

/// What recovery yields on raw log bytes: the messages of every complete
/// frame from the front, and the byte length they occupy. Whatever follows
/// the first unparseable position is dropped.
pub open spec fn spec_recover_log(s: Seq<u8>) -> (Seq<MessageView>, int)
    decreases s.len(),
{
    match spec_parse_frame(s) {
        None => (Seq::empty(), 0),
        Some((m, n)) => if 0 < n <= s.len() {
            let (t, c) = spec_recover_log(s.skip(n));
            (seq![m] + t, n + c)
        } else {
            (Seq::empty(), 0)
        },
    }
}

/// Recovery of an intact log returns exactly the messages written.
pub proof fn lemma_recover_intact(ms: Seq<MessageView>)
    requires
        forall|i: int| 0 <= i < ms.len() ==> wf_message(#[trigger] ms[i]),
    ensures
        spec_recover_log(spec_log_bytes(ms)) == (ms, spec_log_bytes(ms).len() as int),
    decreases ms.len(),
{
    if ms.len() == 0 {
        assert(spec_log_bytes(ms) =~= Seq::<u8>::empty());
        assert(spec_parse_frame(Seq::<u8>::empty()) is None);
        assert(spec_recover_log(spec_log_bytes(ms)).0 =~= ms);
    } else {
        let m = ms[0];
        let t = ms.skip(1);
        let rest = spec_log_bytes(t);
        lemma_frame_round_trip(m, rest);
        let s = spec_frame_bytes(m) + rest;
        let n = spec_frame_len(m);
        assert(s.skip(n) =~= rest);
        lemma_recover_intact(t);
        assert(seq![m] + t =~= ms);
        assert(s.len() == n + rest.len());
    }
}

/// Recovery of a log whose tail was torn mid-frame returns exactly the
/// messages whose frames are complete, and the byte length they occupy:
/// the last complete frame wins.
pub proof fn lemma_recover_truncated(ms: Seq<MessageView>, j: int, k: int)
    requires
        forall|i: int| 0 <= i < ms.len() ==> wf_message(#[trigger] ms[i]),
        0 <= j <= ms.len(),
        spec_log_bytes(ms.take(j)).len() <= k <= spec_log_bytes(ms).len(),
        j < ms.len() ==> k < spec_log_bytes(ms.take(j + 1)).len(),
    ensures
        spec_recover_log(spec_log_bytes(ms).take(k)) == (
            ms.take(j),
            spec_log_bytes(ms.take(j)).len() as int,
        ),
    decreases j,
{
    let full = spec_log_bytes(ms);
    let s = full.take(k);
    if j == 0 {
        assert(ms.take(0) =~= Seq::<MessageView>::empty());
        assert(spec_log_bytes(ms.take(0)) =~= Seq::<u8>::empty());
        if ms.len() == 0 {
            assert(full =~= Seq::<u8>::empty());
            assert(s =~= Seq::<u8>::empty());
        } else {
            let m = ms[0];
            lemma_frame_round_trip(m, spec_log_bytes(ms.skip(1)));
            assert(ms.take(1)[0] == m);
            assert(ms.take(1).skip(1) =~= Seq::<MessageView>::empty());
            assert(spec_log_bytes(Seq::<MessageView>::empty()) == Seq::<u8>::empty());
            assert(spec_log_bytes(ms.take(1)) =~= spec_frame_bytes(m));
            assert(k < spec_frame_len(m));
            assert(s =~= spec_frame_bytes(m).subrange(0, k));
            lemma_frame_prefix_incomplete(m, k);
        }
        assert(spec_recover_log(s).0 =~= ms.take(0));
    } else {
        let m = ms[0];
        let t = ms.skip(1);
        lemma_frame_round_trip(m, spec_log_bytes(t));
        let n = spec_frame_len(m);
        assert(spec_log_bytes(ms.take(1)) =~= spec_frame_bytes(m)) by {
            assert(ms.take(1)[0] == m);
            assert(ms.take(1).skip(1) =~= Seq::<MessageView>::empty());
            assert(spec_log_bytes(Seq::<MessageView>::empty()) == Seq::<u8>::empty());
        }
        assert(spec_log_bytes(ms.take(j)).len() >= n) by {
            lemma_log_bytes_take_len_monotone(ms, 1, j);
        }
        assert(s.subrange(0, n) =~= spec_frame_bytes(m)) by {
            assert(full.subrange(0, n) =~= spec_frame_bytes(m));
        }
        assert(s =~= spec_frame_bytes(m) + spec_log_bytes(t).take(k - n)) by {
            assert(full =~= spec_frame_bytes(m) + spec_log_bytes(t));
        }
        lemma_frame_round_trip(m, spec_log_bytes(t).take(k - n));
        assert(s.skip(n) =~= spec_log_bytes(t).take(k - n));
        assert(t.take(j - 1) =~= ms.take(j).skip(1));
        assert(spec_log_bytes(ms.take(j)) =~= spec_frame_bytes(m) + spec_log_bytes(t.take(j - 1)))
            by {
            assert(ms.take(j)[0] == m);
            assert(ms.take(j).skip(1) =~= t.take(j - 1));
        }
        if j - 1 < t.len() {
            assert(spec_log_bytes(ms.take(j + 1)) =~= spec_frame_bytes(m) + spec_log_bytes(
                t.take(j),
            )) by {
                assert(ms.take(j + 1)[0] == m);
                assert(ms.take(j + 1).skip(1) =~= t.take(j));
            }
        }
        lemma_recover_truncated(t, j - 1, k - n);
        assert(seq![m] + t.take(j - 1) =~= ms.take(j));
    }
}

/// Taking more messages never shortens the log bytes.
pub proof fn lemma_log_bytes_take_len_monotone(ms: Seq<MessageView>, a: int, b: int)
    requires
        0 <= a <= b <= ms.len(),
    ensures
        spec_log_bytes(ms.take(a)).len() <= spec_log_bytes(ms.take(b)).len(),
    decreases b - a,
{
    if a < b {
        lemma_log_bytes_take_len_monotone(ms, a + 1, b);
        lemma_log_bytes_push(ms.take(a), ms[a]);
        assert(ms.take(a).push(ms[a]) =~= ms.take(a + 1));
    }
}

/// Recovers every complete frame from the front of `log`, returning the
/// messages and the byte length of the recovered prefix, exactly as
/// [`spec_recover_log`] says.
pub fn recover_log(log: &[u8]) -> (r: (Vec<Message>, usize))
    ensures
        ({
            let (ms, c) = spec_recover_log(log@);
            &&& r.0@.map_values(|m: Message| m@) == ms
            &&& r.1 == c
            &&& c <= log@.len()
            &&& forall|i: int| 0 <= i < ms.len() ==> wf_message(#[trigger] ms[i])
        }),
{
    let mut out: Vec<Message> = Vec::new();
    let mut pos: usize = 0;
    let ghost all = log@;
    proof {
        assert(all.skip(0) =~= all);
        assert(out@.map_values(|m: Message| m@) =~= Seq::<MessageView>::empty());
    }
    loop
        invariant
            pos <= all.len(),
            all == log@,
            forall|i: int| 0 <= i < out@.len() ==> wf_message(#[trigger] out@[i]@),
            spec_recover_log(all).0 == out@.map_values(|m: Message| m@) + spec_recover_log(
                all.skip(pos as int),
            ).0,
            spec_recover_log(all).1 == pos + spec_recover_log(all.skip(pos as int)).1,
        decreases all.len() - pos,
    {
        let ghost rem = all.skip(pos as int);
        match Message::parse_frame(log, pos) {
            Ok((m, next)) => {
                proof {
                    let (mv, n) = spec_parse_frame(rem)->Some_0;
                    assert(rem.skip(n) =~= all.skip(next as int));
                    let (t2, c2) = spec_recover_log(rem.skip(n));
                    assert(spec_recover_log(rem).0 =~= seq![mv] + t2);
                    assert(out@.map_values(|x: Message| x@).push(mv) =~= out@.push(m).map_values(
                        |x: Message| x@,
                    ));
                    assert(out@.map_values(|x: Message| x@) + spec_recover_log(rem).0 =~= out@.push(
                        m,
                    ).map_values(|x: Message| x@) + t2);
                }
                out.push(m);
                pos = next;
            },
            Err(_) => {
                proof {
                    assert(spec_recover_log(rem).0 =~= Seq::<MessageView>::empty());
                    assert(out@.map_values(|x: Message| x@) + spec_recover_log(rem).0
                        =~= out@.map_values(|x: Message| x@));
                }
                return (out, pos);
            },
        }
    }
}

} // verus!
