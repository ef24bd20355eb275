//! Segments: the on-disk slices of a partition. A segment owns the byte
//! image of its log file — the concatenation of complete message frames —
//! plus a dense offset index and time index, one entry per message. The
//! messages a segment holds are a function of its log bytes; recovery parses
//! complete frames from the front, checks that offsets continue the
//! segment's sequence, and drops everything from the first torn or
//! out-of-sequence frame on.

use crate::error::IggyError;
use crate::message::{
    spec_frame_bytes, spec_frame_len, spec_log_bytes, spec_parse_frame, spec_recover_log,
    wf_message, Message, MessageView,
};
use vstd::prelude::*;

verus! {

/// One record of the offset index: the message's offset relative to the
/// segment's start, and the byte position of its frame in the log.
#[derive(Clone, Copy, Debug, PartialEq, Eq, Structural)]
pub struct IndexEntry {
    pub relative_offset: u32,
    pub position: u32,
}

/// One record of the time index: the relative offset and the message's
/// timestamp in microseconds.
#[derive(Clone, Copy, Debug, PartialEq, Eq, Structural)]
pub struct TimeIndexEntry {
    pub relative_offset: u32,
    pub timestamp: u64,
}

/// An on-disk slice of a partition.
#[derive(Debug)]
pub struct Segment {
    pub start_offset: u64,
    pub end_offset: u64,
    pub size_bytes: u64,
    pub is_closed: bool,
    pub log: Vec<u8>,
    pub index: Vec<IndexEntry>,
    pub time_index: Vec<TimeIndexEntry>,
}

/// The messages a segment holds: what its log bytes parse to.
pub open spec fn seg_msgs(seg: &Segment) -> Seq<MessageView> {
    spec_recover_log(seg.log@).0
}

/// A well-formed segment: the log is exactly the frames of its messages,
/// offsets continue `start_offset` without gaps, `end_offset` is the last
/// offset written (or `start_offset` while empty), the size is the log's
/// byte length, and both indices carry one exact record per message.
pub open spec fn wf_segment(seg: &Segment) -> bool {
    let ms = seg_msgs(seg);
    &&& spec_recover_log(seg.log@).1 == seg.log@.len()
    &&& seg.size_bytes == seg.log@.len()
    &&& seg.log@.len() <= u32::MAX
    &&& ms.len() <= u32::MAX
    &&& seg.start_offset + ms.len() <= u64::MAX
    &&& seg.end_offset as int == if ms.len() == 0 {
        seg.start_offset as int
    } else {
        seg.start_offset + ms.len() - 1
    }
    &&& forall|i: int| 0 <= i < ms.len() ==> (#[trigger] ms[i]).offset == seg.start_offset + i
    &&& forall|i: int| 0 <= i < ms.len() ==> wf_message(#[trigger] ms[i])
    &&& seg.index@.len() == ms.len()
    &&& forall|i: int|
        0 <= i < ms.len() ==> (#[trigger] seg.index@[i]).relative_offset == i as u32
            && seg.index@[i].position == spec_log_bytes(ms.take(i)).len() as u32
    &&& seg.time_index@.len() == ms.len()
    &&& forall|i: int|
        0 <= i < ms.len() ==> (#[trigger] seg.time_index@[i]).relative_offset == i as u32
            && seg.time_index@[i].timestamp == ms[i].timestamp
}

impl Segment {
    /// A fresh, open, empty segment starting at `start_offset`.
    pub fn new(start_offset: u64) -> (seg: Segment)
        ensures
            wf_segment(&seg),
            seg.start_offset == start_offset,
            seg.end_offset == start_offset,
            seg.size_bytes == 0,
            !seg.is_closed,
            seg_msgs(&seg) == Seq::<MessageView>::empty(),
            seg.log@ == Seq::<u8>::empty(),
    {
        let seg = Segment {
            start_offset,
            end_offset: start_offset,
            size_bytes: 0,
            is_closed: false,
            log: Vec::new(),
            index: Vec::new(),
            time_index: Vec::new(),
        };
        proof {
            assert(spec_parse_frame(seg.log@) is None);
            assert(seg_msgs(&seg) =~= Seq::<MessageView>::empty());
        }
        seg
    }

    /// Appends one message's frame to the log and one record to each index.
    pub fn append(&mut self, m: &Message)
        requires
            wf_segment(old(self)),
            !old(self).is_closed,
            wf_message(m@),
            m@.offset == old(self).start_offset + seg_msgs(old(self)).len(),
            seg_msgs(old(self)).len() + 1 <= u32::MAX,
            old(self).log@.len() + spec_frame_len(m@) <= u32::MAX,
            old(self).start_offset + seg_msgs(old(self)).len() + 1 <= u64::MAX,
        ensures
            wf_segment(final(self)),
            seg_msgs(final(self)) == seg_msgs(old(self)).push(m@),
            final(self).start_offset == old(self).start_offset,
            final(self).is_closed == old(self).is_closed,
            final(self).end_offset == m@.offset,
            final(self).size_bytes == old(self).size_bytes + spec_frame_len(m@),
            final(self).log@ == old(self).log@ + spec_frame_bytes(m@),
    {
        let ghost ms = seg_msgs(old(self));
        proof {
            crate::message::lemma_recover_exact(old(self).log@);
            assert(spec_log_bytes(ms) =~= old(self).log@);
            crate::message::lemma_frame_round_trip(m@, Seq::empty());
        }
        let count = self.index.len();
        let position = self.log.len();
        m.encode_frame(&mut self.log);
        self.index.push(IndexEntry { relative_offset: count as u32, position: position as u32 });
        self.time_index.push(
            TimeIndexEntry { relative_offset: count as u32, timestamp: m.timestamp },
        );
        self.size_bytes = self.log.len() as u64;
        self.end_offset = m.offset;
        proof {
            let ms2 = ms.push(m@);
            crate::message::lemma_log_bytes_push(ms, m@);
            assert(self.log@ =~= spec_log_bytes(ms2));
            assert forall|i: int| 0 <= i < ms2.len() implies wf_message(#[trigger] ms2[i]) by {
                if i < ms.len() {
                    assert(ms2[i] == ms[i]);
                }
            }
            crate::message::lemma_recover_intact(ms2);
            assert(seg_msgs(self) == ms2);
            assert forall|i: int|
                0 <= i < ms2.len() implies (#[trigger] self.index@[i]).relative_offset == i as u32
                && self.index@[i].position == spec_log_bytes(ms2.take(i)).len() as u32 by {
                if i < ms.len() {
                    assert(ms2.take(i) =~= ms.take(i));
                    assert(self.index@[i] == old(self).index@[i]);
                } else {
                    assert(ms2.take(i) =~= ms);
                }
            }
            assert(wf_segment(self));
        }
    }

    /// Seals the segment; nothing else changes.
    pub fn close(&mut self)
        ensures
            *final(self) == (Segment { is_closed: true, ..*old(self) }),
    {
        self.is_closed = true;
    }

    /// The byte position in the log of the message with the given relative
    /// offset, from the offset index.
    pub fn position_of(&self, relative_offset: usize) -> (r: u32)
        requires
            wf_segment(self),
            relative_offset < seg_msgs(self).len(),
        ensures
            r == spec_log_bytes(seg_msgs(self).take(relative_offset as int)).len(),
    {
        proof {
            let ms = seg_msgs(self);
            crate::message::lemma_recover_exact(self.log@);
            crate::message::lemma_log_bytes_take_len_monotone(
                ms,
                relative_offset as int,
                ms.len() as int,
            );
            assert(ms.take(ms.len() as int) =~= ms);
        }
        self.index[relative_offset].position
    }
}

/// What recovery keeps from raw log bytes when offsets must continue
/// `next_offset`: the messages of every complete frame from the front whose
/// offset continues the sequence, and the byte length they occupy.
pub open spec fn spec_recover_valid(s: Seq<u8>, next_offset: u64) -> (Seq<MessageView>, int)
    decreases s.len(),
{
    match spec_parse_frame(s) {
        None => (Seq::empty(), 0),
        Some((m, n)) => if 0 < n <= s.len() && m.offset == next_offset && next_offset < u64::MAX {
            let (t, c) = spec_recover_valid(s.skip(n), (next_offset + 1) as u64);
            (seq![m] + t, n + c)
        } else {
            (Seq::empty(), 0)
        },
    }
}

/// What validated recovery keeps re-encodes to exactly the prefix it kept,
/// every message is well formed, offsets continue the sequence, and each
/// frame costs at least 45 bytes.
pub proof fn lemma_recover_valid_exact(s: Seq<u8>, next_offset: u64)
    ensures
        ({
            let (ms, c) = spec_recover_valid(s, next_offset);
            &&& 0 <= c <= s.len()
            &&& spec_log_bytes(ms) == s.subrange(0, c)
            &&& forall|i: int| 0 <= i < ms.len() ==> wf_message(#[trigger] ms[i])
            &&& forall|i: int|
                0 <= i < ms.len() ==> (#[trigger] ms[i]).offset == next_offset + i
            &&& next_offset + ms.len() <= u64::MAX
        }),
    decreases s.len(),
{
    let (ms, c) = spec_recover_valid(s, next_offset);
    match spec_parse_frame(s) {
        None => {
            assert(ms =~= Seq::<MessageView>::empty());
            assert(spec_log_bytes(ms) =~= s.subrange(0, 0));
        },
        Some((m, n)) => {
            if 0 < n <= s.len() && m.offset == next_offset && next_offset < u64::MAX {
                crate::message::lemma_parse_frame_exact(s);
                lemma_recover_valid_exact(s.skip(n), (next_offset + 1) as u64);
                let (t, c2) = spec_recover_valid(s.skip(n), (next_offset + 1) as u64);
                assert(ms =~= seq![m] + t);
                assert(ms[0] == m);
                assert(ms.skip(1) =~= t);
                assert(spec_log_bytes(ms) =~= s.subrange(0, c));
            } else {
                assert(ms =~= Seq::<MessageView>::empty());
                assert(spec_log_bytes(ms) =~= s.subrange(0, 0));
            }
        },
    }
}

/// On an intact log of well-formed messages whose offsets continue
/// `next_offset`, validated recovery keeps everything.
pub proof fn lemma_recover_valid_intact(ms: Seq<MessageView>, next_offset: u64)
    requires
        forall|i: int| 0 <= i < ms.len() ==> wf_message(#[trigger] ms[i]),
        forall|i: int| 0 <= i < ms.len() ==> (#[trigger] ms[i]).offset == next_offset + i,
        next_offset + ms.len() <= u64::MAX,
    ensures
        spec_recover_valid(spec_log_bytes(ms), next_offset) == (
            ms,
            spec_log_bytes(ms).len() as int,
        ),
    decreases ms.len(),
{
    if ms.len() == 0 {
        assert(spec_log_bytes(ms) =~= Seq::<u8>::empty());
        assert(spec_parse_frame(Seq::<u8>::empty()) is None);
        assert(spec_recover_valid(spec_log_bytes(ms), next_offset).0 =~= ms);
    } else {
        let m = ms[0];
        let t = ms.skip(1);
        let rest = spec_log_bytes(t);
        crate::message::lemma_frame_round_trip(m, rest);
        let s = spec_frame_bytes(m) + rest;
        let n = spec_frame_len(m);
        assert(s.skip(n) =~= rest);
        lemma_recover_valid_intact(t, (next_offset + 1) as u64);
        assert(seq![m] + t =~= ms);
        assert(s.len() == n + rest.len());
    }
}

impl Segment {
    /// Rebuilds a segment from the raw bytes of its log file. Complete
    /// frames whose offsets continue `start_offset` are kept; everything
    /// from the first torn or out-of-sequence frame on is dropped, so the
    /// kept log ends at the last complete frame. A log too large for index
    /// positions is refused as corrupted.
    pub fn recover(start_offset: u64, log: Vec<u8>) -> (r: Result<
        (Segment, Vec<Message>),
        IggyError,
    >)
        ensures
            r is Ok <==> log@.len() <= u32::MAX,
            r is Err ==> r == Result::<(Segment, Vec<Message>), IggyError>::Err(
                IggyError::Corrupted,
            ),
            r is Ok ==> {
                let (seg, out) = r->Ok_0;
                let (ms, c) = spec_recover_valid(log@, start_offset);
                &&& wf_segment(&seg)
                &&& seg.start_offset == start_offset
                &&& !seg.is_closed
                &&& seg_msgs(&seg) == ms
                &&& seg.log@ == log@.subrange(0, c)
                &&& out@.map_values(|m: Message| m@) == ms
            },
    {
        if log.len() > u32::MAX as usize {
            return Err(IggyError::Corrupted);
        }
        let mut log = log;
        let ghost all = log@;
        let mut index: Vec<IndexEntry> = Vec::new();
        let mut time_index: Vec<TimeIndexEntry> = Vec::new();
        let mut out: Vec<Message> = Vec::new();
        let mut pos: usize = 0;
        let mut count: usize = 0;
        let mut done = false;
        proof {
            assert(all.skip(0) =~= all);
            lemma_recover_valid_exact(all, start_offset);
            assert(out@.map_values(|m: Message| m@) =~= Seq::<MessageView>::empty());
        }
        while !done
            invariant
                pos <= all.len() <= u32::MAX,
                all == log@,
                count == index@.len(),
                count == time_index@.len(),
                out@.map_values(|m: Message| m@) == spec_recover_valid(all, start_offset).0.take(
                    count as int,
                ),
                count <= pos,
                start_offset + count <= u64::MAX,
                ({
                    let (ms, c) = spec_recover_valid(all, start_offset);
                    let (ms2, c2) = spec_recover_valid(
                        all.skip(pos as int),
                        (start_offset + count) as u64,
                    );
                    &&& ms == ms.take(count as int) + ms2
                    &&& c == pos + c2
                    &&& count <= ms.len()
                    &&& spec_log_bytes(ms.take(count as int)) == all.subrange(0, pos as int)
                    &&& (done ==> ms2 == Seq::<MessageView>::empty() && c2 == 0)
                    &&& forall|i: int|
                        0 <= i < count ==> (#[trigger] index@[i]).relative_offset == i as u32
                            && index@[i].position == spec_log_bytes(ms.take(i)).len() as u32
                    &&& forall|i: int|
                        0 <= i < count ==> (#[trigger] time_index@[i]).relative_offset == i as u32
                            && time_index@[i].timestamp == ms[i].timestamp
                }),
            decreases all.len() - pos, (if done {
                0int
            } else {
                1int
            }),
        {
            let ghost (ms, c) = spec_recover_valid(all, start_offset);
            let ghost rem = all.skip(pos as int);
            let next_off: u64 = start_offset + count as u64;
            proof {
                lemma_recover_valid_exact(rem, next_off);
            }
            let mut accept: Option<(Message, usize)> = None;
            match Message::parse_frame(log.as_slice(), pos) {
                Ok((m, next)) => {
                    if m.offset == next_off && next_off < u64::MAX {
                        accept = Some((m, next));
                    }
                },
                Err(_) => {},
            }
            match accept {
                Some((m, next)) => {
                    proof {
                        let (mv, n) = spec_parse_frame(rem)->Some_0;
                        let (t2, c2) = spec_recover_valid(rem.skip(n), (next_off + 1) as u64);
                        assert(spec_recover_valid(rem, next_off).0 =~= seq![mv] + t2);
                        assert(rem.skip(n) =~= all.skip(next as int));
                        assert(ms.take(count as int).push(mv) =~= ms.take(count + 1));
                        crate::message::lemma_log_bytes_push(ms.take(count as int), mv);
                        crate::message::lemma_parse_frame_exact(rem);
                        assert(spec_frame_bytes(mv) =~= rem.subrange(0, n));
                        assert(all.subrange(0, pos as int) + rem.subrange(0, n) =~= all.subrange(
                            0,
                            next as int,
                        ));
                        assert(spec_log_bytes(ms.take(count + 1)) =~= all.subrange(0, next as int));
                    }
                    proof {
                        let (mv, n) = spec_parse_frame(rem)->Some_0;
                        assert(out@.map_values(|x: Message| x@).push(mv) =~= out@.push(
                            m,
                        ).map_values(|x: Message| x@));
                    }
                    index.push(IndexEntry { relative_offset: count as u32, position: pos as u32 });
                    time_index.push(
                        TimeIndexEntry { relative_offset: count as u32, timestamp: m.timestamp },
                    );
                    out.push(m);
                    count = count + 1;
                    pos = next;
                },
                None => {
                    proof {
                        assert(spec_recover_valid(rem, next_off).0 =~= Seq::<MessageView>::empty());
                        assert(ms =~= ms.take(count as int));
                    }
                    done = true;
                },
            }
        }
        proof {
            let (ms, c) = spec_recover_valid(all, start_offset);
            assert(c == pos);
            assert(ms =~= ms.take(count as int));
            assert(ms.len() == count);
        }
        log.truncate(pos);
        proof {
            assert(log@ =~= all.subrange(0, pos as int));
        }
        let end_offset = if count == 0 {
            start_offset
        } else {
            start_offset + (count as u64 - 1)
        };
        let seg = Segment {
            start_offset,
            end_offset,
            size_bytes: pos as u64,
            is_closed: false,
            log,
            index,
            time_index,
        };
        proof {
            let (ms, c) = spec_recover_valid(all, start_offset);
            crate::message::lemma_recover_intact(ms);
            assert(seg_msgs(&seg) == ms);
            assert(wf_segment(&seg));
            assert(out@.map_values(|m: Message| m@) =~= ms);
        }
        Ok((seg, out))
    }
}

/// For every closed — or open — segment, the number of messages recovery
/// yields from its log equals `end_offset - start_offset + 1`.
pub proof fn lemma_segment_recovery_count(seg: &Segment)
    requires
        wf_segment(seg),
        seg_msgs(seg).len() > 0,
    ensures
        spec_recover_log(seg.log@).0.len() == seg.end_offset - seg.start_offset + 1,
{
}

} // verus!
