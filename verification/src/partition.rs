//! Partitions: the unit of ordering. A partition is an append-only sequence
//! of messages whose offsets are exactly 0, 1, …, `current_offset`, split
//! across segments; exactly one segment — the last — is writable. Appends
//! stamp offsets, timestamps and checksums; polls return a slice of the log;
//! consumer offsets are tracked per consumer and per group member.

use crate::error::IggyError;
use crate::message::{
    crc32, crc32_of, spec_frame_bytes, spec_frame_len, spec_log_bytes, wf_message, Message,
    MessageView,
};
use crate::offsets::{group_key, spec_group_key, OffsetTable};
use crate::segment::{seg_msgs, wf_segment, Segment};
use vstd::prelude::*;

verus! {

/// The largest frame any well-formed message can produce.
pub const MAX_FRAME_BYTES: u64 = 1114112;

/// The per-partition limits and thresholds, fixed at creation.
#[derive(Clone, Copy, Debug)]
pub struct PartitionConfig {
    /// A segment is sealed once its log reaches this size in bytes.
    pub size_bytes_threshold: u64,
    /// A segment is sealed once it holds this many messages.
    pub messages_count_threshold: u64,
    /// The partition refuses appends that would take its total size past
    /// this; 0 means unbounded.
    pub max_size_bytes: u64,
}

/// Thresholds the engine can maintain: at least one message and small enough
/// that a segment's byte size and count always fit its index fields.
pub open spec fn wf_config(c: PartitionConfig) -> bool {
    &&& 1 <= c.size_bytes_threshold <= u32::MAX - MAX_FRAME_BYTES
    &&& 1 <= c.messages_count_threshold <= u32::MAX - 1
}

impl PartitionConfig {
    /// A configuration with the given thresholds, each clamped into the
    /// range the engine can maintain.
    pub fn new(size_bytes_threshold: u64, messages_count_threshold: u64, max_size_bytes: u64) -> (r:
        PartitionConfig)
        ensures
            wf_config(r),
            r.size_bytes_threshold == if size_bytes_threshold == 0 {
                1u64
            } else if size_bytes_threshold > u32::MAX - MAX_FRAME_BYTES {
                (u32::MAX - MAX_FRAME_BYTES) as u64
            } else {
                size_bytes_threshold
            },
            r.messages_count_threshold == if messages_count_threshold == 0 {
                1u64
            } else if messages_count_threshold > u32::MAX - 1 {
                (u32::MAX - 1) as u64
            } else {
                messages_count_threshold
            },
            r.max_size_bytes == max_size_bytes,
    {
        let size_cap: u64 = u32::MAX as u64 - MAX_FRAME_BYTES;
        let count_cap: u64 = u32::MAX as u64 - 1;
        PartitionConfig {
            size_bytes_threshold: if size_bytes_threshold == 0 {
                1
            } else if size_bytes_threshold > size_cap {
                size_cap
            } else {
                size_bytes_threshold
            },
            messages_count_threshold: if messages_count_threshold == 0 {
                1
            } else if messages_count_threshold > count_cap {
                count_cap
            } else {
                messages_count_threshold
            },
            max_size_bytes,
        }
    }
}

impl Default for PartitionConfig {
    /// One-gibibyte segments, ten million messages each, unbounded total.
    fn default() -> (r: Self)
        ensures
            wf_config(r),
            r.size_bytes_threshold == 1073741824u64,
            r.messages_count_threshold == 10000000u64,
            r.max_size_bytes == 0u64,
    {
        PartitionConfig {
            size_bytes_threshold: 1073741824,
            messages_count_threshold: 10000000,
            max_size_bytes: 0,
        }
    }
}

/// A consumer identity: a plain consumer, or a member of a consumer group.
#[derive(Clone, Copy, Debug, PartialEq, Eq, Structural)]
pub enum Consumer {
    Single(u32),
    GroupMember(u32, u32),
}

/// The offset-table key of a consumer identity.
pub open spec fn spec_consumer_key(c: Consumer) -> u64 {
    match c {
        Consumer::Single(id) => id as u64,
        Consumer::GroupMember(group_id, member_id) => spec_group_key(group_id, member_id),
    }
}

/// How a poll chooses its first offset.
#[derive(Clone, Copy, Debug, PartialEq, Eq, Structural)]
pub enum PollStrategy {
    /// Start at the given offset.
    Offset(u64),
    /// Start at offset 0.
    First,
    /// Return the last up-to-`count` messages.
    Last,
    /// Resume after the consumer's stored offset, or at 0 if none is stored.
    Next,
    /// Start at the first message whose timestamp is at least the given one.
    Timestamp(u64),
}

/// One partition of a topic.
#[derive(Debug)]
pub struct Partition {
    pub id: u32,
    pub stream_id: u32,
    pub topic_id: u32,
    pub created_at: u64,
    pub current_offset: u64,
    pub messages_count: u64,
    pub size_bytes: u64,
    pub messages: Vec<Message>,
    pub segments: Vec<Segment>,
    pub consumer_offsets: OffsetTable,
    pub group_offsets: OffsetTable,
    pub config: PartitionConfig,
}

/// The messages of a partition, in offset order.
pub open spec fn part_views(p: &Partition) -> Seq<MessageView> {
    p.messages@.map_values(|m: Message| m@)
}

/// A well-formed partition. Offsets are contiguous from 0; the segments
/// partition the message sequence in order; every segment but the last is
/// sealed; the writable segment is below both rollover thresholds; stored
/// consumer offsets never pass `current_offset`.
pub open spec fn wf_partition(p: &Partition) -> bool {
    let ms = part_views(p);
    let n = p.segments@.len() as int;
    &&& wf_config(p.config)
    &&& p.messages_count == ms.len()
    &&& p.current_offset as int == if ms.len() == 0 {
        0int
    } else {
        ms.len() - 1
    }
    &&& p.size_bytes == spec_log_bytes(ms).len()
    &&& forall|k: int| 0 <= k < ms.len() ==> (#[trigger] ms[k]).offset == k
    &&& forall|k: int| 0 <= k < ms.len() ==> wf_message(#[trigger] ms[k])
    &&& n >= 1
    &&& forall|i: int| 0 <= i < n ==> wf_segment(#[trigger] &p.segments@[i])
    &&& forall|i: int| 0 <= i < n - 1 ==> (#[trigger] p.segments@[i]).is_closed
    &&& !p.segments@[n - 1].is_closed
    &&& p.segments@[0].start_offset == 0
    &&& forall|i: int|
        0 <= i < n ==> seg_msgs(#[trigger] &p.segments@[i]) == ms.subrange(
            p.segments@[i].start_offset as int,
            p.segments@[i].start_offset + seg_msgs(&p.segments@[i]).len(),
        )
    &&& forall|i: int|
        0 <= i < n ==> (#[trigger] p.segments@[i]).start_offset + seg_msgs(&p.segments@[i]).len()
            <= ms.len()
    &&& forall|i: int|
        0 <= i < n - 1 ==> (#[trigger] p.segments@[i + 1]).start_offset == p.segments@[
            i
        ].start_offset + seg_msgs(&p.segments@[i]).len()
    &&& p.segments@[n - 1].start_offset + seg_msgs(&p.segments@[n - 1]).len() == ms.len()
    &&& p.segments@[n - 1].size_bytes < p.config.size_bytes_threshold
    &&& seg_msgs(&p.segments@[n - 1]).len() < p.config.messages_count_threshold
    &&& p.consumer_offsets.wf()
    &&& p.group_offsets.wf()
    &&& forall|k: u64|
        p.consumer_offsets@.contains_key(k) ==> #[trigger] p.consumer_offsets@[k] < ms.len()
    &&& forall|k: u64| p.group_offsets@.contains_key(k) ==> #[trigger] p.group_offsets@[k] < ms.len()
}

/// The message `v` as the partition stamps it at append: the assigned
/// offset, the append timestamp, and the payload's checksum.
pub open spec fn stamped_msg(v: MessageView, offset: u64, now: u64) -> MessageView {
    MessageView {
        offset,
        timestamp: now,
        id: v.id,
        checksum: crc32_of(v.payload),
        headers: v.headers,
        payload: v.payload,
    }
}

/// A batch as the partition stamps it, offsets continuing from `base`.
pub open spec fn spec_stamped_batch(views: Seq<MessageView>, base: int, now: u64) -> Seq<
    MessageView,
> {
    Seq::new(views.len(), |i: int| stamped_msg(views[i], (base + i) as u64, now))
}

/// Whether every message of the batch is well formed.
pub open spec fn spec_batch_wf(views: Seq<MessageView>) -> bool {
    forall|i: int| 0 <= i < views.len() ==> wf_message(#[trigger] views[i])
}

/// Whether the partition has room for the stamped batch: offsets and the
/// total size stay within 64 bits, and within the configured cap if one is
/// set.
pub open spec fn spec_batch_fits(p: &Partition, views: Seq<MessageView>, now: u64) -> bool {
    let base = part_views(p).len() as int;
    let added = spec_stamped_batch(views, base, now);
    &&& base + views.len() <= u64::MAX
    &&& p.size_bytes + spec_log_bytes(added).len() <= u64::MAX
    &&& (p.config.max_size_bytes > 0 ==> p.size_bytes + spec_log_bytes(added).len()
        <= p.config.max_size_bytes)
}

/// What appending a batch does: success exactly when the batch is well
/// formed and fits, the messages extended by the stamped batch on success,
/// the exact error and an untouched partition otherwise.
pub open spec fn spec_append_effect(
    p0: &Partition,
    p1: &Partition,
    views: Seq<MessageView>,
    now: u64,
    r: Result<(), IggyError>,
) -> bool {
    let base = part_views(p0).len() as int;
    let added = spec_stamped_batch(views, base, now);
    &&& (r is Ok <==> spec_batch_wf(views) && spec_batch_fits(p0, views, now))
    &&& (r is Ok ==> part_views(p1) == part_views(p0) + added)
    &&& (r is Ok ==> p1.size_bytes == p0.size_bytes + spec_log_bytes(added).len())
    &&& (!spec_batch_wf(views) ==> r == Result::<(), IggyError>::Err(IggyError::TooLargePayload))
    &&& (spec_batch_wf(views) && !spec_batch_fits(p0, views, now) ==> r == Result::<
        (),
        IggyError,
    >::Err(IggyError::PartitionFull))
    &&& (r is Err ==> *p1 == *p0)
    &&& p1.consumer_offsets@ == p0.consumer_offsets@
    &&& p1.group_offsets@ == p0.group_offsets@
    &&& p1.id == p0.id
    &&& p1.stream_id == p0.stream_id
    &&& p1.topic_id == p0.topic_id
    &&& p1.created_at == p0.created_at
    &&& p1.config == p0.config
}

/// The slice a poll returns: up to `count` messages from where the strategy
/// starts, nothing when the start lies past the end.
pub open spec fn spec_poll_slice(
    p: &Partition,
    consumer: Consumer,
    strategy: PollStrategy,
    count: u32,
) -> Seq<MessageView> {
    let ms = part_views(p);
    let start = p.spec_poll_start(consumer, strategy, count);
    let end = if start + count <= ms.len() {
        start + count
    } else {
        ms.len() as int
    };
    if start < ms.len() {
        ms.subrange(start, end)
    } else {
        Seq::empty()
    }
}

/// What a poll does to the partition: messages and counters untouched, and
/// the consumer's table extended by exactly the last returned offset when
/// auto-commit returned anything, untouched otherwise.
pub open spec fn spec_poll_effect(
    p0: &Partition,
    p1: &Partition,
    consumer: Consumer,
    strategy: PollStrategy,
    count: u32,
    auto_commit: bool,
) -> bool {
    let out = spec_poll_slice(p0, consumer, strategy, count);
    let start = p0.spec_poll_start(consumer, strategy, count);
    let key = spec_consumer_key(consumer);
    &&& p1.messages@ == p0.messages@
    &&& p1.segments@ == p0.segments@
    &&& p1.size_bytes == p0.size_bytes
    &&& p1.messages_count == p0.messages_count
    &&& p1.current_offset == p0.current_offset
    &&& p1.id == p0.id
    &&& p1.stream_id == p0.stream_id
    &&& p1.topic_id == p0.topic_id
    &&& p1.created_at == p0.created_at
    &&& p1.config == p0.config
    &&& (auto_commit && out.len() > 0 ==> {
        let last = (start + out.len() - 1) as u64;
        match consumer {
            Consumer::Single(_) => p1.consumer_offsets@ == p0.consumer_offsets@.insert(key, last)
                && p1.group_offsets@ == p0.group_offsets@,
            Consumer::GroupMember(_, _) => p1.group_offsets@ == p0.group_offsets@.insert(key, last)
                && p1.consumer_offsets@ == p0.consumer_offsets@,
        }
    })
    &&& (!(auto_commit && out.len() > 0) ==> p1.consumer_offsets@ == p0.consumer_offsets@
        && p1.group_offsets@ == p0.group_offsets@)
}

/// What storing a consumer offset does: accepted exactly for offsets the
/// partition holds, the one table entry replaced, everything else untouched.
pub open spec fn spec_store_offset_effect(
    p0: &Partition,
    p1: &Partition,
    consumer: Consumer,
    offset: u64,
    r: Result<(), IggyError>,
) -> bool {
    let key = spec_consumer_key(consumer);
    &&& (r is Ok <==> offset < part_views(p0).len())
    &&& (r is Err ==> r == Result::<(), IggyError>::Err(IggyError::OffsetOutOfRange) && *p1 == *p0)
    &&& p1.messages@ == p0.messages@
    &&& p1.segments@ == p0.segments@
    &&& p1.size_bytes == p0.size_bytes
    &&& p1.messages_count == p0.messages_count
    &&& p1.current_offset == p0.current_offset
    &&& p1.id == p0.id
    &&& p1.stream_id == p0.stream_id
    &&& p1.topic_id == p0.topic_id
    &&& p1.created_at == p0.created_at
    &&& p1.config == p0.config
    &&& (r is Ok ==> match consumer {
        Consumer::Single(_) => p1.consumer_offsets@ == p0.consumer_offsets@.insert(key, offset)
            && p1.group_offsets@ == p0.group_offsets@,
        Consumer::GroupMember(_, _) => p1.group_offsets@ == p0.group_offsets@.insert(key, offset)
            && p1.consumer_offsets@ == p0.consumer_offsets@,
    })
}

impl Partition {
    /// A fresh, empty partition with one open segment starting at offset 0.
    pub fn new(id: u32, stream_id: u32, topic_id: u32, config: PartitionConfig, created_at: u64)
        -> (p: Partition)
        requires
            wf_config(config),
        ensures
            wf_partition(&p),
            p.id == id,
            p.stream_id == stream_id,
            p.topic_id == topic_id,
            p.created_at == created_at,
            p.config == config,
            part_views(&p) == Seq::<MessageView>::empty(),
            p.messages_count == 0,
            p.current_offset == 0,
            p.size_bytes == 0,
            p.segments@.len() == 1,
            p.consumer_offsets@ == Map::<u64, u64>::empty(),
            p.group_offsets@ == Map::<u64, u64>::empty(),
    {
        let mut segments: Vec<Segment> = Vec::new();
        segments.push(Segment::new(0));
        let p = Partition {
            id,
            stream_id,
            topic_id,
            created_at,
            current_offset: 0,
            messages_count: 0,
            size_bytes: 0,
            messages: Vec::new(),
            segments,
            consumer_offsets: OffsetTable::new(),
            group_offsets: OffsetTable::new(),
            config,
        };
        proof {
            assert(part_views(&p) =~= Seq::<MessageView>::empty());
            assert(spec_log_bytes(part_views(&p)) =~= Seq::<u8>::empty());
            assert(seg_msgs(&p.segments@[0]) =~= part_views(&p).subrange(0, 0));
        }
        p
    }

    /// Appends one already-stamped message: it lands in the writable
    /// segment, which is then sealed — and a fresh one opened — exactly if
    /// it has reached a rollover threshold.
    fn append_one(&mut self, m: Message)
        requires
            wf_partition(old(self)),
            wf_message(m@),
            m@.offset == part_views(old(self)).len(),
            part_views(old(self)).len() + 1 <= u64::MAX,
            old(self).size_bytes + spec_frame_len(m@) <= u64::MAX,
        ensures
            wf_partition(final(self)),
            part_views(final(self)) == part_views(old(self)).push(m@),
            final(self).size_bytes == old(self).size_bytes + spec_frame_len(m@),
            final(self).messages_count == old(self).messages_count + 1,
            final(self).current_offset == m@.offset,
            final(self).id == old(self).id,
            final(self).stream_id == old(self).stream_id,
            final(self).topic_id == old(self).topic_id,
            final(self).created_at == old(self).created_at,
            final(self).config == old(self).config,
            final(self).consumer_offsets@ == old(self).consumer_offsets@,
            final(self).group_offsets@ == old(self).group_offsets@,
            final(self).segments@.len() >= old(self).segments@.len(),
            forall|j: int|
                0 <= j < old(self).segments@.len() - 1 ==> #[trigger] final(self).segments@[j]
                    == old(self).segments@[j],
            forall|j: int|
                old(self).segments@.len() - 1 <= j < final(self).segments@.len() - 1 ==> (
                #[trigger] final(self).segments@[j]).size_bytes
                    >= old(self).config.size_bytes_threshold || seg_msgs(
                    &final(self).segments@[j],
                ).len() >= old(self).config.messages_count_threshold,
    {
        let ghost ms = part_views(old(self));
        let ghost mv = m@;
        let ghost n0 = old(self).segments@.len() as int;
        let mut seg = self.segments.pop().unwrap();
        let ghost segms = seg_msgs(&seg);
        proof {
            assert(seg == old(self).segments@[n0 - 1]);
            assert(wf_segment(&seg));
            assert(segms == ms.subrange(seg.start_offset as int, seg.start_offset + segms.len()));
            assert(seg.start_offset + segms.len() == ms.len());
            assert(segms.len() < old(self).config.messages_count_threshold);
            assert(seg.size_bytes < old(self).config.size_bytes_threshold);
            assert(spec_frame_len(mv) <= MAX_FRAME_BYTES);
            assert(mv.offset == seg.start_offset + segms.len());
        }
        let prev_size = seg.size_bytes;
        seg.append(&m);
        let frame_len = seg.size_bytes - prev_size;
        self.size_bytes = self.size_bytes + frame_len;
        self.messages.push(m);
        self.messages_count = self.messages_count + 1;
        self.current_offset = self.messages_count - 1;
        proof {
            assert(part_views(self) =~= ms.push(mv));
            crate::message::lemma_log_bytes_push(ms, mv);
            assert(spec_log_bytes(ms.push(mv)) == spec_log_bytes(ms) + spec_frame_bytes(mv));
            crate::message::lemma_frame_round_trip(mv, Seq::empty());
        }
        let seg_count = seg.index.len();
        let rolled = seg.size_bytes >= self.config.size_bytes_threshold || seg_count as u64
            >= self.config.messages_count_threshold;
        let next_start = self.messages_count;
        if rolled {
            seg.close();
            self.segments.push(seg);
            self.segments.push(Segment::new(next_start));
        } else {
            self.segments.push(seg);
        }
        proof {
            let ms2 = ms.push(mv);
            let n2 = self.segments@.len() as int;
            assert forall|k: int| 0 <= k < ms2.len() implies (#[trigger] ms2[k]).offset == k
                && wf_message(ms2[k]) by {
                if k < ms.len() {
                    assert(ms2[k] == ms[k]);
                }
            }
            assert forall|i: int|
                0 <= i < n2 implies wf_segment(&(#[trigger] self.segments@[i])) && seg_msgs(
                &self.segments@[i],
            ) == ms2.subrange(
                self.segments@[i].start_offset as int,
                self.segments@[i].start_offset + seg_msgs(&self.segments@[i]).len(),
            ) by {
                if i < n0 - 1 {
                    assert(self.segments@[i] == old(self).segments@[i]);
                    let a = self.segments@[i].start_offset as int;
                    let b = a + seg_msgs(&self.segments@[i]).len();
                    assert(seg_msgs(&self.segments@[i]) == ms.subrange(a, b));
                    assert(b <= ms.len());
                    assert(ms2.subrange(a, b) =~= ms.subrange(a, b));
                } else if i == n0 - 1 {
                    let a = seg.start_offset as int;
                    assert(seg_msgs(&seg) =~= segms.push(mv));
                    assert(ms2.subrange(a, a + segms.len() + 1) =~= ms.subrange(
                        a,
                        a + segms.len(),
                    ).push(mv));
                } else {
                    assert(seg_msgs(&self.segments@[i]) =~= Seq::<MessageView>::empty());
                    assert(ms2.subrange(ms2.len() as int, ms2.len() as int)
                        =~= Seq::<MessageView>::empty());
                }
            }
            assert(wf_partition(self));
        }
    }

    /// Stamps and appends a batch of messages: each gets the next offset,
    /// the timestamp `now`, and its payload's CRC-32. The whole batch is
    /// validated first: nothing is appended unless every message is well
    /// formed and the partition has room, so a refused append leaves the
    /// partition unchanged.
    #[verifier::loop_isolation(false)]
    pub fn append(&mut self, batch: Vec<Message>, now: u64) -> (r: Result<(), IggyError>)
        requires
            wf_partition(old(self)),
        ensures
            wf_partition(final(self)),
            final(self).id == old(self).id,
            final(self).stream_id == old(self).stream_id,
            final(self).topic_id == old(self).topic_id,
            final(self).created_at == old(self).created_at,
            final(self).config == old(self).config,
            final(self).consumer_offsets@ == old(self).consumer_offsets@,
            final(self).group_offsets@ == old(self).group_offsets@,
            spec_append_effect(
                old(self),
                final(self),
                batch@.map_values(|m: Message| m@),
                now,
                r,
            ),
    {
        let ghost views = batch@.map_values(|m: Message| m@);
        let ghost base = part_views(old(self)).len() as int;
        let ghost added = spec_stamped_batch(views, base, now);
        // validate every message, then total the frame bytes
        let mut flens: Vec<u64> = Vec::new();
        let mut i: usize = 0;
        while i < batch.len()
            invariant
                0 <= i <= batch@.len(),
                flens@.len() == i,
                forall|k: int| 0 <= k < i ==> wf_message(#[trigger] views[k]),
                forall|k: int| 0 <= k < i ==> (#[trigger] flens@[k]) as int == spec_frame_len(
                    views[k],
                ),
            decreases batch@.len() - i,
        {
            let flen = match batch[i].frame_len_checked() {
                Some(f) => f,
                None => {
                    proof {
                        assert(views[i as int] == batch@[i as int]@);
                    }
                    return Err(IggyError::TooLargePayload);
                },
            };
            proof {
                assert(views[i as int] == batch@[i as int]@);
            }
            flens.push(flen);
            i = i + 1;
        }
        let mut total: u64 = 0;
        let mut i: usize = 0;
        proof {
            assert(added.take(0) =~= Seq::<MessageView>::empty());
            assert(spec_log_bytes(Seq::<MessageView>::empty()) == Seq::<u8>::empty());
        }
        while i < flens.len()
            invariant
                0 <= i <= flens@.len(),
                flens@.len() == views.len(),
                forall|k: int| 0 <= k < views.len() ==> wf_message(#[trigger] views[k]),
                forall|k: int| 0 <= k < views.len() ==> (#[trigger] flens@[k]) as int
                    == spec_frame_len(views[k]),
                total == spec_log_bytes(added.take(i as int)).len(),
            decreases flens@.len() - i,
        {
            let flen = flens[i];
            proof {
                assert(wf_message(views[i as int]));
                assert(wf_message(added[i as int]));
                assert(spec_frame_len(added[i as int]) == spec_frame_len(views[i as int]));
                crate::message::lemma_frame_round_trip(added[i as int], Seq::empty());
                crate::message::lemma_log_bytes_push(added.take(i as int), added[i as int]);
                assert(added.take(i as int).push(added[i as int]) =~= added.take(i + 1));
                crate::message::lemma_log_bytes_take_len_monotone(added, i + 1, views.len() as int);
                assert(added.take(views.len() as int) =~= added);
            }
            if total > u64::MAX - flen {
                return Err(IggyError::PartitionFull);
            }
            total = total + flen;
            i = i + 1;
        }
        proof {
            assert(added.take(views.len() as int) =~= added);
        }
        // capacity checks
        if (batch.len() as u64) > u64::MAX - self.messages_count {
            return Err(IggyError::PartitionFull);
        }
        if total > u64::MAX - self.size_bytes {
            return Err(IggyError::PartitionFull);
        }
        if self.config.max_size_bytes > 0 && self.size_bytes + total > self.config.max_size_bytes {
            return Err(IggyError::PartitionFull);
        }
        // append, stamping each message
        let ghost n_before = self.segments@.len() as int;
        let mut batch = batch;
        let mut j: usize = 0;
        while j < batch.len()
            invariant
                0 <= j <= batch@.len(),
                batch@.len() == views.len(),
                forall|k: int| j <= k < views.len() ==> #[trigger] batch@[k]@ == views[k],
                forall|k: int| 0 <= k < views.len() ==> wf_message(#[trigger] views[k]),
                added == Seq::new(
                    views.len(),
                    |k: int| stamped_msg(views[k], (base + k) as u64, now),
                ),
                wf_partition(self),
                part_views(self) == part_views(old(self)) + added.take(j as int),
                self.size_bytes == old(self).size_bytes + spec_log_bytes(added.take(j as int)).len(),
                old(self).size_bytes + spec_log_bytes(added).len() <= u64::MAX,
                base + views.len() <= u64::MAX,
                self.messages_count == base + j,
                self.id == old(self).id,
                self.stream_id == old(self).stream_id,
                self.topic_id == old(self).topic_id,
                self.created_at == old(self).created_at,
                self.config == old(self).config,
                self.consumer_offsets@ == old(self).consumer_offsets@,
                self.group_offsets@ == old(self).group_offsets@,
            decreases batch@.len() - j,
        {
            let mut m = batch[j].clone();
            m.offset = self.messages_count;
            m.timestamp = now;
            m.checksum = crc32(m.payload.as_slice());
            proof {
                assert(batch@[j as int]@ == views[j as int]);
                assert(m@ =~= added[j as int]);
                assert(wf_message(views[j as int]));
                assert(wf_message(added[j as int]));
                assert(wf_message(m@));
                crate::message::lemma_frame_round_trip(added[j as int], Seq::empty());
                crate::message::lemma_log_bytes_push(added.take(j as int), added[j as int]);
                assert(added.take(j as int).push(added[j as int]) =~= added.take(j + 1));
                crate::message::lemma_log_bytes_take_len_monotone(added, j + 1, views.len() as int);
                assert(added.take(views.len() as int) =~= added);
                assert(part_views(self).len() == base + j);
            }
            self.append_one(m);
            proof {
                assert(part_views(self) =~= part_views(old(self)) + added.take(j + 1));
            }
            j = j + 1;
        }
        proof {
            assert(added.take(views.len() as int) =~= added);
            assert(part_views(self) =~= part_views(old(self)) + added);
        }
        Ok(())
    }

    /// The offset stored for a consumer identity, if any.
    pub open spec fn spec_stored_offset(&self, c: Consumer) -> Option<u64> {
        let key = spec_consumer_key(c);
        match c {
            Consumer::Single(_) => if self.consumer_offsets@.contains_key(key) {
                Some(self.consumer_offsets@[key])
            } else {
                None
            },
            Consumer::GroupMember(_, _) => if self.group_offsets@.contains_key(key) {
                Some(self.group_offsets@[key])
            } else {
                None
            },
        }
    }

    /// Where a poll starts reading.
    pub open spec fn spec_poll_start(&self, c: Consumer, strategy: PollStrategy, count: u32) -> int {
        let len = part_views(self).len() as int;
        match strategy {
            PollStrategy::Offset(o) => o as int,
            PollStrategy::First => 0int,
            PollStrategy::Last => if count as int >= len {
                0int
            } else {
                len - count as int
            },
            PollStrategy::Next => match self.spec_stored_offset(c) {
                Some(s) => s as int + 1,
                None => 0int,
            },
            PollStrategy::Timestamp(t) => spec_first_at_ts(part_views(self), t),
        }
    }

    /// Returns up to `count` messages from the offset the strategy resolves
    /// to; a start past the end returns nothing, never an error. With
    /// `auto_commit`, the offset of the last returned message is stored for
    /// the consumer before returning.
    #[verifier::loop_isolation(false)]
    pub fn poll(&mut self, consumer: Consumer, strategy: PollStrategy, count: u32, auto_commit:
        bool) -> (r: Vec<Message>)
        requires
            wf_partition(old(self)),
        ensures
            wf_partition(final(self)),
            r@.map_values(|m: Message| m@) == spec_poll_slice(old(self), consumer, strategy, count),
            spec_poll_effect(old(self), final(self), consumer, strategy, count, auto_commit),
    {
        let ghost ms = part_views(old(self));
        let len: u64 = self.messages_count;
        let start: u64 = match strategy {
            PollStrategy::Offset(o) => o,
            PollStrategy::First => 0,
            PollStrategy::Last => if count as u64 >= len {
                0
            } else {
                len - count as u64
            },
            PollStrategy::Next => {
                let stored = match consumer {
                    Consumer::Single(id) => self.consumer_offsets.get(id as u64),
                    Consumer::GroupMember(g, m) => self.group_offsets.get(group_key(g, m)),
                };
                match stored {
                    Some(s) => s + 1,
                    None => 0,
                }
            },
            PollStrategy::Timestamp(t) => self.first_at_timestamp(t),
        };
        proof {
            assert(start as int == old(self).spec_poll_start(consumer, strategy, count));
        }
        let mut r: Vec<Message> = Vec::new();
        if start >= len {
            proof {
                assert(r@.map_values(|m: Message| m@) =~= Seq::<MessageView>::empty());
            }
            return r;
        }
        let remaining = len - start;
        let take: u64 = if count as u64 <= remaining {
            count as u64
        } else {
            remaining
        };
        let mlen: usize = self.messages.len();
        let mut k: u64 = 0;
        while k < take
            invariant
                wf_partition(self),
                self == old(self),
                ms == part_views(self),
                0 <= start < ms.len(),
                start + take <= ms.len(),
                0 <= k <= take,
                r@.map_values(|m: Message| m@) == ms.subrange(start as int, start + k),
            decreases take - k,
        {
            let m = self.messages[(start + k) as usize].clone();
            proof {
                assert(ms[(start + k) as int] == self.messages@[(start + k) as int]@);
                assert(r@.map_values(|x: Message| x@).push(m@) =~= r@.push(m).map_values(
                    |x: Message| x@,
                ));
                assert(ms.subrange(start as int, start + k).push(ms[(start + k) as int])
                    =~= ms.subrange(start as int, start + k + 1));
            }
            r.push(m);
            k = k + 1;
        }
        if auto_commit && take > 0 {
            let last = start + take - 1;
            match consumer {
                Consumer::Single(id) => self.consumer_offsets.set(id as u64, last),
                Consumer::GroupMember(g, m) => self.group_offsets.set(group_key(g, m), last),
            }
        }
        r
    }

    /// The index of the first message whose timestamp is at least `t`, or
    /// the message count if there is none.
    #[verifier::loop_isolation(false)]
    fn first_at_timestamp(&self, t: u64) -> (r: u64)
        requires
            wf_partition(self),
        ensures
            r as int == spec_first_at_ts(part_views(self), t),
    {
        let ghost ms = part_views(self);
        let mut j: usize = 0;
        proof {
            assert(ms.skip(0) =~= ms);
        }
        while j < self.messages.len() && self.messages[j].timestamp < t
            invariant
                wf_partition(self),
                ms == part_views(self),
                0 <= j <= ms.len(),
                spec_first_at_ts(ms, t) == j + spec_first_at_ts(ms.skip(j as int), t),
            decreases ms.len() - j,
        {
            proof {
                assert(ms[j as int] == self.messages@[j as int]@);
                lemma_first_at_ts_step(ms, t, j as int);
            }
            j = j + 1;
        }
        proof {
            if j < ms.len() {
                assert(ms[j as int] == self.messages@[j as int]@);
                assert(ms.skip(j as int)[0] == ms[j as int]);
            } else {
                assert(ms.skip(j as int) =~= Seq::<MessageView>::empty());
            }
        }
        j as u64
    }

    /// Stores an acknowledged offset for a consumer identity. Any offset the
    /// partition holds is accepted — rewinding is allowed — and anything
    /// past `current_offset` is refused.
    pub fn store_consumer_offset(&mut self, consumer: Consumer, offset: u64) -> (r: Result<
        (),
        IggyError,
    >)
        requires
            wf_partition(old(self)),
        ensures
            wf_partition(final(self)),
            spec_store_offset_effect(old(self), final(self), consumer, offset, r),
    {
        if self.messages_count == 0 || offset > self.current_offset {
            return Err(IggyError::OffsetOutOfRange);
        }
        match consumer {
            Consumer::Single(id) => self.consumer_offsets.set(id as u64, offset),
            Consumer::GroupMember(g, m) => self.group_offsets.set(group_key(g, m), offset),
        }
        Ok(())
    }

    /// Deletes every message and segment and every stored consumer offset,
    /// leaving one fresh segment at offset 0.
    pub fn purge(&mut self)
        requires
            wf_partition(old(self)),
        ensures
            wf_partition(final(self)),
            part_views(final(self)) == Seq::<MessageView>::empty(),
            final(self).messages_count == 0,
            final(self).current_offset == 0,
            final(self).size_bytes == 0,
            final(self).segments@.len() == 1,
            final(self).consumer_offsets@ == Map::<u64, u64>::empty(),
            final(self).group_offsets@ == Map::<u64, u64>::empty(),
            final(self).id == old(self).id,
            final(self).stream_id == old(self).stream_id,
            final(self).topic_id == old(self).topic_id,
            final(self).created_at == old(self).created_at,
            final(self).config == old(self).config,
    {
        self.messages = Vec::new();
        self.segments = Vec::new();
        self.segments.push(Segment::new(0));
        self.messages_count = 0;
        self.current_offset = 0;
        self.size_bytes = 0;
        self.consumer_offsets.clear();
        self.group_offsets.clear();
        proof {
            assert(part_views(self) =~= Seq::<MessageView>::empty());
            assert(spec_log_bytes(part_views(self)) =~= Seq::<u8>::empty());
            assert(seg_msgs(&self.segments@[0]) =~= part_views(self).subrange(0, 0));
        }
    }
}

impl Partition {
    /// Rebuilds a partition from raw log bytes: the partition's segment
    /// logs concatenated oldest-first (frame offsets are contiguous across
    /// segment boundaries, so the concatenation is itself a valid log).
    /// Complete frames whose offsets continue from 0 are kept; everything
    /// from the first torn or out-of-sequence frame on is dropped, so the
    /// kept log ends at the last complete frame. Segment boundaries are laid
    /// out afresh: the recovered messages form one segment, sealed at once
    /// if it already stands at a rollover threshold. Consumer offsets are
    /// not part of the log: the tables come back empty.
    pub fn recover(
        id: u32,
        stream_id: u32,
        topic_id: u32,
        config: PartitionConfig,
        created_at: u64,
        log: Vec<u8>,
    ) -> (r: Result<Partition, IggyError>)
        requires
            wf_config(config),
        ensures
            r is Ok <==> log@.len() <= u32::MAX,
            r is Err ==> r == Result::<Partition, IggyError>::Err(IggyError::Corrupted),
            r is Ok ==> {
                let p = r->Ok_0;
                let (ms, c) = crate::segment::spec_recover_valid(log@, 0);
                &&& wf_partition(&p)
                &&& part_views(&p) == ms
                &&& p.messages_count == ms.len()
                &&& p.size_bytes == c
                &&& p.id == id
                &&& p.stream_id == stream_id
                &&& p.topic_id == topic_id
                &&& p.created_at == created_at
                &&& p.config == config
                &&& p.consumer_offsets@ == Map::<u64, u64>::empty()
                &&& p.group_offsets@ == Map::<u64, u64>::empty()
            },
    {
        let ghost (ms, c) = crate::segment::spec_recover_valid(log@, 0);
        proof {
            crate::segment::lemma_recover_valid_exact(log@, 0);
        }
        let (seg, out) = match Segment::recover(0, log) {
            Ok(pair) => pair,
            Err(e) => {
                return Err(e);
            },
        };
        let count = out.len();
        let size = seg.size_bytes;
        let ghost cur = out@.map_values(|m: Message| m@);
        proof {
            assert(cur == ms);
            crate::message::lemma_recover_exact(seg.log@);
            assert(spec_log_bytes(cur) == seg.log@);
        }
        let mut segments: Vec<Segment> = Vec::new();
        let rolled = seg.size_bytes >= config.size_bytes_threshold || seg.index.len() as u64
            >= config.messages_count_threshold;
        if rolled {
            let mut seg = seg;
            seg.close();
            segments.push(seg);
            segments.push(Segment::new(count as u64));
        } else {
            segments.push(seg);
        }
        let p = Partition {
            id,
            stream_id,
            topic_id,
            created_at,
            current_offset: if count == 0 {
                0
            } else {
                count as u64 - 1
            },
            messages_count: count as u64,
            size_bytes: size,
            messages: out,
            segments,
            consumer_offsets: OffsetTable::new(),
            group_offsets: OffsetTable::new(),
            config,
        };
        proof {
            let n = p.segments@.len() as int;
            assert(part_views(&p) == cur);
            assert(seg_msgs(&p.segments@[0]) =~= cur.subrange(
                p.segments@[0].start_offset as int,
                p.segments@[0].start_offset + seg_msgs(&p.segments@[0]).len(),
            ));
            if rolled {
                assert(seg_msgs(&p.segments@[1]) =~= cur.subrange(
                    cur.len() as int,
                    cur.len() as int,
                ));
            }
            assert(wf_partition(&p));
        }
        Ok(p)
    }
}

/// The index of the first message in `ms` whose timestamp is at least `t`,
/// or `ms.len()` if there is none.
pub open spec fn spec_first_at_ts(ms: Seq<MessageView>, t: u64) -> int
    decreases ms.len(),
{
    if ms.len() == 0 {
        0int
    } else if ms[0].timestamp >= t {
        0int
    } else {
        1 + spec_first_at_ts(ms.skip(1), t)
    }
}

/// The first-at-timestamp index lies between 0 and the message count.
pub proof fn lemma_first_at_ts_bounds(ms: Seq<MessageView>, t: u64)
    ensures
        0 <= spec_first_at_ts(ms, t) <= ms.len(),
    decreases ms.len(),
{
    if ms.len() != 0 && ms[0].timestamp < t {
        lemma_first_at_ts_bounds(ms.skip(1), t);
    }
}

proof fn lemma_first_at_ts_step(ms: Seq<MessageView>, t: u64, j: int)
    requires
        0 <= j < ms.len(),
        ms[j].timestamp < t,
    ensures
        spec_first_at_ts(ms.skip(j), t) == 1 + spec_first_at_ts(ms.skip(j + 1), t),
{
    assert(ms.skip(j)[0] == ms[j]);
    assert(ms.skip(j).skip(1) =~= ms.skip(j + 1));
}

/// Law: the offsets of the messages a partition holds are exactly
/// 0, 1, …, `current_offset`, with no gaps and no duplicates.
pub proof fn lemma_partition_offsets_contiguous(p: &Partition)
    requires
        wf_partition(p),
    ensures
        forall|k: int| 0 <= k < part_views(p).len() ==> (#[trigger] part_views(p)[k]).offset == k,
        part_views(p).len() > 0 ==> p.current_offset == part_views(p).len() - 1,
        part_views(p).len() > 0 ==> forall|k: int|
            0 <= k < part_views(p).len() ==> (#[trigger] part_views(p)[k]).offset
                <= p.current_offset,
        forall|a: int, b: int|
            0 <= a < b < part_views(p).len() ==> (#[trigger] part_views(p)[a]).offset != (
            #[trigger] part_views(p)[b]).offset,
{
}

} // verus!