//! Topics: a named log split into partitions, with the partitioner that
//! routes each send request to one partition and the consumer groups that
//! divide the partitions among cooperating consumers.

use crate::command::{Partitioning, PartitioningView};
use crate::encoding::{fnv1a64, fnv1a64_of};
use crate::error::{IggyError, ResourceKind};
use crate::message::{Message, MessageView};
use crate::partition::{
    part_views, spec_append_effect, spec_poll_effect, spec_poll_slice, spec_store_offset_effect,
    wf_config, wf_partition, Consumer, Partition, PartitionConfig, PollStrategy,
};
use vstd::prelude::*;

verus! {

/// The most partitions a topic may be created with.
pub const MAX_PARTITIONS_AT_CREATION: u32 = 1000;

/// A named set of consumers that divide a topic's partitions. Members are
/// kept sorted by id; partition `p` (1-based) belongs to the member at index
/// `(p - 1) mod member_count`.
#[derive(Debug)]
pub struct ConsumerGroup {
    pub id: u32,
    pub name: Vec<u8>,
    pub members: Vec<u32>,
}

/// Group members are strictly sorted, hence unique.
pub open spec fn wf_group(g: &ConsumerGroup) -> bool {
    forall|i: int, j: int|
        0 <= i < j < g.members@.len() ==> (#[trigger] g.members@[i]) < (#[trigger] g.members@[j])
}

/// The member a partition id is assigned to under the group's round-robin
/// rule, if the group has members.
pub open spec fn spec_assigned_member(g: &ConsumerGroup, partition_id: u32) -> Option<u32> {
    if g.members@.len() == 0 || partition_id == 0 {
        None
    } else {
        Some(g.members@[(partition_id - 1) % (g.members@.len() as int)])
    }
}

impl ConsumerGroup {
    /// The member the partition belongs to, by the deterministic round-robin
    /// assignment over members sorted by id.
    pub fn assigned_member(&self, partition_id: u32) -> (r: Option<u32>)
        requires
            wf_group(self),
        ensures
            r == spec_assigned_member(self, partition_id),
    {
        if self.members.len() == 0 || partition_id == 0 {
            None
        } else {
            let idx = ((partition_id - 1) as usize) % self.members.len();
            Some(self.members[idx])
        }
    }

    /// Adds a consumer to the group, keeping members sorted; joining twice
    /// changes nothing.
    pub fn join(&mut self, consumer_id: u32)
        requires
            wf_group(old(self)),
        ensures
            wf_group(final(self)),
            final(self).id == old(self).id,
            final(self).name@ == old(self).name@,
            final(self).members@.contains(consumer_id),
            forall|c: u32|
                #[trigger] final(self).members@.contains(c) <==> old(self).members@.contains(c) || c
                    == consumer_id,
    {
        let mut i: usize = 0;
        while i < self.members.len() && self.members[i] < consumer_id
            invariant
                wf_group(self),
                self.members@ == old(self).members@,
                0 <= i <= self.members@.len(),
                forall|j: int| 0 <= j < i ==> (#[trigger] self.members@[j]) < consumer_id,
            decreases self.members@.len() - i,
        {
            i = i + 1;
        }
        if i < self.members.len() && self.members[i] == consumer_id {
            proof {
                assert(old(self).members@.contains(consumer_id));
            }
            return ;
        }
        self.members.insert(i, consumer_id);
        proof {
            assert forall|c: u32| #[trigger]
                self.members@.contains(c) <==> old(self).members@.contains(c) || c
                == consumer_id by {
                let m2 = self.members@;
                let m1 = old(self).members@;
                if m2.contains(c) {
                    let k = choose|k: int| 0 <= k < m2.len() && m2[k] == c;
                    if k < i {
                        assert(m1[k] == c);
                    } else if k > i {
                        assert(m1[k - 1] == c);
                    }
                }
                if m1.contains(c) {
                    let k = choose|k: int| 0 <= k < m1.len() && m1[k] == c;
                    if k < i {
                        assert(m2[k] == c);
                    } else {
                        assert(m2[k + 1] == c);
                    }
                }
                if c == consumer_id {
                    assert(m2[i as int] == c);
                }
            }
            assert(self.members@.contains(consumer_id)) by {
                assert(self.members@[i as int] == consumer_id);
            }
        }
    }

    /// Removes a consumer from the group; leaving twice changes nothing.
    pub fn leave(&mut self, consumer_id: u32)
        requires
            wf_group(old(self)),
        ensures
            wf_group(final(self)),
            final(self).id == old(self).id,
            final(self).name@ == old(self).name@,
            !final(self).members@.contains(consumer_id),
            forall|c: u32|
                #[trigger] final(self).members@.contains(c) <==> old(self).members@.contains(c) && c
                    != consumer_id,
    {
        let mut i: usize = 0;
        while i < self.members.len() && self.members[i] != consumer_id
            invariant
                wf_group(self),
                self.members@ == old(self).members@,
                0 <= i <= self.members@.len(),
                forall|j: int| 0 <= j < i ==> (#[trigger] self.members@[j]) != consumer_id,
            decreases self.members@.len() - i,
        {
            i = i + 1;
        }
        if i == self.members.len() {
            proof {
                assert(!old(self).members@.contains(consumer_id));
            }
            return ;
        }
        self.members.remove(i);
        proof {
            assert forall|c: u32| #[trigger]
                self.members@.contains(c) <==> old(self).members@.contains(c) && c
                != consumer_id by {
                let m2 = self.members@;
                let m1 = old(self).members@;
                if m2.contains(c) {
                    let k = choose|k: int| 0 <= k < m2.len() && m2[k] == c;
                    if k < i {
                        assert(m1[k] == c);
                        assert(m1[k] != m1[i as int]);
                    } else {
                        assert(m1[k + 1] == c);
                        assert(m1[k + 1] != m1[i as int]);
                    }
                }
                if m1.contains(c) && c != consumer_id {
                    let k = choose|k: int| 0 <= k < m1.len() && m1[k] == c;
                    if k < i {
                        assert(m2[k] == c);
                    } else if k > i {
                        assert(m2[k - 1] == c);
                    }
                }
            }
        }
    }
}

/// A topic: a set of partitions with ids 1 through the partition count, a
/// round-robin counter for balanced sends, and its consumer groups.
#[derive(Debug)]
pub struct Topic {
    pub id: u32,
    pub stream_id: u32,
    pub name: Vec<u8>,
    pub created_at: u64,
    pub partitions: Vec<Partition>,
    pub groups: Vec<ConsumerGroup>,
    pub round_robin: u64,
    pub config: PartitionConfig,
}

/// A well-formed topic: partition ids are exactly 1..=count in order, every
/// partition is well formed and knows its owners, and group ids are unique.
pub open spec fn wf_topic(t: &Topic) -> bool {
    &&& wf_config(t.config)
    &&& 1 <= t.name@.len() <= 255
    &&& forall|i: int|
        0 <= i < t.partitions@.len() ==> (#[trigger] t.partitions@[i]).id == i + 1
    &&& forall|i: int| 0 <= i < t.partitions@.len() ==> wf_partition(#[trigger] &t.partitions@[i])
    &&& forall|i: int|
        0 <= i < t.partitions@.len() ==> (#[trigger] t.partitions@[i]).topic_id == t.id
            && t.partitions@[i].stream_id == t.stream_id
    &&& forall|i: int|
        0 <= i < t.partitions@.len() ==> (#[trigger] t.partitions@[i]).config == t.config
    &&& t.partitions@.len() <= u32::MAX
    &&& forall|i: int| 0 <= i < t.groups@.len() ==> wf_group(#[trigger] &t.groups@[i])
    &&& forall|i: int, j: int|
        0 <= i < j < t.groups@.len() ==> (#[trigger] t.groups@[i]).id != (
        #[trigger] t.groups@[j]).id
}

/// The partition index (0-based) a send with the given rule lands in, given
/// the topic's partition count and round-robin counter.
pub open spec fn spec_resolve_partition(v: PartitioningView, n: int, round_robin: u64) -> Option<
    int,
> {
    if n <= 0 {
        None
    } else {
        match v {
            PartitioningView::Balanced => Some(round_robin as int % n),
            PartitioningView::PartitionId(k) => if 1 <= k <= n {
                Some(k - 1)
            } else {
                None
            },
            PartitioningView::MessagesKey(key) => Some(fnv1a64_of(key) as int % n),
        }
    }
}

/// Whether some group of the sequence carries the id.
pub open spec fn spec_group_exists(groups: Seq<ConsumerGroup>, group_id: u32) -> bool {
    exists|i: int| 0 <= i < groups.len() && (#[trigger] groups[i]).id == group_id
}

/// The index of the group with the id; group ids are unique, so there is at
/// most one.
pub open spec fn spec_group_index(groups: Seq<ConsumerGroup>, group_id: u32) -> int {
    choose|i: int| 0 <= i < groups.len() && (#[trigger] groups[i]).id == group_id
}

/// The topic fields a per-partition or per-group operation never touches.
pub open spec fn spec_topic_frame(t0: &Topic, t1: &Topic) -> bool {
    &&& t1.id == t0.id
    &&& t1.stream_id == t0.stream_id
    &&& t1.name@ == t0.name@
    &&& t1.created_at == t0.created_at
    &&& t1.config == t0.config
}

/// What a send does to the topic: the rule resolves (or not) against the old
/// partition count and counter; the batch lands in exactly the resolved
/// partition under [`spec_append_effect`]; the round-robin counter advances
/// exactly when the rule was balanced and resolution succeeded.
pub open spec fn spec_send_effect(
    t0: &Topic,
    t1: &Topic,
    pv: PartitioningView,
    views: Seq<MessageView>,
    now: u64,
    r: Result<u32, IggyError>,
) -> bool {
    let n = t0.partitions@.len() as int;
    &&& spec_topic_frame(t0, t1)
    &&& t1.partitions@.len() == n
    &&& t1.groups@ == t0.groups@
    &&& match spec_resolve_partition(pv, n, t0.round_robin) {
        None => r == Result::<u32, IggyError>::Err(IggyError::PartitionNotFound) && t1.partitions@
            == t0.partitions@ && t1.round_robin == t0.round_robin,
        Some(i) => {
            let ru: Result<(), IggyError> = match r {
                Ok(_) => Ok(()),
                Err(e) => Err(e),
            };
            &&& t1.round_robin == if pv is Balanced {
                vstd::wrapping::u64_specs::wrapping_add(t0.round_robin, 1)
            } else {
                t0.round_robin
            }
            &&& (r is Ok ==> r->Ok_0 == i + 1)
            &&& spec_append_effect(&t0.partitions@[i], &t1.partitions@[i], views, now, ru)
            &&& forall|j: int|
                0 <= j < n && j != i ==> #[trigger] t1.partitions@[j] == t0.partitions@[j]
        },
    }
}

/// What a poll does to the topic: only the named partition is touched, and
/// only as [`spec_poll_effect`] says.
pub open spec fn spec_topic_poll_effect(
    t0: &Topic,
    t1: &Topic,
    partition_id: u32,
    consumer: Consumer,
    strategy: PollStrategy,
    count: u32,
    auto_commit: bool,
    r: Result<Vec<Message>, IggyError>,
) -> bool {
    let n = t0.partitions@.len() as int;
    &&& spec_topic_frame(t0, t1)
    &&& t1.partitions@.len() == n
    &&& t1.groups@ == t0.groups@
    &&& t1.round_robin == t0.round_robin
    &&& (r is Ok <==> 1 <= partition_id <= n)
    &&& (r is Err ==> r == Result::<Vec<Message>, IggyError>::Err(IggyError::PartitionNotFound)
        && t1.partitions@ == t0.partitions@)
    &&& (r is Ok ==> {
        let i = partition_id - 1;
        &&& r->Ok_0@.map_values(|m: Message| m@) == spec_poll_slice(
            &t0.partitions@[i],
            consumer,
            strategy,
            count,
        )
        &&& spec_poll_effect(
            &t0.partitions@[i],
            &t1.partitions@[i],
            consumer,
            strategy,
            count,
            auto_commit,
        )
        &&& forall|j: int|
            0 <= j < n && j != i ==> #[trigger] t1.partitions@[j] == t0.partitions@[j]
    })
}

/// What storing a consumer offset does to the topic.
pub open spec fn spec_topic_store_effect(
    t0: &Topic,
    t1: &Topic,
    partition_id: u32,
    consumer: Consumer,
    offset: u64,
    r: Result<(), IggyError>,
) -> bool {
    let n = t0.partitions@.len() as int;
    &&& spec_topic_frame(t0, t1)
    &&& t1.partitions@.len() == n
    &&& t1.groups@ == t0.groups@
    &&& t1.round_robin == t0.round_robin
    &&& (!(1 <= partition_id <= n) ==> r == Result::<(), IggyError>::Err(
        IggyError::PartitionNotFound,
    ) && t1.partitions@ == t0.partitions@)
    &&& (1 <= partition_id <= n ==> {
        let i = partition_id - 1;
        &&& spec_store_offset_effect(
            &t0.partitions@[i],
            &t1.partitions@[i],
            consumer,
            offset,
            r,
        )
        &&& forall|j: int|
            0 <= j < n && j != i ==> #[trigger] t1.partitions@[j] == t0.partitions@[j]
    })
}

/// What creating a consumer group does: success exactly for a fresh, nonzero
/// id, appending an empty group; the exact error and untouched groups
/// otherwise.
pub open spec fn spec_create_group_effect(
    t0: &Topic,
    t1: &Topic,
    group_id: u32,
    name: Seq<u8>,
    r: Result<(), IggyError>,
) -> bool {
    &&& spec_topic_frame(t0, t1)
    &&& t1.partitions@ == t0.partitions@
    &&& t1.round_robin == t0.round_robin
    &&& (r is Ok <==> group_id != 0 && !spec_group_exists(t0.groups@, group_id))
    &&& (group_id == 0 ==> r == Result::<(), IggyError>::Err(IggyError::InvalidIdentifier))
    &&& (group_id != 0 && spec_group_exists(t0.groups@, group_id) ==> r == Result::<
        (),
        IggyError,
    >::Err(IggyError::ResourceAlreadyExists(ResourceKind::ConsumerGroup)))
    &&& (r is Ok ==> t1.groups@.len() == t0.groups@.len() + 1 && t1.groups@.last().id == group_id
        && t1.groups@.last().name@ == name && t1.groups@.last().members@ == Seq::<u32>::empty()
        && t1.groups@.take(t0.groups@.len() as int) == t0.groups@)
    &&& (r is Err ==> t1.groups@ == t0.groups@)
}

/// What deleting a consumer group does: exactly the matched group is
/// removed; a missing id is reported the same way every time.
pub open spec fn spec_delete_group_effect(
    t0: &Topic,
    t1: &Topic,
    group_id: u32,
    r: Result<(), IggyError>,
) -> bool {
    &&& spec_topic_frame(t0, t1)
    &&& t1.partitions@ == t0.partitions@
    &&& t1.round_robin == t0.round_robin
    &&& (r is Ok <==> spec_group_exists(t0.groups@, group_id))
    &&& (r is Err ==> r == Result::<(), IggyError>::Err(IggyError::ResourceNotFound(
        ResourceKind::ConsumerGroup,
    )) && t1.groups@ == t0.groups@)
    &&& (r is Ok ==> t1.groups@ == t0.groups@.remove(spec_group_index(t0.groups@, group_id)))
}

/// What joining does: the matched group gains exactly the consumer, other
/// groups untouched; a missing group is reported.
pub open spec fn spec_join_group_effect(
    t0: &Topic,
    t1: &Topic,
    group_id: u32,
    consumer_id: u32,
    r: Result<(), IggyError>,
) -> bool {
    &&& spec_topic_frame(t0, t1)
    &&& t1.partitions@ == t0.partitions@
    &&& t1.round_robin == t0.round_robin
    &&& (r is Ok <==> spec_group_exists(t0.groups@, group_id))
    &&& (r is Err ==> r == Result::<(), IggyError>::Err(IggyError::ResourceNotFound(
        ResourceKind::ConsumerGroup,
    )) && t1.groups@ == t0.groups@)
    &&& (r is Ok ==> {
        let gi = spec_group_index(t0.groups@, group_id);
        &&& t1.groups@.len() == t0.groups@.len()
        &&& forall|j: int|
            0 <= j < t0.groups@.len() && j != gi ==> #[trigger] t1.groups@[j] == t0.groups@[j]
        &&& t1.groups@[gi].id == group_id
        &&& t1.groups@[gi].name@ == t0.groups@[gi].name@
        &&& forall|c: u32|
            #[trigger] t1.groups@[gi].members@.contains(c) <==> t0.groups@[gi].members@.contains(c)
                || c == consumer_id
    })
}

/// What leaving does: the matched group loses exactly the consumer.
pub open spec fn spec_leave_group_effect(
    t0: &Topic,
    t1: &Topic,
    group_id: u32,
    consumer_id: u32,
    r: Result<(), IggyError>,
) -> bool {
    &&& spec_topic_frame(t0, t1)
    &&& t1.partitions@ == t0.partitions@
    &&& t1.round_robin == t0.round_robin
    &&& (r is Ok <==> spec_group_exists(t0.groups@, group_id))
    &&& (r is Err ==> r == Result::<(), IggyError>::Err(IggyError::ResourceNotFound(
        ResourceKind::ConsumerGroup,
    )) && t1.groups@ == t0.groups@)
    &&& (r is Ok ==> {
        let gi = spec_group_index(t0.groups@, group_id);
        &&& t1.groups@.len() == t0.groups@.len()
        &&& forall|j: int|
            0 <= j < t0.groups@.len() && j != gi ==> #[trigger] t1.groups@[j] == t0.groups@[j]
        &&& t1.groups@[gi].id == group_id
        &&& t1.groups@[gi].name@ == t0.groups@[gi].name@
        &&& forall|c: u32|
            #[trigger] t1.groups@[gi].members@.contains(c) <==> t0.groups@[gi].members@.contains(c)
                && c != consumer_id
    })
}

/// What adding partitions does: success exactly while ids stay in range;
/// `count` fresh empty partitions continue the id sequence.
pub open spec fn spec_add_partitions_effect(
    t0: &Topic,
    t1: &Topic,
    count: u32,
    r: Result<(), IggyError>,
) -> bool {
    &&& spec_topic_frame(t0, t1)
    &&& t1.groups@ == t0.groups@
    &&& t1.round_robin == t0.round_robin
    &&& (r is Ok <==> t0.partitions@.len() + count <= u32::MAX)
    &&& (r is Err ==> r == Result::<(), IggyError>::Err(IggyError::PartitionNotFound)
        && t1.partitions@ == t0.partitions@)
    &&& (r is Ok ==> t1.partitions@.len() == t0.partitions@.len() + count && (forall|j: int|
        0 <= j < t0.partitions@.len() ==> #[trigger] t1.partitions@[j] == t0.partitions@[j]) && (
    forall|j: int|
        t0.partitions@.len() <= j < t1.partitions@.len() ==> part_views(
            #[trigger] &t1.partitions@[j],
        ) == Seq::<MessageView>::empty() && t1.partitions@[j].id == j + 1))
}

/// What deleting partitions does: exactly the `count` highest-id partitions
/// go, with everything they held; the rest are untouched.
pub open spec fn spec_delete_partitions_effect(
    t0: &Topic,
    t1: &Topic,
    count: u32,
    r: Result<(), IggyError>,
) -> bool {
    &&& spec_topic_frame(t0, t1)
    &&& t1.groups@ == t0.groups@
    &&& t1.round_robin == t0.round_robin
    &&& (r is Ok <==> count <= t0.partitions@.len())
    &&& (r is Err ==> r == Result::<(), IggyError>::Err(IggyError::PartitionNotFound)
        && t1.partitions@ == t0.partitions@)
    &&& (r is Ok ==> t1.partitions@ == t0.partitions@.take(t0.partitions@.len() - count))
}

impl Topic {
    /// A new topic with `partitions_count` fresh partitions, ids 1 upward.
    pub fn new(
        id: u32,
        stream_id: u32,
        name: Vec<u8>,
        partitions_count: u32,
        config: PartitionConfig,
        created_at: u64,
    ) -> (t: Result<Topic, IggyError>)
        requires
            wf_config(config),
            1 <= name@.len() <= 255,
        ensures
            t is Ok <==> 1 <= partitions_count <= MAX_PARTITIONS_AT_CREATION,
            t is Err ==> t == Result::<Topic, IggyError>::Err(IggyError::PartitionNotFound),
            t is Ok ==> {
                let t = t->Ok_0;
                &&& wf_topic(&t)
                &&& t.id == id
                &&& t.stream_id == stream_id
                &&& t.name@ == name@
                &&& t.created_at == created_at
                &&& t.config == config
                &&& t.partitions@.len() == partitions_count
                &&& t.groups@.len() == 0
                &&& t.round_robin == 0
                &&& forall|i: int|
                    0 <= i < partitions_count ==> part_views(#[trigger] &t.partitions@[i])
                        == Seq::<MessageView>::empty()
            },
    {
        if partitions_count == 0 || partitions_count > MAX_PARTITIONS_AT_CREATION {
            return Err(IggyError::PartitionNotFound);
        }
        let mut partitions: Vec<Partition> = Vec::new();
        let mut i: u32 = 0;
        while i < partitions_count
            invariant
                wf_config(config),
                0 <= i <= partitions_count,
                partitions@.len() == i,
                forall|k: int|
                    0 <= k < i ==> (#[trigger] partitions@[k]).id == k + 1 && wf_partition(
                        &partitions@[k],
                    ) && partitions@[k].topic_id == id && partitions@[k].stream_id == stream_id
                        && partitions@[k].config == config && part_views(&partitions@[k])
                        == Seq::<MessageView>::empty(),
            decreases partitions_count - i,
        {
            partitions.push(Partition::new(i + 1, stream_id, id, config, created_at));
            i = i + 1;
        }
        Ok(
            Topic {
                id,
                stream_id,
                name,
                created_at,
                partitions,
                groups: Vec::new(),
                round_robin: 0,
                config,
            },
        )
    }

    /// Resolves a partitioning rule to a partition index, advancing the
    /// round-robin counter when the rule is balanced. A topic with no
    /// partitions, or an explicit id it does not have, has no partition to
    /// give.
    pub fn resolve_partition(&mut self, partitioning: &Partitioning) -> (r: Result<
        usize,
        IggyError,
    >)
        requires
            wf_topic(old(self)),
        ensures
            wf_topic(final(self)),
            r == match spec_resolve_partition(
                partitioning@,
                old(self).partitions@.len() as int,
                old(self).round_robin,
            ) {
                Some(i) => Result::<usize, IggyError>::Ok(i as usize),
                None => Result::<usize, IggyError>::Err(IggyError::PartitionNotFound),
            },
            final(self).round_robin == if r is Ok && partitioning@ is Balanced {
                vstd::wrapping::u64_specs::wrapping_add(old(self).round_robin, 1)
            } else {
                old(self).round_robin
            },
            final(self).partitions@ == old(self).partitions@,
            final(self).groups@ == old(self).groups@,
            final(self).id == old(self).id,
            final(self).stream_id == old(self).stream_id,
            final(self).name@ == old(self).name@,
            final(self).created_at == old(self).created_at,
            final(self).config == old(self).config,
    {
        let n = self.partitions.len();
        if n == 0 {
            return Err(IggyError::PartitionNotFound);
        }
        match partitioning {
            Partitioning::Balanced => {
                let idx = (self.round_robin % (n as u64)) as usize;
                self.round_robin = self.round_robin.wrapping_add(1);
                Ok(idx)
            },
            Partitioning::PartitionId(k) => {
                if *k < 1 || *k as usize > n {
                    return Err(IggyError::PartitionNotFound);
                }
                Ok((k - 1) as usize)
            },
            Partitioning::MessagesKey(key) => {
                let h = fnv1a64(key.as_slice());
                Ok((h % (n as u64)) as usize)
            },
        }
    }

    /// Appends a batch to the partition the rule resolves to, stamping
    /// offsets, timestamps and checksums there; returns the partition id the
    /// batch landed in.
    pub fn send_messages(&mut self, partitioning: &Partitioning, batch: Vec<Message>, now: u64)
        -> (r: Result<u32, IggyError>)
        requires
            wf_topic(old(self)),
        ensures
            wf_topic(final(self)),
            spec_send_effect(
                old(self),
                final(self),
                partitioning@,
                batch@.map_values(|m: Message| m@),
                now,
                r,
            ),
    {
        let ghost views = batch@.map_values(|m: Message| m@);
        let idx = match self.resolve_partition(partitioning) {
            Ok(i) => i,
            Err(e) => {
                return Err(e);
            },
        };
        let ghost t_mid = *self;
        let p = &mut self.partitions[idx];
        let res = p.append(batch, now);
        proof {
            assert forall|j: int|
                0 <= j < self.partitions@.len() implies wf_partition(
                #[trigger] &self.partitions@[j],
            ) by {
                if j != idx {
                    assert(self.partitions@[j] == old(self).partitions@[j]);
                }
            }
            assert(spec_append_effect(
                &old(self).partitions@[idx as int],
                &self.partitions@[idx as int],
                views,
                now,
                res,
            ));
        }
        match res {
            Ok(()) => Ok(idx as u32 + 1),
            Err(e) => Err(e),
        }
    }

    /// Polls one partition of the topic by its 1-based id.
    pub fn poll_messages(
        &mut self,
        partition_id: u32,
        consumer: Consumer,
        strategy: PollStrategy,
        count: u32,
        auto_commit: bool,
    ) -> (r: Result<Vec<Message>, IggyError>)
        requires
            wf_topic(old(self)),
        ensures
            wf_topic(final(self)),
            spec_topic_poll_effect(
                old(self),
                final(self),
                partition_id,
                consumer,
                strategy,
                count,
                auto_commit,
                r,
            ),
            r is Ok ==> forall|k: int|
                0 <= k < r->Ok_0@.len() ==> crate::message::wf_message(#[trigger] r->Ok_0@[k]@),
    {
        if partition_id < 1 || partition_id as usize > self.partitions.len() {
            return Err(IggyError::PartitionNotFound);
        }
        let idx = (partition_id - 1) as usize;
        let p = &mut self.partitions[idx];
        let out = p.poll(consumer, strategy, count, auto_commit);
        proof {
            assert forall|j: int|
                0 <= j < self.partitions@.len() implies wf_partition(
                #[trigger] &self.partitions@[j],
            ) by {
                if j != idx {
                    assert(self.partitions@[j] == old(self).partitions@[j]);
                }
            }
            let p_old = old(self).partitions@[idx as int];
            assert(wf_partition(&p_old));
            let ms = part_views(&p_old);
            let views = out@.map_values(|m: Message| m@);
            let start = p_old.spec_poll_start(consumer, strategy, count);
            assert(0 <= start) by {
                match strategy {
                    crate::partition::PollStrategy::Timestamp(ts) => {
                        crate::partition::lemma_first_at_ts_bounds(ms, ts);
                    },
                    _ => {},
                }
            }
            let end = if start + count <= ms.len() {
                start + count
            } else {
                ms.len() as int
            };
            let out_spec = spec_poll_slice(&p_old, consumer, strategy, count);
            assert(out_spec == if start < ms.len() {
                ms.subrange(start, end)
            } else {
                Seq::<MessageView>::empty()
            });
            assert(views =~= out_spec);
            assert forall|k: int|
                0 <= k < out@.len() implies crate::message::wf_message(#[trigger] out@[k]@) by {
                assert(out@[k]@ == views[k]);
                assert(views[k] == out_spec[k]);
                assert(out_spec[k] == ms[start + k]);
            }
        }
        Ok(out)
    }

    /// Stores a consumer offset on one partition of the topic.
    pub fn store_consumer_offset(&mut self, partition_id: u32, consumer: Consumer, offset: u64)
        -> (r: Result<(), IggyError>)
        requires
            wf_topic(old(self)),
        ensures
            wf_topic(final(self)),
            spec_topic_store_effect(old(self), final(self), partition_id, consumer, offset, r),
    {
        if partition_id < 1 || partition_id as usize > self.partitions.len() {
            return Err(IggyError::PartitionNotFound);
        }
        let idx = (partition_id - 1) as usize;
        let p = &mut self.partitions[idx];
        let r = p.store_consumer_offset(consumer, offset);
        proof {
            assert forall|j: int|
                0 <= j < self.partitions@.len() implies wf_partition(
                #[trigger] &self.partitions@[j],
            ) by {
                if j != idx {
                    assert(self.partitions@[j] == old(self).partitions@[j]);
                }
            }
        }
        r
    }

    /// The index of the group with the given id, if any.
    fn find_group(&self, group_id: u32) -> (r: Option<usize>)
        requires
            wf_topic(self),
        ensures
            r is Some ==> 0 <= r->0 < self.groups@.len() && self.groups@[r->0 as int].id
                == group_id && r->0 == spec_group_index(self.groups@, group_id)
                && spec_group_exists(self.groups@, group_id),
            r is None ==> !spec_group_exists(self.groups@, group_id),
    {
        let mut i: usize = 0;
        while i < self.groups.len()
            invariant
                wf_topic(self),
                0 <= i <= self.groups@.len(),
                forall|j: int| 0 <= j < i ==> (#[trigger] self.groups@[j]).id != group_id,
            decreases self.groups@.len() - i,
        {
            if self.groups[i].id == group_id {
                proof {
                    let k = spec_group_index(self.groups@, group_id);
                    assert(0 <= k < self.groups@.len() && self.groups@[k].id == group_id) by {
                        assert(self.groups@[i as int].id == group_id);
                    }
                    if k != i {
                        assert(self.groups@[k].id != self.groups@[i as int].id);
                    }
                }
                return Some(i);
            }
            i = i + 1;
        }
        None
    }

    /// Creates a consumer group; a taken id already exists.
    pub fn create_consumer_group(&mut self, group_id: u32, name: Vec<u8>) -> (r: Result<
        (),
        IggyError,
    >)
        requires
            wf_topic(old(self)),
        ensures
            wf_topic(final(self)),
            spec_create_group_effect(old(self), final(self), group_id, name@, r),
    {
        if group_id == 0 {
            return Err(IggyError::InvalidIdentifier);
        }
        match self.find_group(group_id) {
            Some(_) => Err(IggyError::ResourceAlreadyExists(ResourceKind::ConsumerGroup)),
            None => {
                self.groups.push(ConsumerGroup { id: group_id, name, members: Vec::new() });
                proof {
                    assert forall|i: int|
                        0 <= i < self.groups@.len() implies wf_group(
                        #[trigger] &self.groups@[i],
                    ) by {
                        if i < self.groups@.len() - 1 {
                            assert(self.groups@[i] == old(self).groups@[i]);
                        }
                    }
                    assert(self.groups@.take(old(self).groups@.len() as int) =~= old(self).groups@);
                }
                Ok(())
            },
        }
    }

    /// Deletes a consumer group; a missing id is reported, and deleting
    /// twice reports the same.
    pub fn delete_consumer_group(&mut self, group_id: u32) -> (r: Result<(), IggyError>)
        requires
            wf_topic(old(self)),
        ensures
            wf_topic(final(self)),
            spec_delete_group_effect(old(self), final(self), group_id, r),
    {
        match self.find_group(group_id) {
            Some(i) => {
                self.groups.remove(i);
                proof {
                    assert forall|k: int|
                        0 <= k < self.groups@.len() implies wf_group(&(#[trigger] self.groups@[k]))
                        by {
                        if k < i {
                            assert(self.groups@[k] == old(self).groups@[k]);
                        } else {
                            assert(self.groups@[k] == old(self).groups@[k + 1]);
                        }
                    }
                    assert forall|a: int, b: int|
                        0 <= a < b < self.groups@.len() implies (#[trigger] self.groups@[a]).id != (
                        #[trigger] self.groups@[b]).id by {
                        let a1 = if a < i {
                            a
                        } else {
                            a + 1
                        };
                        let b1 = if b < i {
                            b
                        } else {
                            b + 1
                        };
                        assert(self.groups@[a] == old(self).groups@[a1]);
                        assert(self.groups@[b] == old(self).groups@[b1]);
                    }
                }
                Ok(())
            },
            None => Err(IggyError::ResourceNotFound(ResourceKind::ConsumerGroup)),
        }
    }

    /// Adds a consumer to a group and recomputes the assignment (which is a
    /// pure function of the sorted member list).
    pub fn join_consumer_group(&mut self, group_id: u32, consumer_id: u32) -> (r: Result<
        (),
        IggyError,
    >)
        requires
            wf_topic(old(self)),
        ensures
            wf_topic(final(self)),
            spec_join_group_effect(old(self), final(self), group_id, consumer_id, r),
    {
        match self.find_group(group_id) {
            Some(i) => {
                let g = &mut self.groups[i];
                g.join(consumer_id);
                proof {
                    assert forall|k: int|
                        0 <= k < self.groups@.len() implies wf_group(&(#[trigger] self.groups@[k]))
                        by {
                        if k != i {
                            assert(self.groups@[k] == old(self).groups@[k]);
                        }
                    }
                    assert forall|a: int, b: int|
                        0 <= a < b < self.groups@.len() implies (#[trigger] self.groups@[a]).id != (
                        #[trigger] self.groups@[b]).id by {
                        assert(old(self).groups@[a].id != old(self).groups@[b].id);
                        if a != i {
                            assert(self.groups@[a] == old(self).groups@[a]);
                        }
                        if b != i {
                            assert(self.groups@[b] == old(self).groups@[b]);
                        }
                    }
                }
                Ok(())
            },
            None => Err(IggyError::ResourceNotFound(ResourceKind::ConsumerGroup)),
        }
    }

    /// Removes a consumer from a group.
    pub fn leave_consumer_group(&mut self, group_id: u32, consumer_id: u32) -> (r: Result<
        (),
        IggyError,
    >)
        requires
            wf_topic(old(self)),
        ensures
            wf_topic(final(self)),
            spec_leave_group_effect(old(self), final(self), group_id, consumer_id, r),
    {
        match self.find_group(group_id) {
            Some(i) => {
                let g = &mut self.groups[i];
                g.leave(consumer_id);
                proof {
                    assert forall|k: int|
                        0 <= k < self.groups@.len() implies wf_group(&(#[trigger] self.groups@[k]))
                        by {
                        if k != i {
                            assert(self.groups@[k] == old(self).groups@[k]);
                        }
                    }
                    assert forall|a: int, b: int|
                        0 <= a < b < self.groups@.len() implies (#[trigger] self.groups@[a]).id != (
                        #[trigger] self.groups@[b]).id by {
                        assert(old(self).groups@[a].id != old(self).groups@[b].id);
                        if a != i {
                            assert(self.groups@[a] == old(self).groups@[a]);
                        }
                        if b != i {
                            assert(self.groups@[b] == old(self).groups@[b]);
                        }
                    }
                }
                Ok(())
            },
            None => Err(IggyError::ResourceNotFound(ResourceKind::ConsumerGroup)),
        }
    }

    /// Appends `count` fresh partitions, continuing the id sequence.
    pub fn add_partitions(&mut self, count: u32) -> (r: Result<(), IggyError>)
        requires
            wf_topic(old(self)),
        ensures
            wf_topic(final(self)),
            spec_add_partitions_effect(old(self), final(self), count, r),
    {
        let n = self.partitions.len();
        if count as u64 > u32::MAX as u64 - n as u64 {
            return Err(IggyError::PartitionNotFound);
        }
        let mut i: u32 = 0;
        while i < count
            invariant
                wf_topic(self),
                0 <= i <= count,
                n + count <= u32::MAX,
                self.partitions@.len() == n + i,
                forall|j: int|
                    0 <= j < n ==> #[trigger] self.partitions@[j] == old(self).partitions@[j],
                forall|j: int|
                    n <= j < n + i ==> part_views(#[trigger] &self.partitions@[j])
                        == Seq::<MessageView>::empty(),
                self.groups@ == old(self).groups@,
                self.round_robin == old(self).round_robin,
                self.id == old(self).id,
                self.stream_id == old(self).stream_id,
                self.name@ == old(self).name@,
                self.created_at == old(self).created_at,
                self.config == old(self).config,
            decreases count - i,
        {
            let next_id = self.partitions.len() as u32 + 1;
            self.partitions.push(
                Partition::new(next_id, self.stream_id, self.id, self.config, self.created_at),
            );
            i = i + 1;
        }
        Ok(())
    }

    /// Removes the `count` highest-id partitions, with everything they hold.
    pub fn delete_partitions(&mut self, count: u32) -> (r: Result<(), IggyError>)
        requires
            wf_topic(old(self)),
        ensures
            wf_topic(final(self)),
            spec_delete_partitions_effect(old(self), final(self), count, r),
    {
        if count as usize > self.partitions.len() {
            return Err(IggyError::PartitionNotFound);
        }
        let keep = self.partitions.len() - count as usize;
        self.partitions.truncate(keep);
        proof {
            assert forall|j: int|
                0 <= j < self.partitions@.len() implies #[trigger] self.partitions@[j] == old(
                self,
            ).partitions@[j] by {}
        }
        Ok(())
    }
}

} // verus!
