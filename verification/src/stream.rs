//! Streams: the top-level namespace. A stream owns topics with unique ids
//! and unique names; creating a duplicate is refused, deleting what is not
//! there reports it missing.

use crate::error::{IggyError, ResourceKind};
use crate::identifier::{IdView, Identifier};
use crate::partition::{wf_config, PartitionConfig};
use crate::topic::{wf_topic, Topic, MAX_PARTITIONS_AT_CREATION};
use vstd::prelude::*;

verus! {

/// An identifier picks out a thing with this numeric id and this name.
pub open spec fn id_matches(v: IdView, id: u32, name: Seq<u8>) -> bool {
    match v {
        IdView::Num(n) => n == id,
        IdView::Name(b) => b == name,
    }
}

/// A stream: a named container of topics.
#[derive(Debug)]
pub struct Stream {
    pub id: u32,
    pub name: Vec<u8>,
    pub created_at: u64,
    pub topics: Vec<Topic>,
}

/// A well-formed stream: topics are well formed, belong to this stream, and
/// no two share an id or a name.
pub open spec fn wf_stream(s: &Stream) -> bool {
    &&& s.id != 0
    &&& 1 <= s.name@.len() <= 255
    &&& forall|i: int| 0 <= i < s.topics@.len() ==> wf_topic(#[trigger] &s.topics@[i])
    &&& forall|i: int|
        0 <= i < s.topics@.len() ==> (#[trigger] s.topics@[i]).stream_id == s.id
            && s.topics@[i].id != 0
    &&& forall|i: int, j: int|
        0 <= i < j < s.topics@.len() ==> (#[trigger] s.topics@[i]).id != (
        #[trigger] s.topics@[j]).id && s.topics@[i].name@ != s.topics@[j].name@
}

/// Whether some topic of the sequence matches the identifier.
pub open spec fn spec_topic_exists(topics: Seq<Topic>, v: IdView) -> bool {
    exists|i: int| 0 <= i < topics.len() && id_matches(v, (#[trigger] topics[i]).id, topics[i].name@)
}

/// The index of the topic the identifier picks out; ids and names are
/// unique, so there is at most one.
pub open spec fn spec_topic_index(topics: Seq<Topic>, v: IdView) -> int {
    choose|i: int| 0 <= i < topics.len() && id_matches(v, (#[trigger] topics[i]).id, topics[i].name@)
}

/// What creating a topic does to the stream: success exactly for a valid,
/// fresh id and name, appending the new topic; the exact error and an
/// untouched topic list otherwise.
pub open spec fn spec_create_topic_effect(
    s0: &Stream,
    s1: &Stream,
    topic_id: u32,
    name: Seq<u8>,
    partitions_count: u32,
    r: Result<(), IggyError>,
) -> bool {
    let taken = exists|i: int|
        0 <= i < s0.topics@.len() && ((#[trigger] s0.topics@[i]).id == topic_id
            || s0.topics@[i].name@ == name);
    let valid = topic_id != 0 && 1 <= name.len() <= 255 && 1 <= partitions_count
        <= MAX_PARTITIONS_AT_CREATION;
    &&& s1.id == s0.id
    &&& s1.name@ == s0.name@
    &&& s1.created_at == s0.created_at
    &&& (r is Ok <==> valid && !taken)
    &&& (valid && taken ==> r == Result::<(), IggyError>::Err(IggyError::ResourceAlreadyExists(
        ResourceKind::Topic,
    )))
    &&& (r is Ok ==> s1.topics@.len() == s0.topics@.len() + 1 && s1.topics@.take(
        s0.topics@.len() as int,
    ) == s0.topics@ && s1.topics@.last().id == topic_id && s1.topics@.last().name@ == name
        && s1.topics@.last().partitions@.len() == partitions_count && (forall|j: int|
        0 <= j < partitions_count ==> crate::partition::part_views(
            #[trigger] &s1.topics@.last().partitions@[j],
        ) == Seq::<crate::message::MessageView>::empty()) && s1.topics@.last().groups@.len() == 0)
    &&& (r is Err ==> s1.topics@ == s0.topics@)
}

/// What deleting a topic does to the stream: exactly the matched topic is
/// removed; a missing one is reported the same way every time.
pub open spec fn spec_delete_topic_effect(
    s0: &Stream,
    s1: &Stream,
    v: IdView,
    r: Result<(), IggyError>,
) -> bool {
    &&& s1.id == s0.id
    &&& s1.name@ == s0.name@
    &&& s1.created_at == s0.created_at
    &&& (r is Ok <==> spec_topic_exists(s0.topics@, v))
    &&& (r is Err ==> r == Result::<(), IggyError>::Err(IggyError::ResourceNotFound(
        ResourceKind::Topic,
    )) && s1.topics@ == s0.topics@)
    &&& (r is Ok ==> s1.topics@ == s0.topics@.remove(spec_topic_index(s0.topics@, v)))
}

impl Stream {
    /// A fresh stream with no topics.
    pub fn new(id: u32, name: Vec<u8>, created_at: u64) -> (s: Result<Stream, IggyError>)
        ensures
            s is Ok <==> id != 0 && 1 <= name@.len() <= 255,
            s is Ok ==> {
                let s = s->Ok_0;
                &&& wf_stream(&s)
                &&& s.id == id
                &&& s.name@ == name@
                &&& s.created_at == created_at
                &&& s.topics@.len() == 0
            },
            s is Err ==> (s == Result::<Stream, IggyError>::Err(IggyError::InvalidIdentifier) || s
                == Result::<Stream, IggyError>::Err(IggyError::NameTooShort) || s == Result::<
                Stream,
                IggyError,
            >::Err(IggyError::NameTooLong)),
    {
        if id == 0 {
            return Err(IggyError::InvalidIdentifier);
        }
        if name.len() == 0 {
            return Err(IggyError::NameTooShort);
        }
        if name.len() > 255 {
            return Err(IggyError::NameTooLong);
        }
        Ok(Stream { id, name, created_at, topics: Vec::new() })
    }

    /// The index of the topic the identifier picks out, if any.
    #[verifier::loop_isolation(false)]
    pub fn find_topic(&self, topic_id: &Identifier) -> (r: Option<usize>)
        requires
            wf_stream(self),
            topic_id.wf(),
        ensures
            r is Some ==> 0 <= r->0 < self.topics@.len() && id_matches(
                topic_id@,
                self.topics@[r->0 as int].id,
                self.topics@[r->0 as int].name@,
            ) && r->0 == spec_topic_index(self.topics@, topic_id@),
            r is None ==> !spec_topic_exists(self.topics@, topic_id@),
            r is Some ==> spec_topic_exists(self.topics@, topic_id@),
    {
        let mut i: usize = 0;
        while i < self.topics.len()
            invariant
                0 <= i <= self.topics@.len(),
                forall|j: int|
                    0 <= j < i ==> !id_matches(
                        topic_id@,
                        (#[trigger] self.topics@[j]).id,
                        self.topics@[j].name@,
                    ),
            decreases self.topics@.len() - i,
        {
            let t = &self.topics[i];
            let hit = match topic_id.kind {
                crate::identifier::IdKind::Numeric => {
                    let n = crate::encoding::read_u32_le(topic_id.value.as_slice(), 0);
                    proof {
                        assert(topic_id.value@.subrange(0, 4) =~= topic_id.value@);
                    }
                    n == t.id
                },
                crate::identifier::IdKind::Named => {
                    let r = topic_id.value == t.name;
                    proof {
                        if r {
                            assert(topic_id.value@ =~= t.name@);
                        }
                    }
                    r
                },
            };
            if hit {
                proof {
                    let k = spec_topic_index(self.topics@, topic_id@);
                    assert(0 <= k < self.topics@.len() && id_matches(
                        topic_id@,
                        self.topics@[k].id,
                        self.topics@[k].name@,
                    )) by {
                        assert(id_matches(
                            topic_id@,
                            self.topics@[i as int].id,
                            self.topics@[i as int].name@,
                        ));
                    }
                    if k != i {
                        assert(self.topics@[k].id != self.topics@[i as int].id);
                        assert(self.topics@[k].name@ != self.topics@[i as int].name@);
                    }
                }
                return Some(i);
            }
            i = i + 1;
        }
        None
    }

    /// Creates a topic. A zero or taken id, or a taken name, is refused: the
    /// same create again always fails with "already exists".
    #[verifier::loop_isolation(false)]
    pub fn create_topic(
        &mut self,
        topic_id: u32,
        name: Vec<u8>,
        partitions_count: u32,
        config: PartitionConfig,
        created_at: u64,
    ) -> (r: Result<(), IggyError>)
        requires
            wf_stream(old(self)),
            wf_config(config),
        ensures
            wf_stream(final(self)),
            spec_create_topic_effect(old(self), final(self), topic_id, name@, partitions_count, r),
    {
        if topic_id == 0 {
            return Err(IggyError::InvalidIdentifier);
        }
        if name.len() == 0 {
            return Err(IggyError::NameTooShort);
        }
        if name.len() > 255 {
            return Err(IggyError::NameTooLong);
        }
        if partitions_count == 0 || partitions_count > MAX_PARTITIONS_AT_CREATION {
            return Err(IggyError::PartitionNotFound);
        }
        let mut i: usize = 0;
        while i < self.topics.len()
            invariant
                0 <= i <= self.topics@.len(),
                self.topics@ == old(self).topics@,
                forall|j: int|
                    0 <= j < i ==> (#[trigger] self.topics@[j]).id != topic_id
                        && self.topics@[j].name@ != name@,
            decreases self.topics@.len() - i,
        {
            let t = &self.topics[i];
            let same_name = t.name == name;
            proof {
                if same_name {
                    assert(t.name@ =~= name@);
                }
            }
            if t.id == topic_id || same_name {
                return Err(IggyError::ResourceAlreadyExists(ResourceKind::Topic));
            }
            i = i + 1;
        }
        let topic = match Topic::new(
            topic_id,
            self.id,
            name,
            partitions_count,
            config,
            created_at,
        ) {
            Ok(t) => t,
            Err(e) => {
                return Err(e);
            },
        };
        self.topics.push(topic);
        proof {
            assert(self.topics@.take(old(self).topics@.len() as int) =~= old(self).topics@);
            assert forall|a: int, b: int|
                0 <= a < b < self.topics@.len() implies (#[trigger] self.topics@[a]).id != (
                #[trigger] self.topics@[b]).id && self.topics@[a].name@ != self.topics@[b].name@ by {
                if b < self.topics@.len() - 1 {
                    assert(self.topics@[a] == old(self).topics@[a]);
                    assert(self.topics@[b] == old(self).topics@[b]);
                } else {
                    assert(self.topics@[a] == old(self).topics@[a]);
                }
            }
        }
        Ok(())
    }

    /// Deletes the topic the identifier picks out; a missing topic is
    /// reported, and deleting twice reports the same.
    pub fn delete_topic(&mut self, topic_id: &Identifier) -> (r: Result<(), IggyError>)
        requires
            wf_stream(old(self)),
            topic_id.wf(),
        ensures
            wf_stream(final(self)),
            spec_delete_topic_effect(old(self), final(self), topic_id@, r),
    {
        match self.find_topic(topic_id) {
            Some(i) => {
                self.topics.remove(i);
                proof {
                    assert forall|k: int|
                        0 <= k < self.topics@.len() implies wf_topic(&(#[trigger] self.topics@[k]))
                        && self.topics@[k].stream_id == self.id && self.topics@[k].id != 0 by {
                        if k < i {
                            assert(self.topics@[k] == old(self).topics@[k]);
                        } else {
                            assert(self.topics@[k] == old(self).topics@[k + 1]);
                        }
                    }
                    assert forall|a: int, b: int|
                        0 <= a < b < self.topics@.len() implies (#[trigger] self.topics@[a]).id != (
                        #[trigger] self.topics@[b]).id && self.topics@[a].name@
                        != self.topics@[b].name@ by {
                        let a1 = if a < i {
                            a
                        } else {
                            a + 1
                        };
                        let b1 = if b < i {
                            b
                        } else {
                            b + 1
                        };
                        assert(self.topics@[a] == old(self).topics@[a1]);
                        assert(self.topics@[b] == old(self).topics@[b1]);
                    }
                }
                Ok(())
            },
            None => Err(IggyError::ResourceNotFound(ResourceKind::Topic)),
        }
    }
}

} // verus!
