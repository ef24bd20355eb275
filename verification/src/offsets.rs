//! The consumer-offset table of a partition: a small association vector
//! from a 64-bit identity key to the last acknowledged offset, viewed as a
//! map. Plain consumers use their id as the key; a consumer-group identity
//! packs the group id and the member id into one key.

use vstd::prelude::*;

verus! {

/// The map a sequence of key/value entries stands for; a later entry for
/// the same key wins.
pub open spec fn entries_map(s: Seq<(u64, u64)>) -> Map<u64, u64>
    decreases s.len(),
{
    if s.len() == 0 {
        Map::empty()
    } else {
        entries_map(s.drop_last()).insert(s.last().0, s.last().1)
    }
}

/// No two entries share a key.
pub open spec fn unique_keys(s: Seq<(u64, u64)>) -> bool {
    forall|i: int, j: int| 0 <= i < j < s.len() ==> (#[trigger] s[i]).0 != (#[trigger] s[j]).0
}

/// With unique keys, the map holds a key exactly where some entry does, with
/// that entry's value.
pub proof fn lemma_entries_map_index(s: Seq<(u64, u64)>, i: int)
    requires
        unique_keys(s),
        0 <= i < s.len(),
    ensures
        entries_map(s).contains_key(s[i].0),
        entries_map(s)[s[i].0] == s[i].1,
    decreases s.len(),
{
    if i == s.len() - 1 {
        assert(s.last() == s[i]);
    } else {
        assert(forall|a: int, b: int|
            0 <= a < b < s.drop_last().len() ==> (#[trigger] s.drop_last()[a]).0 != (
            #[trigger] s.drop_last()[b]).0);
        lemma_entries_map_index(s.drop_last(), i);
        assert(s.last().0 != s[i].0);
    }
}

/// A key no entry holds is not in the map.
pub proof fn lemma_entries_map_missing(s: Seq<(u64, u64)>, k: u64)
    requires
        forall|i: int| 0 <= i < s.len() ==> (#[trigger] s[i]).0 != k,
    ensures
        !entries_map(s).contains_key(k),
    decreases s.len(),
{
    if s.len() > 0 {
        lemma_entries_map_missing(s.drop_last(), k);
    }
}

/// Updating the entry that holds `k` updates the map at `k`.
pub proof fn lemma_entries_map_update(s: Seq<(u64, u64)>, i: int, v: u64)
    requires
        unique_keys(s),
        0 <= i < s.len(),
    ensures
        entries_map(s.update(i, (s[i].0, v))) == entries_map(s).insert(s[i].0, v),
    decreases s.len(),
{
    let k = s[i].0;
    let s2 = s.update(i, (k, v));
    if i == s.len() - 1 {
        assert(s2.drop_last() =~= s.drop_last());
        assert(s2.last() == (k, v));
        assert(entries_map(s2) =~= entries_map(s).insert(k, v));
    } else {
        assert(s2.drop_last() =~= s.drop_last().update(i, (k, v)));
        assert(s.drop_last()[i] == s[i]);
        assert(forall|a: int, b: int|
            0 <= a < b < s.drop_last().len() ==> (#[trigger] s.drop_last()[a]).0 != (
            #[trigger] s.drop_last()[b]).0);
        lemma_entries_map_update(s.drop_last(), i, v);
        assert(s2.last() == s.last());
        assert(s.last().0 != k);
        assert(entries_map(s2) =~= entries_map(s).insert(k, v));
    }
}

/// Appending an entry with a fresh key inserts it into the map.
pub proof fn lemma_entries_map_push(s: Seq<(u64, u64)>, k: u64, v: u64)
    ensures
        entries_map(s.push((k, v))) == entries_map(s).insert(k, v),
{
    assert(s.push((k, v)).drop_last() =~= s);
    assert(s.push((k, v)).last() == (k, v));
}

/// A consumer-offset table.
#[derive(Debug)]
pub struct OffsetTable {
    pub entries: Vec<(u64, u64)>,
}

impl View for OffsetTable {
    type V = Map<u64, u64>;

    open spec fn view(&self) -> Map<u64, u64> {
        entries_map(self.entries@)
    }
}

impl OffsetTable {
    /// The table's structural invariant: one entry per key.
    pub open spec fn wf(&self) -> bool {
        unique_keys(self.entries@)
    }

    /// An empty table.
    pub fn new() -> (r: OffsetTable)
        ensures
            r.wf(),
            r@ == Map::<u64, u64>::empty(),
    {
        OffsetTable { entries: Vec::new() }
    }

    /// The offset stored under `key`, if any.
    pub fn get(&self, key: u64) -> (r: Option<u64>)
        requires
            self.wf(),
        ensures
            r is Some <==> self@.contains_key(key),
            r is Some ==> r->0 == self@[key],
    {
        let mut i: usize = 0;
        while i < self.entries.len()
            invariant
                self.wf(),
                0 <= i <= self.entries@.len(),
                forall|j: int| 0 <= j < i ==> (#[trigger] self.entries@[j]).0 != key,
            decreases self.entries@.len() - i,
        {
            let (k, v) = self.entries[i];
            if k == key {
                proof {
                    lemma_entries_map_index(self.entries@, i as int);
                }
                return Some(v);
            }
            i = i + 1;
        }
        proof {
            lemma_entries_map_missing(self.entries@, key);
        }
        None
    }

    /// Stores `value` under `key`, replacing what was there.
    pub fn set(&mut self, key: u64, value: u64)
        requires
            old(self).wf(),
        ensures
            final(self).wf(),
            final(self)@ == old(self)@.insert(key, value),
    {
        let mut i: usize = 0;
        while i < self.entries.len()
            invariant
                self.wf(),
                self.entries@ == old(self).entries@,
                0 <= i <= self.entries@.len(),
                forall|j: int| 0 <= j < i ==> (#[trigger] self.entries@[j]).0 != key,
            decreases self.entries@.len() - i,
        {
            let (k, _) = self.entries[i];
            if k == key {
                proof {
                    lemma_entries_map_update(self.entries@, i as int, value);
                }
                self.entries[i] = (key, value);
                proof {
                    assert(self.entries@ =~= old(self).entries@.update(i as int, (key, value)));
                    assert forall|a: int, b: int|
                        0 <= a < b < self.entries@.len() implies (#[trigger] self.entries@[a]).0
                        != (#[trigger] self.entries@[b]).0 by {
                        assert(old(self).entries@[a].0 != old(self).entries@[b].0);
                    }
                }
                return ;
            }
            i = i + 1;
        }
        proof {
            lemma_entries_map_push(self.entries@, key, value);
        }
        self.entries.push((key, value));
    }

    /// Removes everything.
    pub fn clear(&mut self)
        ensures
            final(self).wf(),
            final(self)@ == Map::<u64, u64>::empty(),
    {
        self.entries.clear();
    }

    /// The stored entries, for persisting them.
    pub fn as_entries(&self) -> (r: &Vec<(u64, u64)>)
        ensures
            r@ == self.entries@,
    {
        &self.entries
    }
}

/// The table key of a consumer-group member: the group id in the high half,
/// the member id in the low half.
pub open spec fn spec_group_key(group_id: u32, consumer_id: u32) -> u64 {
    (group_id as u64 * 0x100000000 + consumer_id as u64) as u64
}

/// Computes the table key of a consumer-group member.
pub fn group_key(group_id: u32, consumer_id: u32) -> (r: u64)
    ensures
        r == spec_group_key(group_id, consumer_id),
{
    group_id as u64 * 0x100000000 + consumer_id as u64
}

} // verus!
