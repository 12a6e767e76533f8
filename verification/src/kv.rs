use vstd::prelude::*;

verus! {

/// An association list from string keys to values, with distinct keys,
/// viewed as a mathematical map.  The aggregator's per-key view state lives
/// in these lists; the key cardinality is the caller's responsibility, so a
/// linear scan per sample is acceptable.
pub struct KvList<V> {
    pub entries: Vec<(String, V)>,
}

/// The map an entry sequence denotes; later entries would win, but the
/// well-formedness invariant keeps keys distinct.
pub open spec fn as_map<V>(s: Seq<(String, V)>) -> Map<Seq<char>, V>
    decreases s.len(),
{
    if s.len() == 0 {
        Map::empty()
    } else {
        as_map(s.drop_last()).insert(s.last().0@, s.last().1)
    }
}

/// Keys are pairwise distinct.
pub open spec fn keys_distinct<V>(s: Seq<(String, V)>) -> bool {
    forall|i: int, j: int| 0 <= i < j < s.len() ==> (#[trigger] s[i]).0@ != (#[trigger] s[j]).0@
}

/// Every key of the denoted map is the key of some entry, and every entry
/// is bound in the map to its own value.
pub proof fn lemma_as_map_index<V>(s: Seq<(String, V)>, i: int)
    requires
        keys_distinct(s),
        0 <= i < s.len(),
    ensures
        as_map(s).contains_key(s[i].0@),
        as_map(s)[s[i].0@] == s[i].1,
    decreases s.len(),
{
    if i < s.len() - 1 {
        lemma_as_map_index(s.drop_last(), i);
    }
}

/// A key of the denoted map is the key of some entry.
pub proof fn lemma_as_map_contains<V>(s: Seq<(String, V)>, k: Seq<char>)
    requires
        as_map(s).contains_key(k),
    ensures
        exists|i: int| 0 <= i < s.len() && (#[trigger] s[i]).0@ == k,
    decreases s.len(),
{
    if s.len() > 0 {
        if s.last().0@ == k {
            assert(s[s.len() - 1].0@ == k);
        } else {
            lemma_as_map_contains(s.drop_last(), k);
            let i = choose|i: int| 0 <= i < s.drop_last().len() && (#[trigger] s.drop_last()[i]).0@
                == k;
            assert(s[i].0@ == k);
        }
    }
}

pub proof fn lemma_as_map_absent<V>(s: Seq<(String, V)>, k: Seq<char>)
    requires
        forall|i: int| 0 <= i < s.len() ==> (#[trigger] s[i]).0@ != k,
    ensures
        !as_map(s).contains_key(k),
    decreases s.len(),
{
    if s.len() > 0 {
        lemma_as_map_absent(s.drop_last(), k);
    }
}

/// Replacing the value at one index, keeping its key, denotes an insert.
pub proof fn lemma_as_map_update<V>(s: Seq<(String, V)>, i: int, e: (String, V))
    requires
        keys_distinct(s),
        0 <= i < s.len(),
        e.0@ == s[i].0@,
    ensures
        as_map(s.update(i, e)) == as_map(s).insert(s[i].0@, e.1),
        keys_distinct(s.update(i, e)),
    decreases s.len(),
{
    let t = s.update(i, e);
    if i == s.len() - 1 {
        assert(t.drop_last() =~= s.drop_last());
        assert(as_map(t) =~= as_map(s).insert(s[i].0@, e.1));
    } else {
        lemma_as_map_update(s.drop_last(), i, e);
        assert(t.drop_last() =~= s.drop_last().update(i, e));
        assert(t.last() == s.last());
        assert(as_map(t) =~= as_map(s).insert(s[i].0@, e.1));
    }
}

impl<V> KvList<V> {
    /// The denoted map.
    pub open spec fn view_map(&self) -> Map<Seq<char>, V> {
        as_map(self.entries@)
    }

    /// The entry sequence itself, for iteration.
    pub open spec fn seq(&self) -> Seq<(String, V)> {
        self.entries@
    }

    /// Distinct keys.
    pub open spec fn wf(&self) -> bool {
        keys_distinct(self.entries@)
    }

    /// An empty list.
    pub fn new() -> (r: KvList<V>)
        ensures
            r.wf(),
            r.view_map() == Map::<Seq<char>, V>::empty(),
            r.seq().len() == 0,
    {
        KvList { entries: Vec::new() }
    }

    /// The number of entries.
    pub fn len(&self) -> (r: usize)
        ensures
            r == self.seq().len(),
    {
        self.entries.len()
    }

    /// The entry at an index.
    pub fn entry_at(&self, i: usize) -> (r: &(String, V))
        requires
            i < self.seq().len(),
        ensures
            *r == self.seq()[i as int],
    {
        &self.entries[i]
    }

    /// The index of the entry with the given key, if any.
    pub fn index_of(&self, key: &String) -> (r: Option<usize>)
        ensures
            match r {
                Some(i) => i < self.seq().len() && self.seq()[i as int].0@ == key@,
                None => forall|i: int|
                    0 <= i < self.seq().len() ==> (#[trigger] self.seq()[i]).0@ != key@,
            },
    {
        let mut i: usize = 0;
        while i < self.entries.len()
            invariant
                0 <= i <= self.seq().len(),
                forall|j: int| 0 <= j < i ==> (#[trigger] self.seq()[j]).0@ != key@,
            decreases self.seq().len() - i,
        {
            if self.entries[i].0 == *key {
                return Some(i);
            }
            i = i + 1;
        }
        None
    }

    /// Binds the key to the value, replacing any earlier binding.
    pub fn set(&mut self, key: String, value: V)
        requires
            old(self).wf(),
        ensures
            final(self).wf(),
            final(self).view_map() == old(self).view_map().insert(key@, value),
            final(self).seq().len() <= old(self).seq().len() + 1,
            forall|j: int|
                0 <= j < final(self).seq().len() ==> (#[trigger] final(self).seq()[j]) == (
                key,
                value,
            ) || (j < old(self).seq().len() && final(self).seq()[j] == old(self).seq()[j]),
    {
        match self.index_of(&key) {
            Some(i) => {
                proof {
                    lemma_as_map_update(self.seq(), i as int, (key, value));
                }
                self.entries[i] = (key, value);
            },
            None => {
                proof {
                    assert(self.seq().push((key, value)).drop_last() =~= self.seq());
                }
                self.entries.push((key, value));
            },
        }
    }

    /// The value bound to the key, if any.
    pub fn get(&self, key: &String) -> (r: Option<&V>)
        requires
            self.wf(),
        ensures
            match r {
                Some(v) => self.view_map().contains_key(key@) && *v == self.view_map()[key@],
                None => !self.view_map().contains_key(key@),
            },
    {
        match self.index_of(key) {
            Some(i) => {
                proof {
                    lemma_as_map_index(self.seq(), i as int);
                }
                Some(&self.entries[i].1)
            },
            None => {
                proof {
                    lemma_as_map_absent(self.seq(), key@);
                }
                None
            },
        }
    }

    /// A mutable borrow of the value at an index; the denoted map follows
    /// whatever the caller writes through it.
    pub fn value_at_mut(&mut self, i: usize) -> (r: &mut V)
        requires
            old(self).wf(),
            i < old(self).seq().len(),
        ensures
            *r == old(self).seq()[i as int].1,
            final(self).seq() == old(self).seq().update(
                i as int,
                (old(self).seq()[i as int].0, *final(r)),
            ),
            final(self).wf(),
            final(self).view_map() == old(self).view_map().insert(
                old(self).seq()[i as int].0@,
                *final(r),
            ),
    {
        proof {
            lemma_as_map_update(
                self.seq(),
                i as int,
                (self.seq()[i as int].0, final(self).seq()[i as int].1),
            );
        }
        &mut self.entries[i].1
    }
}

} // verus!
