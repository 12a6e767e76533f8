use vstd::prelude::*;

verus! {

use crate::data::{Sample, SampleV};
use crate::kv::KvList;
use vstd::wrapping::i64_specs;

/// The counter view: a signed 64-bit running total per registered key.
///
/// A `Timing` sample counts one event; a `Count` sample adds its signed
/// delta; a `Value` sample leaves counters alone.  Updates for unregistered
/// keys are ignored.  Deregistering stops further updates but does not erase
/// the recorded total.
pub struct Counter {
    pub data: KvList<(bool, i64)>,
}

/// What one sample does to a counter map: each entry is (still registered,
/// running total), and only registered keys move.
pub open spec fn counter_step(m: Map<Seq<char>, (bool, i64)>, s: SampleV) -> Map<
    Seq<char>,
    (bool, i64),
> {
    match s {
        SampleV::Timing(k, _, _, _) => counter_bump(m, k, 1i64),
        SampleV::Count(k, d) => counter_bump(m, k, d),
        SampleV::Value(_, _) => m,
    }
}

/// Adds a delta to a key's total, wrapping as 64-bit addition does, if the
/// key is registered.
pub open spec fn counter_bump(m: Map<Seq<char>, (bool, i64)>, k: Seq<char>, d: i64) -> Map<
    Seq<char>,
    (bool, i64),
> {
    if m.contains_key(k) && m[k].0 {
        m.insert(k, (true, i64_specs::wrapping_add(m[k].1, d)))
    } else {
        m
    }
}

/// What a whole sequence of samples does to a counter map, in order.
pub open spec fn counter_apply(m: Map<Seq<char>, (bool, i64)>, s: Seq<SampleV>) -> Map<
    Seq<char>,
    (bool, i64),
>
    decreases s.len(),
{
    if s.len() == 0 {
        m
    } else {
        counter_step(counter_apply(m, s.drop_last()), s.last())
    }
}

/// The algebraic contribution of a sample sequence to the count of key `k`:
/// one per timing event, the delta per count sample.
pub open spec fn count_delta(k: Seq<char>, s: Seq<SampleV>) -> int
    decreases s.len(),
{
    if s.len() == 0 {
        0
    } else {
        count_delta(k, s.drop_last()) + match s.last() {
            SampleV::Timing(k2, _, _, _) => if k2 == k {
                1int
            } else {
                0int
            },
            SampleV::Count(k2, d) => if k2 == k {
                d as int
            } else {
                0int
            },
            SampleV::Value(_, _) => 0int,
        }
    }
}

impl Counter {
    pub open spec fn view_map(&self) -> Map<Seq<char>, (bool, i64)> {
        self.data.view_map()
    }

    pub open spec fn wf(&self) -> bool {
        self.data.wf()
    }

    /// A counter view with no keys.
    pub fn new() -> (r: Counter)
        ensures
            r.wf(),
            r.view_map() == Map::<Seq<char>, (bool, i64)>::empty(),
    {
        Counter { data: KvList::new() }
    }

    /// Registers a key: a fresh key starts at zero; a known key resumes its
    /// recorded total.
    pub fn register(&mut self, key: String)
        requires
            old(self).wf(),
        ensures
            final(self).wf(),
            final(self).view_map() == old(self).view_map().insert(
                key@,
                (
                    true,
                    if old(self).view_map().contains_key(key@) {
                        old(self).view_map()[key@].1
                    } else {
                        0i64
                    },
                ),
            ),
    {
        let total: i64 = match self.data.get(&key) {
            Some(v) => v.1,
            None => 0,
        };
        self.data.set(key, (true, total));
    }

    /// Deregisters a key: further updates are ignored, the total stays.
    pub fn deregister(&mut self, key: String)
        requires
            old(self).wf(),
        ensures
            final(self).wf(),
            final(self).view_map() == if old(self).view_map().contains_key(key@) {
                old(self).view_map().insert(key@, (false, old(self).view_map()[key@].1))
            } else {
                old(self).view_map()
            },
    {
        match self.data.index_of(&key) {
            Some(i) => {
                proof {
                    crate::kv::lemma_as_map_index(self.data.seq(), i as int);
                }
                let total = self.data.entry_at(i).1.1;
                self.data.set(key, (false, total));
                proof {
                    assert(final(self).view_map() =~= old(self).view_map().insert(
                        key@,
                        (false, old(self).view_map()[key@].1),
                    ));
                }
            },
            None => {
                proof {
                    crate::kv::lemma_as_map_absent(self.data.seq(), key@);
                }
            },
        }
    }

    /// Applies one sample, as `counter_step` says.
    pub fn update(&mut self, sample: &Sample)
        requires
            old(self).wf(),
        ensures
            final(self).wf(),
            final(self).view_map() == counter_step(old(self).view_map(), sample@),
    {
        match sample {
            Sample::Timing(k, _, _, _) => self.bump(k, 1),
            Sample::Count(k, d) => self.bump(k, *d),
            Sample::Value(_, _) => {},
        }
    }

    fn bump(&mut self, key: &String, delta: i64)
        requires
            old(self).wf(),
        ensures
            final(self).wf(),
            final(self).view_map() == counter_bump(old(self).view_map(), key@, delta),
    {
        match self.data.index_of(key) {
            Some(i) => {
                proof {
                    crate::kv::lemma_as_map_index(self.data.seq(), i as int);
                }
                let e = self.data.entry_at(i);
                if e.1.0 {
                    let total = e.1.1.wrapping_add(delta);
                    let k = e.0.clone();
                    self.data.set(k, (true, total));
                }
            },
            None => {
                proof {
                    crate::kv::lemma_as_map_absent(self.data.seq(), key@);
                }
            },
        }
    }

    /// The recorded total for a key; zero for a key never registered.
    pub fn value(&self, key: &String) -> (r: i64)
        requires
            self.wf(),
        ensures
            r == if self.view_map().contains_key(key@) {
                self.view_map()[key@].1
            } else {
                0i64
            },
    {
        match self.data.get(key) {
            Some(v) => v.1,
            None => 0,
        }
    }
}

/// The count a registered key reports after a finite sequence of samples is
/// its starting total plus the algebraic sum of the sequence's timing events
/// and count deltas, provided no intermediate total leaves the signed 64-bit
/// range; registration is never changed by samples.
pub proof fn lemma_counter_accumulates(
    m: Map<Seq<char>, (bool, i64)>,
    k: Seq<char>,
    s: Seq<SampleV>,
)
    requires
        m.contains_key(k),
        m[k].0,
        forall|j: int|
            0 <= j <= s.len() ==> i64::MIN <= m[k].1 + #[trigger] count_delta(k, s.take(j))
                <= i64::MAX,
    ensures
        counter_apply(m, s).contains_key(k),
        counter_apply(m, s)[k].0,
        counter_apply(m, s)[k].1 == m[k].1 + count_delta(k, s),
    decreases s.len(),
{
    if s.len() == 0 {
    } else {
        let pre = s.drop_last();
        assert forall|j: int| 0 <= j <= pre.len() implies i64::MIN <= m[k].1
            + #[trigger] count_delta(k, pre.take(j)) <= i64::MAX by {
            assert(pre.take(j) =~= s.take(j));
            assert(i64::MIN <= m[k].1 + count_delta(k, s.take(j)) <= i64::MAX);
        }
        lemma_counter_accumulates(m, k, pre);
        assert(s.take(s.len() as int) =~= s);
        assert(s.take(pre.len() as int) =~= pre);
        assert(i64::MIN <= m[k].1 + count_delta(k, s) <= i64::MAX);
        assert(i64::MIN <= m[k].1 + count_delta(k, pre) <= i64::MAX);
    }
}

} // verus!
