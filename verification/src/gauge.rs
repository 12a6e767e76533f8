use vstd::prelude::*;

verus! {

use crate::data::{Sample, SampleV};
use crate::kv::KvList;

/// The gauge view: an unsigned 64-bit last-write-wins value per registered
/// key.  Only `Value` samples move it; a registered key that was never
/// written reads as zero.  Deregistering stops further updates but does not
/// erase the recorded value.
pub struct Gauge {
    pub data: KvList<(bool, u64)>,
}

/// What one sample does to a gauge map: a `Value` sample overwrites a
/// registered key, everything else leaves the map alone.
pub open spec fn gauge_step(m: Map<Seq<char>, (bool, u64)>, s: SampleV) -> Map<
    Seq<char>,
    (bool, u64),
> {
    match s {
        SampleV::Value(k, v) => if m.contains_key(k) && m[k].0 {
            m.insert(k, (true, v))
        } else {
            m
        },
        _ => m,
    }
}

/// What a whole sequence of samples does to a gauge map, in order.
pub open spec fn gauge_apply(m: Map<Seq<char>, (bool, u64)>, s: Seq<SampleV>) -> Map<
    Seq<char>,
    (bool, u64),
>
    decreases s.len(),
{
    if s.len() == 0 {
        m
    } else {
        gauge_step(gauge_apply(m, s.drop_last()), s.last())
    }
}

/// The last value written for key `k` in a sample sequence, if any.
pub open spec fn last_write(k: Seq<char>, s: Seq<SampleV>) -> Option<u64>
    decreases s.len(),
{
    if s.len() == 0 {
        None
    } else {
        match s.last() {
            SampleV::Value(k2, v) => if k2 == k {
                Some(v)
            } else {
                last_write(k, s.drop_last())
            },
            _ => last_write(k, s.drop_last()),
        }
    }
}

impl Gauge {
    pub open spec fn view_map(&self) -> Map<Seq<char>, (bool, u64)> {
        self.data.view_map()
    }

    pub open spec fn wf(&self) -> bool {
        self.data.wf()
    }

    /// A gauge view with no keys.
    pub fn new() -> (r: Gauge)
        ensures
            r.wf(),
            r.view_map() == Map::<Seq<char>, (bool, u64)>::empty(),
    {
        Gauge { data: KvList::new() }
    }

    /// Registers a key: a fresh key starts at zero; a known key resumes its
    /// recorded value.
    pub fn register(&mut self, key: String)
        requires
            old(self).wf(),
        ensures
            final(self).wf(),
            final(self).view_map() == old(self).view_map().insert(
                key@,
                (
                    true,
                    if old(self).view_map().contains_key(key@) {
                        old(self).view_map()[key@].1
                    } else {
                        0u64
                    },
                ),
            ),
    {
        let value: u64 = match self.data.get(&key) {
            Some(v) => v.1,
            None => 0,
        };
        self.data.set(key, (true, value));
    }

    /// Deregisters a key: further updates are ignored, the value stays.
    pub fn deregister(&mut self, key: String)
        requires
            old(self).wf(),
        ensures
            final(self).wf(),
            final(self).view_map() == if old(self).view_map().contains_key(key@) {
                old(self).view_map().insert(key@, (false, old(self).view_map()[key@].1))
            } else {
                old(self).view_map()
            },
    {
        match self.data.index_of(&key) {
            Some(i) => {
                proof {
                    crate::kv::lemma_as_map_index(self.data.seq(), i as int);
                }
                let value = self.data.entry_at(i).1.1;
                self.data.set(key, (false, value));
                proof {
                    assert(final(self).view_map() =~= old(self).view_map().insert(
                        key@,
                        (false, old(self).view_map()[key@].1),
                    ));
                }
            },
            None => {
                proof {
                    crate::kv::lemma_as_map_absent(self.data.seq(), key@);
                }
            },
        }
    }

    /// Applies one sample, as `gauge_step` says.
    pub fn update(&mut self, sample: &Sample)
        requires
            old(self).wf(),
        ensures
            final(self).wf(),
            final(self).view_map() == gauge_step(old(self).view_map(), sample@),
    {
        match sample {
            Sample::Value(k, v) => {
                match self.data.index_of(k) {
                    Some(i) => {
                        proof {
                            crate::kv::lemma_as_map_index(self.data.seq(), i as int);
                        }
                        let e = self.data.entry_at(i);
                        if e.1.0 {
                            let key = e.0.clone();
                            self.data.set(key, (true, *v));
                        }
                    },
                    None => {
                        proof {
                            crate::kv::lemma_as_map_absent(self.data.seq(), k@);
                        }
                    },
                }
            },
            _ => {},
        }
    }

    /// The recorded value for a key; zero for a key never registered.
    pub fn value(&self, key: &String) -> (r: u64)
        requires
            self.wf(),
        ensures
            r == if self.view_map().contains_key(key@) {
                self.view_map()[key@].1
            } else {
                0u64
            },
    {
        match self.data.get(key) {
            Some(v) => v.1,
            None => 0,
        }
    }
}

/// After a finite sequence of samples, a registered key's gauge holds the
/// value of the last `Value` sample for it in submission order, or its
/// starting value when the sequence writes it never; registration is never
/// changed by samples.
pub proof fn lemma_gauge_last_write(m: Map<Seq<char>, (bool, u64)>, k: Seq<char>, s: Seq<SampleV>)
    requires
        m.contains_key(k),
        m[k].0,
    ensures
        gauge_apply(m, s).contains_key(k),
        gauge_apply(m, s)[k].0,
        gauge_apply(m, s)[k].1 == match last_write(k, s) {
            Some(v) => v,
            None => m[k].1,
        },
    decreases s.len(),
{
    if s.len() > 0 {
        lemma_gauge_last_write(m, k, s.drop_last());
    }
}

} // verus!
