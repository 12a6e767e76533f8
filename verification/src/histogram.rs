use vstd::prelude::*;

verus! {

use vstd::multiset::Multiset;
use crate::data::{Sample, SampleV};
use crate::hdr::{
    Hist,
    hist_of,
    hdr_standard,
    hist_record,
    hist_add,
    hist_reset,
    hist_is_empty,
    hist_clone,
    fresh_histogram,
    hdr_equiv,
};
use crate::kv::KvList;

broadcast use vstd::multiset::group_multiset_axioms;

/// The per-key state of the windowed histogram view: a ring of
/// sub-histograms covering the window, the index of the current slot, the
/// instant of the last rotation, and a live aggregate equal to the merge of
/// the whole ring.
pub struct HistEntry {
    pub active: bool,
    pub ring: Vec<Hist>,
    pub head: usize,
    pub t_last: u64,
    pub live: Hist,
}

/// The mathematical value of a per-key windowed histogram: whether it still
/// accepts updates, its last rotation instant, and what the window holds.
pub struct HistView {
    pub active: bool,
    pub t_last: u64,
    pub window: Multiset<u64>,
}

/// The merge of a sequence of slot contents.
pub open spec fn msum(s: Seq<Multiset<u64>>) -> Multiset<u64>
    decreases s.len(),
{
    if s.len() == 0 {
        Multiset::empty()
    } else {
        msum(s.drop_last()).add(s.last())
    }
}

/// A ring index advanced past the head, wrapping once at the slot count.
pub open spec fn wrap_idx(x: int, slots: int) -> int {
    if x < slots {
        x
    } else {
        x - slots
    }
}

/// Whether ring slot `j` is among the `steps` slots the head passes when a
/// rotation starts at `head0`.
pub open spec fn rolled_index(head0: int, steps: int, slots: int, j: int) -> bool {
    exists|d: int| 1 <= d <= steps && j == #[trigger] wrap_idx(head0 + d, slots)
}

/// The contents of each ring slot, in ring order.
pub open spec fn entry_slots(e: HistEntry) -> Seq<Multiset<u64>> {
    e.ring@.map_values(|h: Hist| hist_of(h))
}

/// The number of whole intervals between the last rotation and `now`.
pub open spec fn steps_between(t_last: u64, now: u64, interval: u64) -> int {
    if now >= t_last + interval {
        (now - t_last) / (interval as int)
    } else {
        0
    }
}

/// How upkeep at `now` relates a key's ring before and after: no elapsed
/// interval leaves it alone; a full window's worth of rotations clears
/// every slot; a partial rotation advances the head by the elapsed steps
/// and clears exactly the slots it passes, leaving the rest untouched.
pub open spec fn upkept_slots(
    h0: (int, Seq<Multiset<u64>>),
    h1: (int, Seq<Multiset<u64>>),
    t_last0: u64,
    now: u64,
    interval: u64,
    slots: int,
) -> bool {
    let steps = steps_between(t_last0, now, interval);
    if steps == 0 {
        h1 == h0
    } else if steps >= slots {
        h1.0 == h0.0 && h1.1.len() == h0.1.len() && forall|j: int|
            0 <= j < h1.1.len() ==> h1.1[j] == Multiset::<u64>::empty()
    } else {
        &&& h1.0 == wrap_idx(h0.0 + steps, slots)
        &&& h1.1.len() == h0.1.len()
        &&& forall|j: int|
            0 <= j < h1.1.len() ==> h1.1[j] == (if rolled_index(h0.0, steps, slots, j) {
                Multiset::<u64>::empty()
            } else {
                h0.1[j]
            })
    }
}

/// The merge of a ring of sub-histograms.
pub open spec fn ring_sum(s: Seq<Hist>) -> Multiset<u64>
    decreases s.len(),
{
    if s.len() == 0 {
        Multiset::empty()
    } else {
        ring_sum(s.drop_last()).add(hist_of(s.last()))
    }
}

pub open spec fn entry_wf(e: HistEntry, slots: int) -> bool {
    &&& e.ring@.len() == slots
    &&& (e.head as int) < slots
    &&& forall|i: int| 0 <= i < e.ring@.len() ==> hdr_standard(#[trigger] e.ring@[i])
    &&& hdr_standard(e.live)
    &&& hist_of(e.live) == ring_sum(e.ring@)
}

pub open spec fn entry_view(e: HistEntry) -> HistView {
    HistView { active: e.active, t_last: e.t_last, window: hist_of(e.live) }
}

/// The windowed histogram view: per key, a ring of N sub-histograms
/// covering a window W at interval I (N = W/I), rotated by `upkeep`, plus a
/// live aggregate that the snapshot clones.
pub struct Histogram {
    pub window_ns: u64,
    pub interval_ns: u64,
    pub slots: usize,
    pub data: KvList<HistEntry>,
}

/// The nanoseconds a timing sample records: the saturating difference of
/// its end and start instants.
pub open spec fn timing_nanos(start: u64, end: u64) -> u64 {
    if end >= start {
        (end - start) as u64
    } else {
        0u64
    }
}

/// What one sample adds to a key's window: timing samples their duration,
/// value samples their raw value, count samples nothing.
pub open spec fn window_step(m: Map<Seq<char>, HistView>, s: SampleV) -> Map<Seq<char>, HistView> {
    match s {
        SampleV::Timing(k, t0, t1, _) => window_record(m, k, timing_nanos(t0, t1)),
        SampleV::Value(k, v) => window_record(m, k, v),
        SampleV::Count(_, _) => m,
    }
}

/// What a whole sequence of samples does to the windows, in order.
pub open spec fn window_apply(m: Map<Seq<char>, HistView>, s: Seq<SampleV>) -> Map<
    Seq<char>,
    HistView,
>
    decreases s.len(),
{
    if s.len() == 0 {
        m
    } else {
        window_step(window_apply(m, s.drop_last()), s.last())
    }
}

/// Records one value into a registered key's window, under the histogram's
/// bucketing.
pub open spec fn window_record(m: Map<Seq<char>, HistView>, k: Seq<char>, v: u64) -> Map<
    Seq<char>,
    HistView,
> {
    if m.contains_key(k) && m[k].active {
        m.insert(
            k,
            HistView {
                active: true,
                t_last: m[k].t_last,
                window: m[k].window.insert(hdr_equiv(v)),
            },
        )
    } else {
        m
    }
}

/// What recording one value does to the slot view: the bucketed value
/// lands in the current head slot of a registered key; heads and all other
/// slots stay.
pub open spec fn slots_record(
    m: Map<Seq<char>, (int, Seq<Multiset<u64>>)>,
    w: Map<Seq<char>, HistView>,
    k: Seq<char>,
    v: u64,
) -> Map<Seq<char>, (int, Seq<Multiset<u64>>)> {
    if w.contains_key(k) && w[k].active && m.contains_key(k) {
        m.insert(
            k,
            (m[k].0, m[k].1.update(m[k].0, m[k].1[m[k].0].insert(hdr_equiv(v)))),
        )
    } else {
        m
    }
}

/// What one sample does to the slot view, mirroring `window_step`.
pub open spec fn slots_step(
    m: Map<Seq<char>, (int, Seq<Multiset<u64>>)>,
    w: Map<Seq<char>, HistView>,
    s: SampleV,
) -> Map<Seq<char>, (int, Seq<Multiset<u64>>)> {
    match s {
        SampleV::Timing(k, t0, t1, _) => slots_record(m, w, k, timing_nanos(t0, t1)),
        SampleV::Value(k, v) => slots_record(m, w, k, v),
        SampleV::Count(_, _) => m,
    }
}

proof fn lemma_ring_sum_update(s: Seq<Hist>, i: int, h: Hist, x: u64)
    requires
        0 <= i < s.len(),
        hist_of(h) == hist_of(s[i]).insert(x),
    ensures
        ring_sum(s.update(i, h)) == ring_sum(s).insert(x),
    decreases s.len(),
{
    let t = s.update(i, h);
    if i == s.len() - 1 {
        assert(t.drop_last() =~= s.drop_last());
        assert(ring_sum(t) =~= ring_sum(s).insert(x));
    } else {
        lemma_ring_sum_update(s.drop_last(), i, h, x);
        assert(t.drop_last() =~= s.drop_last().update(i, h));
        assert(t.last() == s.last());
        assert(ring_sum(t) =~= ring_sum(s).insert(x));
    }
}

proof fn lemma_ring_sum_le(s1: Seq<Hist>, s2: Seq<Hist>)
    requires
        s1.len() == s2.len(),
        forall|i: int|
            0 <= i < s1.len() ==> hist_of(#[trigger] s1[i]) == hist_of(s2[i]) || hist_of(s1[i])
                == Multiset::<u64>::empty(),
    ensures
        ring_sum(s1).subset_of(ring_sum(s2)),
    decreases s1.len(),
{
    if s1.len() > 0 {
        lemma_ring_sum_le(s1.drop_last(), s2.drop_last());
        assert forall|v: u64| ring_sum(s1).count(v) <= ring_sum(s2).count(v) by {
            assert(ring_sum(s1.drop_last()).count(v) <= ring_sum(s2.drop_last()).count(v));
            assert(hist_of(s1.last()).count(v) <= hist_of(s2.last()).count(v));
        }
    }
}

proof fn lemma_ring_sum_all_empty(s: Seq<Hist>)
    requires
        forall|i: int| 0 <= i < s.len() ==> hist_of(#[trigger] s[i]) == Multiset::<u64>::empty(),
    ensures
        ring_sum(s) == Multiset::<u64>::empty(),
    decreases s.len(),
{
    if s.len() > 0 {
        lemma_ring_sum_all_empty(s.drop_last());
        assert(ring_sum(s) =~= Multiset::<u64>::empty());
    }
}

proof fn lemma_msum_ring(s: Seq<Hist>)
    ensures
        msum(s.map_values(|h: Hist| hist_of(h))) == ring_sum(s),
    decreases s.len(),
{
    if s.len() > 0 {
        lemma_msum_ring(s.drop_last());
        assert(s.map_values(|h: Hist| hist_of(h)).drop_last() =~= s.drop_last().map_values(
            |h: Hist| hist_of(h),
        ));
    }
}

/// A mutable borrow of one slot of a ring.
fn slot_mut(ring: &mut Vec<Hist>, i: usize) -> (r: &mut Hist)
    requires
        i < old(ring)@.len(),
    ensures
        *r == old(ring)@[i as int],
        final(ring)@ == old(ring)@.update(i as int, *final(r)),
{
    &mut ring[i]
}

impl Histogram {
    pub open spec fn wf(&self) -> bool {
        &&& self.data.wf()
        &&& self.slots >= 1
        &&& self.interval_ns >= 1
        &&& forall|j: int|
            0 <= j < self.data.seq().len() ==> entry_wf(
                (#[trigger] self.data.seq()[j]).1,
                self.slots as int,
            )
    }

    /// Per key: registration, last rotation instant, and window contents.
    pub open spec fn view_map(&self) -> Map<Seq<char>, HistView> {
        self.data.view_map().map_values(|e: HistEntry| entry_view(e))
    }

    /// Per key: the head index and each ring slot's contents, in ring
    /// order.  The window is the merge of the slots
    /// (`lemma_window_is_slot_sum`).
    pub open spec fn slots_map(&self) -> Map<Seq<char>, (int, Seq<Multiset<u64>>)> {
        self.data.view_map().map_values(|e: HistEntry| (e.head as int, entry_slots(e)))
    }

    /// A windowed histogram view covering `window_ns` at `interval_ns`.
    pub fn new(window_ns: u64, interval_ns: u64) -> (r: Histogram)
        requires
            interval_ns >= 1,
            window_ns / interval_ns <= usize::MAX,
        ensures
            r.wf(),
            r.view_map() == Map::<Seq<char>, HistView>::empty(),
            r.window_ns == window_ns,
            r.interval_ns == interval_ns,
            r.slots as int == if window_ns / interval_ns < 1 {
                1int
            } else {
                (window_ns / interval_ns) as int
            },
    {
        let q = window_ns / interval_ns;
        let slots: usize = if q < 1 {
            1
        } else {
            q as usize
        };
        let r = Histogram { window_ns, interval_ns, slots, data: KvList::new() };
        proof {
            assert(r.view_map() =~= Map::<Seq<char>, HistView>::empty());
        }
        r
    }

    /// Registers a key: a fresh key gets an empty ring; a known key resumes
    /// its recorded window.
    pub fn register(&mut self, key: String)
        requires
            old(self).wf(),
        ensures
            final(self).wf(),
            final(self).slots == old(self).slots,
            final(self).window_ns == old(self).window_ns,
            final(self).interval_ns == old(self).interval_ns,
            final(self).view_map() == old(self).view_map().insert(
                key@,
                if old(self).view_map().contains_key(key@) {
                    HistView {
                        active: true,
                        t_last: old(self).view_map()[key@].t_last,
                        window: old(self).view_map()[key@].window,
                    }
                } else {
                    HistView { active: true, t_last: 0u64, window: Multiset::empty() }
                },
            ),
    {
        let ghost pre = *self;
        match self.data.index_of(&key) {
            Some(i) => {
                proof {
                    crate::kv::lemma_as_map_index(self.data.seq(), i as int);
                }
                let e = self.data.value_at_mut(i);
                e.active = true;
                proof {
                    assert(final(self).view_map() =~= pre.view_map().insert(
                        key@,
                        HistView {
                            active: true,
                            t_last: pre.view_map()[key@].t_last,
                            window: pre.view_map()[key@].window,
                        },
                    ));
                }
            },
            None => {
                proof {
                    crate::kv::lemma_as_map_absent(self.data.seq(), key@);
                }
                let mut ring: Vec<Hist> = Vec::new();
                let mut i: usize = 0;
                while i < self.slots
                    invariant
                        0 <= i <= self.slots,
                        ring@.len() == i,
                        forall|j: int| 0 <= j < i ==> hdr_standard(#[trigger] ring@[j]),
                        forall|j: int|
                            0 <= j < i ==> hist_of(#[trigger] ring@[j]) == Multiset::<
                                u64,
                            >::empty(),
                    decreases self.slots - i,
                {
                    ring.push(fresh_histogram());
                    i = i + 1;
                }
                let live = fresh_histogram();
                let entry = HistEntry { active: true, ring, head: 0, t_last: 0, live };
                proof {
                    lemma_ring_sum_all_empty(entry.ring@);
                }
                self.data.set(key, entry);
                proof {
                    assert(final(self).view_map() =~= pre.view_map().insert(
                        key@,
                        HistView { active: true, t_last: 0u64, window: Multiset::empty() },
                    ));
                }
            },
        }
    }

    /// Deregisters a key: further updates are ignored, the window stays.
    pub fn deregister(&mut self, key: String)
        requires
            old(self).wf(),
        ensures
            final(self).wf(),
            final(self).slots == old(self).slots,
            final(self).window_ns == old(self).window_ns,
            final(self).interval_ns == old(self).interval_ns,
            final(self).view_map() == if old(self).view_map().contains_key(key@) {
                old(self).view_map().insert(
                    key@,
                    HistView {
                        active: false,
                        t_last: old(self).view_map()[key@].t_last,
                        window: old(self).view_map()[key@].window,
                    },
                )
            } else {
                old(self).view_map()
            },
    {
        let ghost pre = *self;
        match self.data.index_of(&key) {
            Some(i) => {
                proof {
                    crate::kv::lemma_as_map_index(self.data.seq(), i as int);
                }
                let e = self.data.value_at_mut(i);
                e.active = false;
                proof {
                    assert(final(self).view_map() =~= pre.view_map().insert(
                        key@,
                        HistView {
                            active: false,
                            t_last: pre.view_map()[key@].t_last,
                            window: pre.view_map()[key@].window,
                        },
                    ));
                }
            },
            None => {
                proof {
                    crate::kv::lemma_as_map_absent(self.data.seq(), key@);
                }
            },
        }
    }

    /// Applies one sample, as `window_step` says: the recorded value lands
    /// in the current slot and in the live aggregate.
    pub fn update(&mut self, sample: &Sample)
        requires
            old(self).wf(),
        ensures
            final(self).wf(),
            final(self).slots == old(self).slots,
            final(self).window_ns == old(self).window_ns,
            final(self).interval_ns == old(self).interval_ns,
            final(self).view_map() == window_step(old(self).view_map(), sample@),
            final(self).slots_map() == slots_step(
                old(self).slots_map(),
                old(self).view_map(),
                sample@,
            ),
    {
        match sample {
            Sample::Timing(k, start, end, _) => {
                let v: u64 = if *end >= *start {
                    *end - *start
                } else {
                    0
                };
                self.record(k, v);
            },
            Sample::Value(k, v) => self.record(k, *v),
            Sample::Count(_, _) => {},
        }
    }

    fn record(&mut self, key: &String, value: u64)
        requires
            old(self).wf(),
        ensures
            final(self).wf(),
            final(self).slots == old(self).slots,
            final(self).window_ns == old(self).window_ns,
            final(self).interval_ns == old(self).interval_ns,
            final(self).view_map() == window_record(old(self).view_map(), key@, value),
            final(self).slots_map() == slots_record(
                old(self).slots_map(),
                old(self).view_map(),
                key@,
                value,
            ),
    {
        let ghost pre = *self;
        match self.data.index_of(key) {
            Some(i) => {
                proof {
                    crate::kv::lemma_as_map_index(self.data.seq(), i as int);
                }
                let ghost x = hdr_equiv(value);
                let e = self.data.value_at_mut(i);
                if e.active {
                    let ghost ring0 = e.ring@;
                    let head = e.head;
                    let slot = slot_mut(&mut e.ring, head);
                    hist_record(slot, value);
                    hist_record(&mut e.live, value);
                    proof {
                        assert(e.ring@ =~= ring0.update(head as int, e.ring@[head as int]));
                        lemma_ring_sum_update(ring0, head as int, e.ring@[head as int], x);
                        assert(entry_slots(*e) =~= ring0.map_values(|h: Hist| hist_of(h)).update(
                            head as int,
                            hist_of(ring0[head as int]).insert(x),
                        ));
                    }
                }
                proof {
                    assert(self.view_map() =~= window_record(pre.view_map(), key@, value));
                    assert(self.slots_map() =~= slots_record(
                        pre.slots_map(),
                        pre.view_map(),
                        key@,
                        value,
                    ));
                }
            },
            None => {
                proof {
                    crate::kv::lemma_as_map_absent(self.data.seq(), key@);
                    assert(self.view_map() =~= window_record(pre.view_map(), key@, value));
                    assert(self.slots_map() =~= slots_record(
                        pre.slots_map(),
                        pre.view_map(),
                        key@,
                        value,
                    ));
                }
            },
        }
    }

    /// Rotates every key's ring forward to `now` and keeps each live
    /// aggregate equal to the merge of its ring.  Rotation never adds data;
    /// once a full window has elapsed with no new samples, nothing remains.
    pub fn upkeep(&mut self, now: u64)
        requires
            old(self).wf(),
        ensures
            final(self).wf(),
            final(self).slots == old(self).slots,
            final(self).window_ns == old(self).window_ns,
            final(self).interval_ns == old(self).interval_ns,
            final(self).view_map().dom() == old(self).view_map().dom(),
            forall|k: Seq<char>|
                #[trigger] old(self).view_map().contains_key(k) ==> upkept_view(
                    old(self).view_map()[k],
                    final(self).view_map()[k],
                    now,
                    old(self).interval_ns,
                    old(self).slots as int,
                ),
            final(self).slots_map().dom() == old(self).slots_map().dom(),
            forall|k: Seq<char>|
                #[trigger] old(self).view_map().contains_key(k) ==> upkept_slots(
                    old(self).slots_map()[k],
                    final(self).slots_map()[k],
                    old(self).view_map()[k].t_last,
                    now,
                    old(self).interval_ns,
                    old(self).slots as int,
                ),
    {
        let ghost pre = *self;
        let interval = self.interval_ns;
        let slots = self.slots;
        let mut j: usize = 0;
        let n = self.data.len();
        while j < n
            invariant
                0 <= j <= n,
                n == pre.data.seq().len(),
                self.slots == pre.slots,
                self.window_ns == pre.window_ns,
                self.interval_ns == pre.interval_ns,
                interval == pre.interval_ns,
                slots == pre.slots,
                pre.wf(),
                self.data.wf(),
                self.data.seq().len() == n,
                forall|idx: int|
                    0 <= idx < n ==> (#[trigger] self.data.seq()[idx]).0 == pre.data.seq()[idx].0,
                forall|idx: int|
                    j <= idx < n ==> (#[trigger] self.data.seq()[idx]).1 == pre.data.seq()[idx].1,
                forall|idx: int|
                    0 <= idx < j ==> upkept(
                        pre.data.seq()[idx].1,
                        (#[trigger] self.data.seq()[idx]).1,
                        now,
                        interval,
                        slots as int,
                    ),
                forall|idx: int|
                    0 <= idx < j ==> upkept_slots(
                        (pre.data.seq()[idx].1.head as int, entry_slots(pre.data.seq()[idx].1)),
                        (
                            (#[trigger] self.data.seq()[idx]).1.head as int,
                            entry_slots(self.data.seq()[idx].1),
                        ),
                        pre.data.seq()[idx].1.t_last,
                        now,
                        interval,
                        slots as int,
                    ),
                forall|idx: int|
                    0 <= idx < n ==> entry_wf((#[trigger] self.data.seq()[idx]).1, slots as int),
            decreases n - j,
        {
            let e = self.data.value_at_mut(j);
            entry_upkeep(e, now, interval, slots);
            j = j + 1;
        }
        proof {
            self.lemma_upkeep_view(pre, now);
        }
    }

    proof fn lemma_upkeep_view(&self, pre: Histogram, now: u64)
        requires
            pre.wf(),
            self.data.wf(),
            self.slots == pre.slots,
            self.interval_ns == pre.interval_ns,
            self.data.seq().len() == pre.data.seq().len(),
            forall|idx: int|
                0 <= idx < pre.data.seq().len() ==> (#[trigger] self.data.seq()[idx]).0
                    == pre.data.seq()[idx].0,
            forall|idx: int|
                0 <= idx < pre.data.seq().len() ==> upkept(
                    pre.data.seq()[idx].1,
                    (#[trigger] self.data.seq()[idx]).1,
                    now,
                    pre.interval_ns,
                    pre.slots as int,
                ),
            forall|idx: int|
                0 <= idx < pre.data.seq().len() ==> upkept_slots(
                    (pre.data.seq()[idx].1.head as int, entry_slots(pre.data.seq()[idx].1)),
                    (
                        (#[trigger] self.data.seq()[idx]).1.head as int,
                        entry_slots(self.data.seq()[idx].1),
                    ),
                    pre.data.seq()[idx].1.t_last,
                    now,
                    pre.interval_ns,
                    pre.slots as int,
                ),
        ensures
            self.view_map().dom() == pre.view_map().dom(),
            forall|k: Seq<char>|
                #[trigger] pre.view_map().contains_key(k) ==> upkept_view(
                    pre.view_map()[k],
                    self.view_map()[k],
                    now,
                    pre.interval_ns,
                    pre.slots as int,
                ),
            self.slots_map().dom() == pre.slots_map().dom(),
            forall|k: Seq<char>|
                #[trigger] pre.view_map().contains_key(k) ==> upkept_slots(
                    pre.slots_map()[k],
                    self.slots_map()[k],
                    pre.view_map()[k].t_last,
                    now,
                    pre.interval_ns,
                    pre.slots as int,
                ),
    {
        assert forall|k: Seq<char>| #[trigger]
            pre.view_map().contains_key(k) implies self.view_map().contains_key(k) && upkept_view(
            pre.view_map()[k],
            self.view_map()[k],
            now,
            pre.interval_ns,
            pre.slots as int,
        ) && upkept_slots(
            pre.slots_map()[k],
            self.slots_map()[k],
            pre.view_map()[k].t_last,
            now,
            pre.interval_ns,
            pre.slots as int,
        ) by {
            crate::kv::lemma_as_map_contains(pre.data.seq(), k);
            let i = choose|i: int|
                0 <= i < pre.data.seq().len() && (#[trigger] pre.data.seq()[i]).0@ == k;
            crate::kv::lemma_as_map_index(pre.data.seq(), i);
            crate::kv::lemma_as_map_index(self.data.seq(), i);
        }
        assert forall|k: Seq<char>| #[trigger]
            self.view_map().contains_key(k) implies pre.view_map().contains_key(k) by {
            crate::kv::lemma_as_map_contains(self.data.seq(), k);
            let i = choose|i: int|
                0 <= i < self.data.seq().len() && (#[trigger] self.data.seq()[i]).0@ == k;
            crate::kv::lemma_as_map_index(pre.data.seq(), i);
        }
        assert(self.view_map().dom() =~= pre.view_map().dom());
        assert(self.slots_map().dom() =~= pre.slots_map().dom());
    }

    /// Each key's window is exactly the merge of its ring slots.
    pub proof fn lemma_window_is_slot_sum(&self)
        requires
            self.wf(),
        ensures
            forall|k: Seq<char>| #[trigger]
                self.view_map().contains_key(k) ==> self.slots_map().contains_key(k)
                    && self.view_map()[k].window == msum(self.slots_map()[k].1),
    {
        assert forall|k: Seq<char>| #[trigger]
            self.view_map().contains_key(k) implies self.slots_map().contains_key(k)
            && self.view_map()[k].window == msum(self.slots_map()[k].1) by {
            crate::kv::lemma_as_map_contains(self.data.seq(), k);
            let i = choose|i: int|
                0 <= i < self.data.seq().len() && (#[trigger] self.data.seq()[i]).0@ == k;
            crate::kv::lemma_as_map_index(self.data.seq(), i);
            lemma_msum_ring(self.data.seq()[i].1.ring@);
        }
    }

    /// The merged window for a key: a clone of the live aggregate, if the
    /// key is registered and its window holds any data.
    pub fn snapshot(&self, key: &String) -> (r: Option<Hist>)
        requires
            self.wf(),
        ensures
            match r {
                Some(h) => self.view_map().contains_key(key@) && self.view_map()[key@].active
                    && self.view_map()[key@].window != Multiset::<u64>::empty() && hdr_standard(h)
                    && hist_of(h) == self.view_map()[key@].window,
                None => !self.view_map().contains_key(key@) || !self.view_map()[key@].active
                    || self.view_map()[key@].window == Multiset::<u64>::empty(),
            },
    {
        match self.data.index_of(key) {
            Some(i) => {
                proof {
                    crate::kv::lemma_as_map_index(self.data.seq(), i as int);
                }
                let e = &self.data.entry_at(i).1;
                if e.active && !hist_is_empty(&e.live) {
                    Some(hist_clone(&e.live))
                } else {
                    None
                }
            },
            None => {
                proof {
                    crate::kv::lemma_as_map_absent(self.data.seq(), key@);
                }
                None
            },
        }
    }
}

/// The last-rotation instant after upkeep at `now`: advanced by whole
/// intervals, never past `now`.
pub open spec fn upkeep_t(t: u64, now: u64, interval: u64) -> int {
    if now >= t + interval {
        t + ((now - t) / (interval as int)) * interval
    } else {
        t as int
    }
}

/// How upkeep at `now` relates an entry's old and new state.
pub open spec fn upkept(e0: HistEntry, e1: HistEntry, now: u64, interval: u64, slots: int) -> bool {
    upkept_view(entry_view(e0), entry_view(e1), now, interval, slots)
}

/// How upkeep at `now` relates a key's old and new view: registration is
/// kept, the rotation instant advances by whole intervals, rotation never
/// adds data, a full elapsed window leaves nothing, and less than one
/// elapsed interval changes nothing.
pub open spec fn upkept_view(
    v0: HistView,
    v1: HistView,
    now: u64,
    interval: u64,
    slots: int,
) -> bool {
    &&& v1.active == v0.active
    &&& v1.t_last == upkeep_t(v0.t_last, now, interval)
    &&& v1.window.subset_of(v0.window)
    &&& now >= v0.t_last + slots * interval ==> v1.window == Multiset::<u64>::empty()
    &&& now < v0.t_last + interval ==> v1.window == v0.window
}

/// Rotates one entry forward to `now`.
fn entry_upkeep(e: &mut HistEntry, now: u64, interval: u64, slots: usize)
    requires
        entry_wf(*old(e), slots as int),
        interval >= 1,
        slots >= 1,
    ensures
        entry_wf(*final(e), slots as int),
        upkept(*old(e), *final(e), now, interval, slots as int),
        upkept_slots(
            (old(e).head as int, entry_slots(*old(e))),
            (final(e).head as int, entry_slots(*final(e))),
            old(e).t_last,
            now,
            interval,
            slots as int,
        ),
{
    let t_last = e.t_last;
    if now < t_last || now - t_last < interval {
        proof {
            assert(hist_of(e.live).subset_of(hist_of(e.live)));
            vstd::arithmetic::mul::lemma_mul_inequality(1, slots as int, interval as int);
            assert(steps_between(e.t_last, now, interval) == 0);
        }
        return ;
    }
    let elapsed = now - t_last;
    let steps: u64 = elapsed / interval;
    proof {
        vstd::arithmetic::div_mod::lemma_fundamental_div_mod(elapsed as int, interval as int);
        vstd::arithmetic::div_mod::lemma_mod_bound(elapsed as int, interval as int);
        assert(steps == elapsed as int / interval as int);
        assert(interval * (steps as int) <= elapsed);
        assert(steps * interval == interval * steps) by (nonlinear_arith);
        assert(steps * interval <= elapsed);
    }
    e.t_last = t_last + steps * interval;
    if steps >= slots as u64 {
        let ghost ring0 = e.ring@;
        let ghost live0 = e.live;
        let mut s: usize = 0;
        while s < slots
            invariant
                0 <= s <= slots,
                e.live == live0,
                hdr_standard(e.live),
                e.active == old(e).active,
                e.head == old(e).head,
                e.t_last == t_last + steps * interval,
                (e.head as int) < slots,
                e.ring@.len() == slots,
                forall|i: int| 0 <= i < e.ring@.len() ==> hdr_standard(#[trigger] e.ring@[i]),
                forall|i: int|
                    0 <= i < s ==> hist_of(#[trigger] e.ring@[i]) == Multiset::<u64>::empty(),
            decreases slots - s,
        {
            let slot = slot_mut(&mut e.ring, s);
            hist_reset(slot);
            s = s + 1;
        }
        hist_reset(&mut e.live);
        proof {
            lemma_ring_sum_all_empty(e.ring@);
            assert(steps_between(old(e).t_last, now, interval) == steps);
            assert forall|j: int|
                0 <= j < entry_slots(*e).len() implies #[trigger] entry_slots(*e)[j] == Multiset::<
                u64,
            >::empty() by {
                assert(entry_slots(*e)[j] == hist_of(e.ring@[j]));
            }
        }
    } else {
        let roll = steps as usize;
        let ghost ring0 = e.ring@;
        let ghost live0 = e.live;
        let ghost head0 = e.head as int;
        let mut head = e.head;
        let mut r: usize = 0;
        while r < roll
            invariant
                0 <= r <= roll,
                roll < slots,
                head < slots,
                0 <= head0 < slots,
                head as int == wrap_idx(head0 + r, slots as int),
                e.live == live0,
                hdr_standard(e.live),
                e.active == old(e).active,
                e.t_last == t_last + steps * interval,
                e.ring@.len() == slots,
                ring0.len() == slots,
                forall|i: int| 0 <= i < e.ring@.len() ==> hdr_standard(#[trigger] e.ring@[i]),
                forall|j: int|
                    0 <= j < slots ==> hist_of(#[trigger] e.ring@[j]) == (if rolled_index(
                        head0,
                        r as int,
                        slots as int,
                        j,
                    ) {
                        Multiset::<u64>::empty()
                    } else {
                        hist_of(ring0[j])
                    }),
            decreases roll - r,
        {
            let ghost r_pre = r as int;
            let ghost ring_pre = e.ring@;
            head = if head + 1 == slots {
                0
            } else {
                head + 1
            };
            proof {
                assert(head as int == wrap_idx(head0 + (r_pre + 1), slots as int));
            }
            let slot = slot_mut(&mut e.ring, head);
            hist_reset(slot);
            r = r + 1;
            proof {
                assert forall|j: int|
                    0 <= j < slots implies hist_of(#[trigger] e.ring@[j]) == (if rolled_index(
                    head0,
                    r_pre + 1,
                    slots as int,
                    j,
                ) {
                    Multiset::<u64>::empty()
                } else {
                    hist_of(ring0[j])
                }) by {
                    if j == head as int {
                        assert(rolled_index(head0, r_pre + 1, slots as int, j)) by {
                            assert(j == wrap_idx(head0 + (r_pre + 1), slots as int));
                        }
                    } else {
                        assert(e.ring@[j] == ring_pre[j]);
                        if rolled_index(head0, r_pre + 1, slots as int, j) {
                            let d = choose|d: int|
                                1 <= d <= r_pre + 1 && j == #[trigger] wrap_idx(head0 + d, slots as int);
                            assert(d != r_pre + 1);
                            assert(rolled_index(head0, r_pre, slots as int, j));
                        } else {
                            assert(!rolled_index(head0, r_pre, slots as int, j)) by {
                                if rolled_index(head0, r_pre, slots as int, j) {
                                    let d = choose|d: int|
                                        1 <= d <= r_pre && j == #[trigger] wrap_idx(
                                            head0 + d,
                                            slots as int,
                                        );
                                    assert(rolled_index(head0, r_pre + 1, slots as int, j));
                                }
                            }
                        }
                    }
                }
            }
        }
        e.head = head;
        hist_reset(&mut e.live);
        let ghost ring1 = e.ring@;
        let mut s2: usize = 0;
        while s2 < slots
            invariant
                0 <= s2 <= slots,
                e.active == old(e).active,
                e.head == head,
                head < slots,
                e.t_last == t_last + steps * interval,
                forall|i: int|
                    0 <= i < ring1.len() ==> hist_of(#[trigger] ring1[i]) == hist_of(ring0[i])
                        || hist_of(ring1[i]) == Multiset::<u64>::empty(),
                forall|j: int|
                    0 <= j < slots ==> hist_of(#[trigger] ring1[j]) == (if rolled_index(
                        head0,
                        steps as int,
                        slots as int,
                        j,
                    ) {
                        Multiset::<u64>::empty()
                    } else {
                        hist_of(ring0[j])
                    }),
                0 <= head0 < slots,
                head as int == wrap_idx(head0 + steps, slots as int),
                ring0.len() == slots,
                e.ring@ == ring1,
                ring1.len() == slots,
                forall|i: int| 0 <= i < ring1.len() ==> hdr_standard(#[trigger] ring1[i]),
                hdr_standard(e.live),
                hist_of(e.live) == ring_sum(ring1.take(s2 as int)),
            decreases slots - s2,
        {
            proof {
                assert(ring1.take(s2 + 1).drop_last() =~= ring1.take(s2 as int));
                assert(ring1.take(s2 + 1).last() == ring1[s2 as int]);
            }
            hist_add(&mut e.live, &e.ring[s2]);
            s2 = s2 + 1;
        }
        proof {
            assert(ring1.take(slots as int) =~= ring1);
            lemma_ring_sum_le(ring1, ring0);
            assert(steps_between(old(e).t_last, now, interval) == steps);
            assert forall|j: int|
                0 <= j < entry_slots(*e).len() implies #[trigger] entry_slots(*e)[j] == (
            if rolled_index(head0, steps as int, slots as int, j) {
                Multiset::<u64>::empty()
            } else {
                entry_slots(*old(e))[j]
            }) by {
                assert(entry_slots(*e)[j] == hist_of(ring1[j]));
                assert(entry_slots(*old(e))[j] == hist_of(ring0[j]));
            }
            assert((now as int) < old(e).t_last + slots * interval) by {
                assert(elapsed == interval * steps + (elapsed as int) % (interval as int));
                assert((elapsed as int) % (interval as int) < interval);
                assert(interval * (steps + 1) == interval * steps + interval) by (nonlinear_arith);
                assert(elapsed < interval * (steps + 1));
                vstd::arithmetic::mul::lemma_mul_inequality(
                    steps + 1,
                    slots as int,
                    interval as int,
                );
                assert(interval * (steps + 1) == (steps + 1) * interval);
                assert(elapsed < slots * interval);
            }
        }
    }
}

} // verus!
