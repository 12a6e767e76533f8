use vstd::prelude::*;

verus! {

use vstd::multiset::Multiset;
use crate::channel::{
    ChanSender,
    ChanReceiver,
    Event,
    chan_bounded,
    chan_try_send,
    chan_recv_timeout,
    chan_clone_sender,
    chan_clone_receiver,
};
use crate::configuration::Configuration;
use crate::control::{ControlMessage, Controller};
use crate::counter::{Counter, counter_apply};
use crate::data::{
    Facet,
    FacetV,
    Percentile,
    Sample,
    SampleV,
    Snapshot,
    count_label,
    default_percentile_list,
    percentile_label,
    value_label,
    default_percentiles,
    percentile_views,
    percentiles_stored,
    sample_views,
    no_signed_entries,
    no_unsigned_entries,
};
use crate::gauge::{Gauge, gauge_apply};
use crate::hdr::buckets_represent;
use crate::histogram::{Histogram, HistView, upkept_view, window_apply};
use crate::sink::Sink;

broadcast use vstd::multiset::group_multiset_axioms;

#[verifier::external_type_specification]
#[verifier::external_body]
pub struct ExInstant(std::time::Instant);

/// Relies on Instant::now: a reading of the monotonic clock.
#[verifier::external_body]
fn instant_now() -> std::time::Instant {
    std::time::Instant::now()
}

/// Relies on Instant::elapsed: the nanoseconds since the reading was taken,
/// saturating at the largest 64-bit value.
#[verifier::external_body]
fn elapsed_ns(origin: &std::time::Instant) -> u64 {
    u64::try_from(origin.elapsed().as_nanos()).unwrap_or(u64::MAX)
}

/// The facets a list holds, as a set of facet values.
pub open spec fn facets_set(s: Seq<Facet>) -> Set<FacetV> {
    Set::new(|fv: FacetV| exists|i: int| 0 <= i < s.len() && (#[trigger] s[i])@ == fv)
}

/// Facet values are pairwise distinct.
pub open spec fn facets_distinct(s: Seq<Facet>) -> bool {
    forall|i: int, j: int| 0 <= i < j < s.len() ==> (#[trigger] s[i])@ != (#[trigger] s[j])@
}

/// The mathematical state of a receiver: its facet set and the three view
/// maps.
#[verifier::ext_equal]
pub struct ReceiverView {
    pub facets: Set<FacetV>,
    pub counters: Map<Seq<char>, (bool, i64)>,
    pub gauges: Map<Seq<char>, (bool, u64)>,
    pub windows: Map<Seq<char>, HistView>,
}

/// Registration in the counter map: a fresh key starts at zero, a known key
/// resumes its total.
pub open spec fn reg_counter(m: Map<Seq<char>, (bool, i64)>, k: Seq<char>) -> Map<
    Seq<char>,
    (bool, i64),
> {
    m.insert(
        k,
        (
            true,
            if m.contains_key(k) {
                m[k].1
            } else {
                0i64
            },
        ),
    )
}

pub open spec fn dereg_counter(m: Map<Seq<char>, (bool, i64)>, k: Seq<char>) -> Map<
    Seq<char>,
    (bool, i64),
> {
    if m.contains_key(k) {
        m.insert(k, (false, m[k].1))
    } else {
        m
    }
}

pub open spec fn reg_gauge(m: Map<Seq<char>, (bool, u64)>, k: Seq<char>) -> Map<
    Seq<char>,
    (bool, u64),
> {
    m.insert(
        k,
        (
            true,
            if m.contains_key(k) {
                m[k].1
            } else {
                0u64
            },
        ),
    )
}

pub open spec fn dereg_gauge(m: Map<Seq<char>, (bool, u64)>, k: Seq<char>) -> Map<
    Seq<char>,
    (bool, u64),
> {
    if m.contains_key(k) {
        m.insert(k, (false, m[k].1))
    } else {
        m
    }
}

pub open spec fn reg_window(m: Map<Seq<char>, HistView>, k: Seq<char>) -> Map<Seq<char>, HistView> {
    m.insert(
        k,
        if m.contains_key(k) {
            HistView { active: true, t_last: m[k].t_last, window: m[k].window }
        } else {
            HistView { active: true, t_last: 0u64, window: Multiset::empty() }
        },
    )
}

pub open spec fn dereg_window(m: Map<Seq<char>, HistView>, k: Seq<char>) -> Map<
    Seq<char>,
    HistView,
> {
    if m.contains_key(k) {
        m.insert(k, HistView { active: false, t_last: m[k].t_last, window: m[k].window })
    } else {
        m
    }
}

/// What registering a facet does to the receiver's state.
pub open spec fn add_facet_spec(st: ReceiverView, f: FacetV) -> ReceiverView {
    match f {
        FacetV::Count(k) => ReceiverView {
            facets: st.facets.insert(f),
            counters: reg_counter(st.counters, k),
            ..st
        },
        FacetV::Gauge(k) => ReceiverView {
            facets: st.facets.insert(f),
            gauges: reg_gauge(st.gauges, k),
            ..st
        },
        FacetV::TimingPercentile(k) => ReceiverView {
            facets: st.facets.insert(f),
            windows: reg_window(st.windows, k),
            ..st
        },
        FacetV::ValuePercentile(k) => ReceiverView {
            facets: st.facets.insert(f),
            windows: reg_window(st.windows, k),
            ..st
        },
    }
}

/// What deregistering a facet does to the receiver's state: it leaves the
/// recorded numbers, stops updates, and removes the facet from the set.
pub open spec fn remove_facet_spec(st: ReceiverView, f: FacetV) -> ReceiverView {
    match f {
        FacetV::Count(k) => ReceiverView {
            facets: st.facets.remove(f),
            counters: dereg_counter(st.counters, k),
            ..st
        },
        FacetV::Gauge(k) => ReceiverView {
            facets: st.facets.remove(f),
            gauges: dereg_gauge(st.gauges, k),
            ..st
        },
        FacetV::TimingPercentile(k) => ReceiverView {
            facets: st.facets.remove(f),
            windows: dereg_window(st.windows, k),
            ..st
        },
        FacetV::ValuePercentile(k) => ReceiverView {
            facets: st.facets.remove(f),
            windows: dereg_window(st.windows, k),
            ..st
        },
    }
}

proof fn lemma_facets_set_push(s: Seq<Facet>, f: Facet)
    ensures
        facets_set(s.push(f)) == facets_set(s).insert(f@),
{
    assert forall|fv: FacetV| #[trigger]
        facets_set(s.push(f)).contains(fv) implies facets_set(s).insert(f@).contains(fv) by {
        let j = choose|j: int| 0 <= j < s.push(f).len() && (#[trigger] s.push(f)[j])@ == fv;
        if j < s.len() {
            assert(s[j]@ == fv);
        }
    }
    assert forall|fv: FacetV| #[trigger]
        facets_set(s).insert(f@).contains(fv) implies facets_set(s.push(f)).contains(fv) by {
        if fv == f@ {
            assert(s.push(f)[s.len() as int]@ == fv);
        } else {
            let j = choose|j: int| 0 <= j < s.len() && (#[trigger] s[j])@ == fv;
            assert(s.push(f)[j]@ == fv);
        }
    }
    assert(facets_set(s.push(f)) =~= facets_set(s).insert(f@));
}

proof fn lemma_facets_set_insert_member(s: Seq<Facet>, f: FacetV)
    requires
        exists|j: int| 0 <= j < s.len() && (#[trigger] s[j])@ == f,
    ensures
        facets_set(s).insert(f) == facets_set(s),
{
    assert(facets_set(s).contains(f));
    assert(facets_set(s).insert(f) =~= facets_set(s));
}

proof fn lemma_facets_set_remove_at(s: Seq<Facet>, i: int)
    requires
        0 <= i < s.len(),
        facets_distinct(s),
    ensures
        facets_set(s.remove(i)) == facets_set(s).remove(s[i]@),
        facets_distinct(s.remove(i)),
{
    s.remove_ensures(i);
    assert forall|fv: FacetV| #[trigger]
        facets_set(s.remove(i)).contains(fv) implies facets_set(s).remove(s[i]@).contains(fv) by {
        let j = choose|j: int| 0 <= j < s.remove(i).len() && (#[trigger] s.remove(i)[j])@ == fv;
        if j < i {
            assert(s[j]@ == fv);
        } else {
            assert(s[j + 1]@ == fv);
        }
    }
    assert forall|fv: FacetV| #[trigger]
        facets_set(s).remove(s[i]@).contains(fv) implies facets_set(s.remove(i)).contains(fv) by {
        let j = choose|j: int| 0 <= j < s.len() && (#[trigger] s[j])@ == fv;
        if j < i {
            assert(s.remove(i)[j]@ == fv);
        } else {
            assert(j != i);
            assert(s.remove(i)[j - 1]@ == fv);
        }
    }
    assert(facets_set(s.remove(i)) =~= facets_set(s).remove(s[i]@));
    assert forall|a: int, b: int| 0 <= a < b < s.remove(i).len() implies (#[trigger] s.remove(
        i,
    )[a])@ != (#[trigger] s.remove(i)[b])@ by {
        if b < i {
        } else if a < i {
            assert(s.remove(i)[b] == s[b + 1]);
        } else {
            assert(s.remove(i)[a] == s[a + 1]);
            assert(s.remove(i)[b] == s[b + 1]);
        }
    }
}

/// Registering a facet twice is the same as registering it once.
pub proof fn lemma_add_facet_idempotent(st: ReceiverView, f: FacetV)
    ensures
        add_facet_spec(add_facet_spec(st, f), f) == add_facet_spec(st, f),
{
    let st1 = add_facet_spec(st, f);
    let st2 = add_facet_spec(st1, f);
    assert(st1.facets.insert(f) =~= st1.facets);
    match f {
        FacetV::Count(k) => {
            assert(reg_counter(st1.counters, k) =~= st1.counters);
        },
        FacetV::Gauge(k) => {
            assert(reg_gauge(st1.gauges, k) =~= st1.gauges);
        },
        FacetV::TimingPercentile(k) => {
            assert(reg_window(st1.windows, k) =~= st1.windows);
        },
        FacetV::ValuePercentile(k) => {
            assert(reg_window(st1.windows, k) =~= st1.windows);
        },
    }
    assert(st2 =~= st1);
}

/// Registering a facet that was absent and then deregistering it returns
/// the facet set to its prior form, and the facet, being out of the set, is
/// not emitted in snapshots built after that.
pub proof fn lemma_add_then_remove_facet(st: ReceiverView, f: FacetV)
    requires
        !st.facets.contains(f),
    ensures
        remove_facet_spec(add_facet_spec(st, f), f).facets == st.facets,
        !remove_facet_spec(add_facet_spec(st, f), f).facets.contains(f),
{
    assert(st.facets.insert(f).remove(f) =~= st.facets);
}

/// The total a counter map reports for a key.
pub open spec fn counter_total(m: Map<Seq<char>, (bool, i64)>, k: Seq<char>) -> i64 {
    if m.contains_key(k) {
        m[k].1
    } else {
        0i64
    }
}

/// The value a gauge map reports for a key.
pub open spec fn gauge_value_of(m: Map<Seq<char>, (bool, u64)>, k: Seq<char>) -> u64 {
    if m.contains_key(k) {
        m[k].1
    } else {
        0u64
    }
}

/// Whether a key's window is registered, live and holds any data.
pub open spec fn window_present(m: Map<Seq<char>, HistView>, k: Seq<char>) -> bool {
    m.contains_key(k) && m[k].active && m[k].window != Multiset::<u64>::empty()
}

/// The bucket list that renders a window's contents: sorted, one entry per
/// recorded value with its count.  The rendering is unique, so this picks
/// the one there is.
pub open spec fn buckets_of(ms: Multiset<u64>) -> Seq<(u64, u64)> {
    choose|b: Seq<(u64, u64)>| buckets_represent(ms, b)
}

/// Two bucket lists rendering the same contents are the same list.
pub proof fn lemma_buckets_unique(ms: Multiset<u64>, b1: Seq<(u64, u64)>, b2: Seq<(u64, u64)>)
    requires
        buckets_represent(ms, b1),
        buckets_represent(ms, b2),
    ensures
        b1 == b2,
    decreases b1.len(),
{
    if b1.len() == 0 {
        if b2.len() > 0 {
            assert(ms.count(b2[0].0) == b2[0].1);
            assert(ms.count(b2[0].0) > 0);
            assert(false);
        }
        assert(b1 =~= b2);
    } else if b2.len() == 0 {
        assert(ms.count(b1[0].0) > 0);
        assert(false);
    } else {
        let v = b1[0].0;
        let w = b2[0].0;
        assert(ms.count(v) > 0);
        assert(ms.count(w) > 0);
        let j2 = choose|j: int| 0 <= j < b2.len() && (#[trigger] b2[j]).0 == v;
        let j1 = choose|j: int| 0 <= j < b1.len() && (#[trigger] b1[j]).0 == w;
        assert(w <= v) by {
            if j2 > 0 {
                assert(b2[0].0 < b2[j2].0);
            }
        }
        assert(v <= w) by {
            if j1 > 0 {
                assert(b1[0].0 < b1[j1].0);
            }
        }
        assert(v == w);
        assert(b1[0].1 == ms.count(v) && b2[0].1 == ms.count(v));
        let ms2 = ms.update(v, 0);
        assert forall|x: u64| true implies #[trigger] ms2.count(x) == if x == v {
            0nat
        } else {
            ms.count(x)
        } by {
            if x == v {
                vstd::multiset::lemma_update_same(ms, v, 0);
            } else {
                vstd::multiset::lemma_update_different(ms, v, 0, x);
            }
        }
        assert(buckets_represent(ms2, b1.drop_first())) by {
            lemma_buckets_tail(ms, b1);
        }
        assert(buckets_represent(ms2, b2.drop_first())) by {
            lemma_buckets_tail(ms, b2);
        }
        lemma_buckets_unique(ms2, b1.drop_first(), b2.drop_first());
        assert(b1.len() == b2.len());
        assert forall|i: int| 0 <= i < b1.len() implies b1[i] == b2[i] by {
            if i == 0 {
                assert(b1[0].0 == b2[0].0 && b1[0].1 == b2[0].1);
                assert(b1[0] =~= b2[0]);
            } else {
                assert(b1.drop_first()[i - 1] == b1[i]);
                assert(b2.drop_first()[i - 1] == b2[i]);
            }
        }
        assert(b1 =~= b2);
    }
}

proof fn lemma_buckets_tail(ms: Multiset<u64>, b: Seq<(u64, u64)>)
    requires
        buckets_represent(ms, b),
        b.len() > 0,
    ensures
        buckets_represent(ms.update(b[0].0, 0), b.drop_first()),
{
    let v = b[0].0;
    let ms2 = ms.update(v, 0);
    let t = b.drop_first();
    assert forall|x: u64| true implies #[trigger] ms2.count(x) == if x == v {
        0nat
    } else {
        ms.count(x)
    } by {
        if x == v {
            vstd::multiset::lemma_update_same(ms, v, 0);
        } else {
            vstd::multiset::lemma_update_different(ms, v, 0, x);
        }
    }
    assert forall|i: int| 0 <= i < t.len() implies (#[trigger] t[i]).1 == ms2.count(t[i].0)
        && t[i].1 >= 1 by {
        assert(t[i] == b[i + 1]);
        assert(b[0].0 < b[i + 1].0);
    }
    assert forall|x: u64| #[trigger] ms2.count(x) > 0 implies exists|i: int|
        0 <= i < t.len() && (#[trigger] t[i]).0 == x by {
        assert(ms.count(x) > 0);
        let j = choose|j: int| 0 <= j < b.len() && (#[trigger] b[j]).0 == x;
        assert(x != v);
        assert(j != 0);
        assert(t[j - 1].0 == x);
    }
}

/// How one facet extends a snapshot under construction: a count facet
/// stores the key's total, a gauge facet its value, and a percentile facet
/// the percentile readings of its window, when the window holds data.
pub open spec fn facet_snap(
    st: ReceiverView,
    ps: Seq<(Seq<char>, u64)>,
    f: FacetV,
    sm: Map<Seq<char>, i64>,
    um: Map<Seq<char>, u64>,
) -> (Map<Seq<char>, i64>, Map<Seq<char>, u64>) {
    match f {
        FacetV::Count(k) => (sm.insert(count_label(k), counter_total(st.counters, k)), um),
        FacetV::Gauge(k) => (sm, um.insert(value_label(k), gauge_value_of(st.gauges, k))),
        FacetV::TimingPercentile(k) => (
            sm,
            if window_present(st.windows, k) {
                percentiles_stored(um, k, "_ns_"@, buckets_of(st.windows[k].window), ps)
            } else {
                um
            },
        ),
        FacetV::ValuePercentile(k) => (
            sm,
            if window_present(st.windows, k) {
                percentiles_stored(um, k, "_value_"@, buckets_of(st.windows[k].window), ps)
            } else {
                um
            },
        ),
    }
}

/// The two flat maps a snapshot of the given facet list holds: the facet
/// list folded over the receiver's state, starting from empty maps.  A
/// facet not in the list contributes nothing.
pub open spec fn snap_maps(st: ReceiverView, ps: Seq<(Seq<char>, u64)>, facets: Seq<FacetV>) -> (
    Map<Seq<char>, i64>,
    Map<Seq<char>, u64>,
)
    decreases facets.len(),
{
    if facets.len() == 0 {
        (no_signed_entries(), no_unsigned_entries())
    } else {
        let prev = snap_maps(st, ps, facets.drop_last());
        facet_snap(st, ps, facets.last(), prev.0, prev.1)
    }
}

/// The views of a facet list.
pub open spec fn facet_views(s: Seq<Facet>) -> Seq<FacetV> {
    s.map_values(|f: Facet| f@)
}

/// Every snapshot of a facet list that registers a count for key `k` holds,
/// under the key's count label, exactly the counter view's total for `k`:
/// after a finite sequence of samples, that is the starting total plus the
/// algebraic sum the sample sequence contributes.
pub proof fn lemma_snapshot_count(
    st: ReceiverView,
    ps: Seq<(Seq<char>, u64)>,
    facets: Seq<FacetV>,
    k: Seq<char>,
)
    requires
        facets.contains(FacetV::Count(k)),
    ensures
        snap_maps(st, ps, facets).0.contains_key(count_label(k)),
        snap_maps(st, ps, facets).0[count_label(k)] == counter_total(st.counters, k),
    decreases facets.len(),
{
    let j = choose|j: int| 0 <= j < facets.len() && facets[j] == FacetV::Count(k);
    if facets.last() == FacetV::Count(k) {
    } else {
        assert(j < facets.len() - 1);
        assert(facets.drop_last()[j] == FacetV::Count(k));
        assert(facets.drop_last().contains(FacetV::Count(k)));
        lemma_snapshot_count(st, ps, facets.drop_last(), k);
        match facets.last() {
            FacetV::Count(k2) => {
                assert(count_label(k2) != count_label(k)) by {
                    if count_label(k2) == count_label(k) {
                        crate::data::lemma_count_label_injective(k2, k);
                    }
                }
            },
            _ => {},
        }
    }
}

/// No percentile label any facet of the list would write collides with the
/// gauge label of key `k`.
pub open spec fn no_gauge_label_clash(facets: Seq<FacetV>, ps: Seq<(Seq<char>, u64)>, k: Seq<char>) -> bool {
    forall|j: int, i: int|
        0 <= j < facets.len() && 0 <= i < ps.len() ==> ((#[trigger] facets[j]) matches
        FacetV::TimingPercentile(k2) ==> percentile_label(k2, "_ns_"@, (#[trigger] ps[i]).0)
            != value_label(k)) && (facets[j] matches FacetV::ValuePercentile(k2)
            ==> percentile_label(k2, "_value_"@, ps[i].0) != value_label(k))
}

/// Every snapshot of a facet list that registers a gauge for key `k` holds,
/// under the key's gauge label, exactly the gauge view's value for `k`:
/// after a finite sequence of samples, that is the value of the last write
/// to `k` in submission order, or the starting value when none was written.
/// The one proviso is that no percentile label of another facet spells out
/// the same string as the gauge label.
pub proof fn lemma_snapshot_gauge(
    st: ReceiverView,
    ps: Seq<(Seq<char>, u64)>,
    facets: Seq<FacetV>,
    k: Seq<char>,
)
    requires
        facets.contains(FacetV::Gauge(k)),
        no_gauge_label_clash(facets, ps, k),
    ensures
        snap_maps(st, ps, facets).1.contains_key(value_label(k)),
        snap_maps(st, ps, facets).1[value_label(k)] == gauge_value_of(st.gauges, k),
    decreases facets.len(),
{
    let j = choose|j: int| 0 <= j < facets.len() && facets[j] == FacetV::Gauge(k);
    if facets.last() == FacetV::Gauge(k) {
    } else {
        assert(j < facets.len() - 1);
        assert(facets.drop_last()[j] == FacetV::Gauge(k));
        assert(facets.drop_last().contains(FacetV::Gauge(k)));
        assert forall|a: int, i: int|
            0 <= a < facets.drop_last().len() && 0 <= i < ps.len() implies ((
        #[trigger] facets.drop_last()[a]) matches FacetV::TimingPercentile(k2)
            ==> percentile_label(k2, "_ns_"@, (#[trigger] ps[i]).0) != value_label(k)) && (
        facets.drop_last()[a] matches FacetV::ValuePercentile(k2) ==> percentile_label(
            k2,
            "_value_"@,
            ps[i].0,
        ) != value_label(k)) by {
            assert(facets[a] == facets.drop_last()[a]);
        }
        lemma_snapshot_gauge(st, ps, facets.drop_last(), k);
        let prev = snap_maps(st, ps, facets.drop_last());
        match facets.last() {
            FacetV::Count(_) => {},
            FacetV::Gauge(k2) => {
                assert(value_label(k2) != value_label(k)) by {
                    if value_label(k2) == value_label(k) {
                        crate::data::lemma_value_label_injective(k2, k);
                    }
                }
            },
            FacetV::TimingPercentile(k2) => {
                if window_present(st.windows, k2) {
                    assert(facets[facets.len() - 1] == facets.last());
                    crate::data::lemma_percentiles_stored_other(
                        prev.1,
                        k2,
                        "_ns_"@,
                        buckets_of(st.windows[k2].window),
                        ps,
                        value_label(k),
                    );
                }
            },
            FacetV::ValuePercentile(k2) => {
                if window_present(st.windows, k2) {
                    assert(facets[facets.len() - 1] == facets.last());
                    crate::data::lemma_percentiles_stored_other(
                        prev.1,
                        k2,
                        "_value_"@,
                        buckets_of(st.windows[k2].window),
                        ps,
                        value_label(k),
                    );
                }
            },
        }
    }
}

/// The upkeep half of one turn: when at least 250 ms have passed since the
/// last upkeep, the windows are rotated forward to `now` (as `upkept_view`
/// says) and the upkeep instant becomes `now`; otherwise nothing changes.
pub open spec fn upkeep_phase(
    st0: ReceiverView,
    st1: ReceiverView,
    lu0: u64,
    lu1: u64,
    now: u64,
    interval: u64,
    slots: int,
) -> bool {
    if now >= lu0 + 250_000_000 {
        &&& lu1 == now
        &&& st1.facets == st0.facets
        &&& st1.counters == st0.counters
        &&& st1.gauges == st0.gauges
        &&& st1.windows.dom() == st0.windows.dom()
        &&& forall|k: Seq<char>|
            #[trigger] st0.windows.contains_key(k) ==> upkept_view(
                st0.windows[k],
                st1.windows[k],
                now,
                interval,
                slots,
            )
    } else {
        lu1 == lu0 && st1 == st0
    }
}

/// The dispatch half of one turn: the state after serving one received
/// event — nothing, one batch of samples applied in order, one facet
/// registration or deregistration, or a snapshot request, which builds the
/// reply and changes no state.
pub open spec fn dispatch_step(st1: ReceiverView, st2: ReceiverView) -> bool {
    ||| st2 == st1
    ||| exists|batch: Seq<SampleV>|
        st2.facets == st1.facets && st2.counters == #[trigger] counter_apply(st1.counters, batch)
            && st2.gauges == gauge_apply(st1.gauges, batch) && st2.windows == window_apply(
            st1.windows,
            batch,
        )
    ||| exists|f: FacetV| st2 == #[trigger] add_facet_spec(st1, f)
    ||| exists|f: FacetV| st2 == #[trigger] remove_facet_spec(st1, f)
}

/// One turn at clock reading `now`: the upkeep phase followed by the
/// dispatch of one event.
pub open spec fn turn_rel(
    st0: ReceiverView,
    st2: ReceiverView,
    lu0: u64,
    lu2: u64,
    now: u64,
    interval: u64,
    slots: int,
) -> bool {
    exists|mid: ReceiverView|
        #[trigger] upkeep_phase(st0, mid, lu0, lu2, now, interval, slots) && dispatch_step(
            mid,
            st2,
        )
}

/// A snapshot of a facet list that registers no count for key `k` holds no
/// entry under the key's count label: a count facet out of the list is not
/// emitted.
pub proof fn lemma_snapshot_count_absent(
    st: ReceiverView,
    ps: Seq<(Seq<char>, u64)>,
    facets: Seq<FacetV>,
    k: Seq<char>,
)
    requires
        forall|j: int| 0 <= j < facets.len() ==> (#[trigger] facets[j]) != FacetV::Count(k),
    ensures
        !snap_maps(st, ps, facets).0.contains_key(count_label(k)),
    decreases facets.len(),
{
    if facets.len() > 0 {
        assert forall|j: int|
            0 <= j < facets.drop_last().len() implies (#[trigger] facets.drop_last()[j])
            != FacetV::Count(k) by {
            assert(facets.drop_last()[j] == facets[j]);
        }
        lemma_snapshot_count_absent(st, ps, facets.drop_last(), k);
        match facets.last() {
            FacetV::Count(k2) => {
                assert(facets[facets.len() - 1] == facets.last());
                assert(k2 != k);
                assert(count_label(k2) != count_label(k)) by {
                    if count_label(k2) == count_label(k) {
                        crate::data::lemma_count_label_injective(k2, k);
                    }
                }
            },
            _ => {},
        }
    }
}

/// The metrics receiver: it owns the buffer pool, the merged event channel,
/// the three views, the facet set and the percentile list, and aggregates
/// samples as its loop turns.
pub struct Receiver {
    conf: Configuration,
    origin: std::time::Instant,
    buffer_pool_tx: ChanSender<Vec<Sample>>,
    buffer_pool_rx: ChanReceiver<Vec<Sample>>,
    event_tx: ChanSender<Event>,
    event_rx: ChanReceiver<Event>,
    facets: Vec<Facet>,
    counter: Counter,
    gauge: Gauge,
    histogram: Histogram,
    percentiles: Vec<Percentile>,
    last_upkeep: u64,
}

impl Receiver {
    /// The receiver's mathematical state.
    pub closed spec fn view_state(&self) -> ReceiverView {
        ReceiverView {
            facets: facets_set(self.facets@),
            counters: self.counter.view_map(),
            gauges: self.gauge.view_map(),
            windows: self.histogram.view_map(),
        }
    }

    pub closed spec fn facet_list(&self) -> Seq<FacetV> {
        facet_views(self.facets@)
    }

    pub closed spec fn percentile_list(&self) -> Seq<(Seq<char>, u64)> {
        percentile_views(self.percentiles@)
    }

    /// The configuration the receiver was built with.
    pub closed spec fn spec_conf(&self) -> Configuration {
        self.conf
    }

    /// The clock reading, in nanoseconds since the receiver's origin, of
    /// the last histogram upkeep.
    pub closed spec fn spec_last_upkeep(&self) -> u64 {
        self.last_upkeep
    }

    /// The windowed histogram's total window in nanoseconds.
    pub closed spec fn spec_window_ns(&self) -> u64 {
        self.histogram.window_ns
    }

    /// The windowed histogram's rotation interval in nanoseconds.
    pub closed spec fn spec_interval_ns(&self) -> u64 {
        self.histogram.interval_ns
    }

    /// The windowed histogram's slot count.
    pub closed spec fn spec_slots(&self) -> usize {
        self.histogram.slots
    }

    pub closed spec fn wf(&self) -> bool {
        &&& self.conf.capacity >= 1
        &&& self.conf.batch_size >= 1
        &&& self.counter.wf()
        &&& self.gauge.wf()
        &&& self.histogram.wf()
        &&& facets_distinct(self.facets@)
        &&& forall|i: int|
            0 <= i < self.percentiles@.len() ==> (#[trigger] self.percentiles@[i])@.1 <= 1000
    }

    /// No facets and empty views: the state of a freshly built receiver.
    pub open spec fn empty_state(&self) -> bool {
        &&& self.facet_list() == Seq::<FacetV>::empty()
        &&& self.view_state().facets == Set::<FacetV>::empty()
        &&& self.view_state().counters == Map::<Seq<char>, (bool, i64)>::empty()
        &&& self.view_state().gauges == Map::<Seq<char>, (bool, u64)>::empty()
        &&& self.view_state().windows == Map::<Seq<char>, HistView>::empty()
    }

    /// The facet set and the facet list hold the same facets, and the list
    /// holds each at most once.
    pub proof fn lemma_facet_list_matches_set(&self)
        requires
            self.wf(),
        ensures
            forall|fv: FacetV| #[trigger]
                self.view_state().facets.contains(fv) <==> self.facet_list().contains(fv),
            forall|i: int, j: int|
                0 <= i < j < self.facet_list().len() ==> self.facet_list()[i]
                    != self.facet_list()[j],
    {
        assert forall|fv: FacetV| #[trigger]
            self.view_state().facets.contains(fv) <==> self.facet_list().contains(fv) by {
            if self.view_state().facets.contains(fv) {
                let j = choose|j: int|
                    0 <= j < self.facets@.len() && (#[trigger] self.facets@[j])@ == fv;
                assert(self.facet_list()[j] == fv);
                assert(self.facet_list().contains(fv));
            }
            if self.facet_list().contains(fv) {
                let j = choose|j: int|
                    0 <= j < self.facet_list().len() && self.facet_list()[j] == fv;
                assert(self.facets@[j]@ == fv);
            }
        }
        assert forall|i: int, j: int|
            0 <= i < j < self.facet_list().len() implies self.facet_list()[i]
            != self.facet_list()[j] by {
            assert(self.facet_list()[i] == self.facets@[i]@);
            assert(self.facet_list()[j] == self.facets@[j]@);
        }
    }

    /// Builds the channels and pre-fills the buffer pool with `capacity`
    /// cleared batches.
    pub(crate) fn from_config(conf: Configuration) -> (r: Receiver)
        requires
            conf.capacity >= 1,
            conf.batch_size >= 1,
        ensures
            r.wf(),
            r.empty_state(),
            r.spec_conf() == conf,
            r.percentile_list() == default_percentile_list(),
            r.spec_last_upkeep() == 0,
            r.spec_window_ns() == 10_000_000_000,
            r.spec_interval_ns() == 1_000_000_000,
            r.spec_slots() == 10,
    {
        let (buffer_pool_tx, buffer_pool_rx) = chan_bounded::<Vec<Sample>>(conf.capacity);
        let (event_tx, event_rx) = chan_bounded::<Event>(conf.capacity);
        let mut i: usize = 0;
        while i < conf.capacity
            decreases conf.capacity - i,
        {
            let _ = chan_try_send(&buffer_pool_tx, Vec::with_capacity(conf.batch_size));
            i = i + 1;
        }
        let r = Receiver {
            conf,
            origin: instant_now(),
            buffer_pool_tx,
            buffer_pool_rx,
            event_tx,
            event_rx,
            facets: Vec::new(),
            counter: Counter::new(),
            gauge: Gauge::new(),
            histogram: Histogram::new(10_000_000_000, 1_000_000_000),
            percentiles: default_percentiles(),
            last_upkeep: 0,
        };
        proof {
            assert(r.facet_list() =~= Seq::<FacetV>::empty());
            assert(r.view_state().facets =~= Set::<FacetV>::empty());
        }
        r
    }

    /// A builder to configure a `Receiver` with.
    pub fn builder() -> (r: Configuration)
        ensures
            r.capacity == 1024,
            r.batch_size == 512,
            r.poll_delay_ms == 100,
    {
        Configuration::default()
    }

    /// Creates a `Sink` bound to this receiver.
    pub fn get_sink(&self) -> (r: Sink)
        requires
            self.wf(),
        ensures
            r.wf(),
            r.pending() == Seq::<SampleV>::empty(),
            r.spec_batch_size() == self.spec_conf().batch_size,
    {
        Sink::new(
            chan_clone_receiver(&self.buffer_pool_rx),
            chan_clone_sender(&self.event_tx),
            self.conf.batch_size,
        )
    }

    /// Creates a `Controller` bound to this receiver.
    pub fn get_controller(&self) -> Controller {
        Controller::new(chan_clone_sender(&self.event_tx))
    }

    /// Registers a facet with the receiver, as `add_facet_spec` says.
    pub fn add_facet(&mut self, facet: Facet)
        requires
            old(self).wf(),
        ensures
            final(self).wf(),
            final(self).view_state() == add_facet_spec(old(self).view_state(), facet@),
            old(self).facet_list().contains(facet@) ==> final(self).facet_list() == old(
                self,
            ).facet_list(),
            !old(self).facet_list().contains(facet@) ==> final(self).facet_list() == old(
                self,
            ).facet_list().push(facet@),
            final(self).percentile_list() == old(self).percentile_list(),
            final(self).spec_last_upkeep() == old(self).spec_last_upkeep(),
            final(self).spec_conf() == old(self).spec_conf(),
            final(self).spec_window_ns() == old(self).spec_window_ns(),
            final(self).spec_interval_ns() == old(self).spec_interval_ns(),
            final(self).spec_slots() == old(self).spec_slots(),
    {
        match &facet {
            Facet::Count(k) => self.counter.register(k.clone()),
            Facet::Gauge(k) => self.gauge.register(k.clone()),
            Facet::TimingPercentile(k) => self.histogram.register(k.clone()),
            Facet::ValuePercentile(k) => self.histogram.register(k.clone()),
        }
        let mut i: usize = 0;
        let mut found = false;
        while i < self.facets.len()
            invariant
                0 <= i <= self.facets@.len(),
                found ==> exists|j: int|
                    0 <= j < self.facets@.len() && (#[trigger] self.facets@[j])@ == facet@,
                !found ==> forall|j: int| 0 <= j < i ==> (#[trigger] self.facets@[j])@ != facet@,
            decreases self.facets@.len() - i,
        {
            if self.facets[i].facet_eq(&facet) {
                found = true;
            }
            i = i + 1;
        }
        let ghost fg = facet;
        let ghost pre_facets = self.facets@;
        if !found {
            self.facets.push(facet);
            proof {
                lemma_facets_set_push(pre_facets, fg);
                assert forall|a: int, b: int|
                    0 <= a < b < self.facets@.len() implies (#[trigger] self.facets@[a])@ != (
                #[trigger] self.facets@[b])@ by {
                    if b == pre_facets.len() {
                        assert(self.facets@[a] == pre_facets[a]);
                    }
                }
                assert forall|j: int|
                    0 <= j < facet_views(pre_facets).len() implies #[trigger] facet_views(
                    pre_facets,
                )[j] != fg@ by {
                    assert(facet_views(pre_facets)[j] == pre_facets[j]@);
                }
                assert(!facet_views(pre_facets).contains(fg@));
                assert(self.facet_list() =~= facet_views(pre_facets).push(fg@));
            }
        } else {
            proof {
                lemma_facets_set_insert_member(pre_facets, fg@);
                let j = choose|j: int|
                    0 <= j < pre_facets.len() && (#[trigger] pre_facets[j])@ == fg@;
                assert(facet_views(pre_facets)[j] == fg@);
                assert(facet_views(pre_facets).contains(fg@));
            }
        }
        proof {
            assert(self.view_state() =~= add_facet_spec(old(self).view_state(), fg@));
        }
    }

    /// Deregisters a facet from the receiver, as `remove_facet_spec` says:
    /// recorded state stays, updates stop, later snapshots leave it out.
    pub fn remove_facet(&mut self, facet: Facet)
        requires
            old(self).wf(),
        ensures
            final(self).wf(),
            final(self).view_state() == remove_facet_spec(old(self).view_state(), facet@),
            !old(self).facet_list().contains(facet@) ==> final(self).facet_list() == old(
                self,
            ).facet_list(),
            old(self).facet_list().contains(facet@) ==> exists|j: int|
                0 <= j < old(self).facet_list().len() && old(self).facet_list()[j] == facet@
                    && final(self).facet_list() == old(self).facet_list().remove(j),
            final(self).percentile_list() == old(self).percentile_list(),
            final(self).spec_last_upkeep() == old(self).spec_last_upkeep(),
            final(self).spec_conf() == old(self).spec_conf(),
            final(self).spec_window_ns() == old(self).spec_window_ns(),
            final(self).spec_interval_ns() == old(self).spec_interval_ns(),
            final(self).spec_slots() == old(self).spec_slots(),
    {
        match &facet {
            Facet::Count(k) => self.counter.deregister(k.clone()),
            Facet::Gauge(k) => self.gauge.deregister(k.clone()),
            Facet::TimingPercentile(k) => self.histogram.deregister(k.clone()),
            Facet::ValuePercentile(k) => self.histogram.deregister(k.clone()),
        }
        let mut idx: Option<usize> = None;
        let mut i: usize = 0;
        while i < self.facets.len()
            invariant
                0 <= i <= self.facets@.len(),
                match idx {
                    Some(j) => j < self.facets@.len() && self.facets@[j as int]@ == facet@,
                    None => forall|j: int|
                        0 <= j < i ==> (#[trigger] self.facets@[j])@ != facet@,
                },
            decreases self.facets@.len() - i,
        {
            if self.facets[i].facet_eq(&facet) {
                idx = Some(i);
            }
            i = i + 1;
        }
        match idx {
            Some(j) => {
                let ghost pre_facets = self.facets@;
                self.facets.remove(j);
                proof {
                    lemma_facets_set_remove_at(pre_facets, j as int);
                    assert(facets_set(pre_facets).remove(pre_facets[j as int]@) == facets_set(
                        pre_facets,
                    ).remove(facet@));
                    assert(self.view_state() =~= remove_facet_spec(
                        old(self).view_state(),
                        facet@,
                    ));
                    pre_facets.remove_ensures(j as int);
                    facet_views(pre_facets).remove_ensures(j as int);
                    assert(facet_views(pre_facets)[j as int] == facet@);
                    assert(facet_views(pre_facets).contains(facet@));
                    assert(self.facet_list() =~= facet_views(pre_facets).remove(j as int));
                }
                return ;
            },
            None => {},
        }
        proof {
            assert(!facets_set(self.facets@).contains(facet@));
            assert(facets_set(self.facets@) =~= facets_set(self.facets@).remove(facet@));
            assert(self.view_state() =~= remove_facet_spec(old(self).view_state(), facet@));
            assert forall|j: int|
                0 <= j < self.facet_list().len() implies #[trigger] self.facet_list()[j]
                != facet@ by {
                assert(self.facet_list()[j] == self.facets@[j]@);
            }
        }
    }

    /// Builds a snapshot of the registered facets from the current views,
    /// as `snap_maps` says.
    pub fn build_snapshot(&self) -> (r: Snapshot)
        requires
            self.wf(),
        ensures
            (r@.signed, r@.unsigned) == snap_maps(
                self.view_state(),
                self.percentile_list(),
                self.facet_list(),
            ),
    {
        let mut snapshot = Snapshot::new();
        let mut i: usize = 0;
        while i < self.facets.len()
            invariant
                0 <= i <= self.facets@.len(),
                self.wf(),
                (snapshot@.signed, snapshot@.unsigned) == snap_maps(
                    self.view_state(),
                    self.percentile_list(),
                    self.facet_list().take(i as int),
                ),
            decreases self.facets@.len() - i,
        {
            let ghost taken = self.facet_list().take(i as int);
            let ghost sm0 = snapshot@.signed;
            let ghost um0 = snapshot@.unsigned;
            let facet = &self.facets[i];
            match facet {
                Facet::Count(key) => {
                    let total = self.counter.value(key);
                    snapshot.set_count(key.clone(), total);
                },
                Facet::Gauge(key) => {
                    let value = self.gauge.value(key);
                    snapshot.set_value(key.clone(), value);
                },
                Facet::TimingPercentile(key) => {
                    match self.histogram.snapshot(key) {
                        Some(h) => {
                            snapshot.set_timing_percentiles(key.clone(), h, &self.percentiles);
                        },
                        None => {},
                    }
                },
                Facet::ValuePercentile(key) => {
                    match self.histogram.snapshot(key) {
                        Some(h) => {
                            snapshot.set_value_percentiles(key.clone(), h, &self.percentiles);
                        },
                        None => {},
                    }
                },
            }
            proof {
                assert(self.facet_list().take(i + 1).drop_last() =~= taken);
                assert(self.facet_list().take(i + 1).last() == self.facets@[i as int]@);
                match self.facets@[i as int]@ {
                    FacetV::Count(_) => {},
                    FacetV::Gauge(_) => {},
                    FacetV::TimingPercentile(k) => {
                        if window_present(self.view_state().windows, k) {
                            let ms = self.view_state().windows[k].window;
                            let b1 = choose|b: Seq<(u64, u64)>|
                                #[trigger] buckets_represent(ms, b) && snapshot@.unsigned
                                    == percentiles_stored(
                                    um0,
                                    k,
                                    "_ns_"@,
                                    b,
                                    self.percentile_list(),
                                );
                            assert(buckets_represent(ms, buckets_of(ms)));
                            lemma_buckets_unique(ms, b1, buckets_of(ms));
                        }
                    },
                    FacetV::ValuePercentile(k) => {
                        if window_present(self.view_state().windows, k) {
                            let ms = self.view_state().windows[k].window;
                            let b1 = choose|b: Seq<(u64, u64)>|
                                #[trigger] buckets_represent(ms, b) && snapshot@.unsigned
                                    == percentiles_stored(
                                    um0,
                                    k,
                                    "_value_"@,
                                    b,
                                    self.percentile_list(),
                                );
                            assert(buckets_represent(ms, buckets_of(ms)));
                            lemma_buckets_unique(ms, b1, buckets_of(ms));
                        }
                    },
                }
                assert((snapshot@.signed, snapshot@.unsigned) == facet_snap(
                    self.view_state(),
                    self.percentile_list(),
                    self.facet_list().take(i + 1).last(),
                    sm0,
                    um0,
                ));
            }
            i = i + 1;
        }
        proof {
            assert(self.facet_list().take(self.facets@.len() as int) =~= self.facet_list());
        }
        snapshot
    }

    /// Applies one drained batch to all three views, in order, then clears
    /// it and returns it to the buffer pool.
    fn apply_batch(&mut self, batch: Vec<Sample>)
        requires
            old(self).wf(),
        ensures
            final(self).wf(),
            final(self).view_state().counters == counter_apply(
                old(self).view_state().counters,
                sample_views(batch@),
            ),
            final(self).view_state().gauges == gauge_apply(
                old(self).view_state().gauges,
                sample_views(batch@),
            ),
            final(self).view_state().windows == window_apply(
                old(self).view_state().windows,
                sample_views(batch@),
            ),
            final(self).view_state().facets == old(self).view_state().facets,
            final(self).facet_list() == old(self).facet_list(),
            final(self).percentile_list() == old(self).percentile_list(),
            final(self).spec_last_upkeep() == old(self).spec_last_upkeep(),
            final(self).spec_conf() == old(self).spec_conf(),
            final(self).spec_window_ns() == old(self).spec_window_ns(),
            final(self).spec_interval_ns() == old(self).spec_interval_ns(),
            final(self).spec_slots() == old(self).spec_slots(),
    {
        let ghost all = sample_views(batch@);
        let mut batch = batch;
        let mut i: usize = 0;
        while i < batch.len()
            invariant
                0 <= i <= batch@.len(),
                all == sample_views(batch@),
                self.wf(),
                self.conf == old(self).conf,
                self.last_upkeep == old(self).last_upkeep,
                self.histogram.window_ns == old(self).histogram.window_ns,
                self.histogram.interval_ns == old(self).histogram.interval_ns,
                self.histogram.slots == old(self).histogram.slots,
                self.facets@ == old(self).facets@,
                self.percentiles@ == old(self).percentiles@,
                self.counter.view_map() == counter_apply(
                    old(self).view_state().counters,
                    all.take(i as int),
                ),
                self.gauge.view_map() == gauge_apply(
                    old(self).view_state().gauges,
                    all.take(i as int),
                ),
                self.histogram.view_map() == window_apply(
                    old(self).view_state().windows,
                    all.take(i as int),
                ),
            decreases batch@.len() - i,
        {
            proof {
                assert(all.take(i + 1).drop_last() =~= all.take(i as int));
                assert(all.take(i + 1).last() == batch@[i as int]@);
            }
            let sample = &batch[i];
            self.counter.update(sample);
            self.gauge.update(sample);
            self.histogram.update(sample);
            i = i + 1;
        }
        proof {
            assert(all.take(batch@.len() as int) =~= all);
        }
        batch.clear();
        let _ = chan_try_send(&self.buffer_pool_tx, batch);
    }

    /// Runs the receiver for a single turn against an injected clock
    /// reading: upkeep first, so a snapshot served this turn observes a
    /// current window, then one timed receive, then dispatch of whatever
    /// arrived — a batch to the views, a control request to the facet set
    /// or the snapshot path.
    pub fn turn_at(&mut self, now: u64)
        requires
            old(self).wf(),
        ensures
            final(self).wf(),
            final(self).percentile_list() == old(self).percentile_list(),
            final(self).spec_conf() == old(self).spec_conf(),
            final(self).spec_window_ns() == old(self).spec_window_ns(),
            final(self).spec_interval_ns() == old(self).spec_interval_ns(),
            final(self).spec_slots() == old(self).spec_slots(),
            turn_rel(
                old(self).view_state(),
                final(self).view_state(),
                old(self).spec_last_upkeep(),
                final(self).spec_last_upkeep(),
                now,
                old(self).spec_interval_ns(),
                old(self).spec_slots() as int,
            ),
    {
        let ghost st0 = self.view_state();
        let ghost lu0 = self.last_upkeep;
        if now >= self.last_upkeep && now - self.last_upkeep >= 250_000_000 {
            self.histogram.upkeep(now);
            self.last_upkeep = now;
        }
        let ghost mid = self.view_state();
        let ghost lu1 = self.last_upkeep;
        proof {
            assert(upkeep_phase(
                st0,
                mid,
                lu0,
                lu1,
                now,
                old(self).spec_interval_ns(),
                old(self).spec_slots() as int,
            ));
        }
        match chan_recv_timeout(&self.event_rx, self.conf.poll_delay_ms) {
            Some(Event::Data(batch)) => {
                let ghost bs = sample_views(batch@);
                self.apply_batch(batch);
                proof {
                    assert(self.view_state().facets == mid.facets && self.view_state().counters
                        == counter_apply(mid.counters, bs) && self.view_state().gauges
                        == gauge_apply(mid.gauges, bs) && self.view_state().windows
                        == window_apply(mid.windows, bs));
                    assert(dispatch_step(mid, self.view_state()));
                }
            },
            Some(Event::Control(msg)) => {
                match msg {
                    ControlMessage::AddFacet(facet) => {
                        let ghost fv = facet@;
                        self.add_facet(facet);
                        proof {
                            assert(self.view_state() == add_facet_spec(mid, fv));
                            assert(dispatch_step(mid, self.view_state()));
                        }
                    },
                    ControlMessage::RemoveFacet(facet) => {
                        let ghost fv = facet@;
                        self.remove_facet(facet);
                        proof {
                            assert(self.view_state() == remove_facet_spec(mid, fv));
                            assert(dispatch_step(mid, self.view_state()));
                        }
                    },
                    ControlMessage::Snapshot(reply_tx) => {
                        let snapshot = self.build_snapshot();
                        let _ = chan_try_send(&reply_tx, snapshot);
                        proof {
                            assert(dispatch_step(mid, self.view_state()));
                        }
                    },
                }
            },
            None => {
                proof {
                    assert(dispatch_step(mid, self.view_state()));
                }
            },
        }
        proof {
            assert(self.last_upkeep == lu1);
            assert(turn_rel(
                st0,
                self.view_state(),
                lu0,
                lu1,
                now,
                old(self).spec_interval_ns(),
                old(self).spec_slots() as int,
            ));
        }
    }

    /// Runs the receiver for a single turn against the real clock.
    pub fn turn(&mut self)
        requires
            old(self).wf(),
        ensures
            final(self).wf(),
            final(self).percentile_list() == old(self).percentile_list(),
            final(self).spec_conf() == old(self).spec_conf(),
            final(self).spec_window_ns() == old(self).spec_window_ns(),
            final(self).spec_interval_ns() == old(self).spec_interval_ns(),
            final(self).spec_slots() == old(self).spec_slots(),
            exists|now: u64|
                #[trigger] turn_rel(
                    old(self).view_state(),
                    final(self).view_state(),
                    old(self).spec_last_upkeep(),
                    final(self).spec_last_upkeep(),
                    now,
                    old(self).spec_interval_ns(),
                    old(self).spec_slots() as int,
                ),
    {
        let now = elapsed_ns(&self.origin);
        self.turn_at(now);
    }

    /// Runs the receiver until stopped from outside: turn after turn, for
    /// as many turns as a 64-bit counter can hold.
    pub fn run(&mut self)
        requires
            old(self).wf(),
        ensures
            final(self).wf(),
    {
        let mut i: u64 = 0;
        while i < u64::MAX
            invariant
                self.wf(),
            decreases u64::MAX - i,
        {
            self.turn();
            i = i + 1;
        }
    }
}

} // verus!
