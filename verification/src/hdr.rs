use vstd::prelude::*;

verus! {

use vstd::multiset::Multiset;

broadcast use vstd::multiset::group_multiset_axioms;

// The engine stores timing and value distributions in high-dynamic-range
// histograms from the `hdrhistogram` crate.  A histogram is modelled by the
// multiset of values it has recorded, each value taken as its bucket's
// representative; the bucket shape is fixed by the engine's configuration:
// bounds [1, u64::MAX] and three significant digits.

/// A high-dynamic-range histogram over [1, u64::MAX] at three significant
/// digits, as the engine's windowed views use it.
#[verifier::external_body]
pub struct Hist {
    inner: hdrhistogram::Histogram<u64>,
}

/// The recorded contents of a histogram, as the multiset of bucket
/// representatives of the recorded values.
pub uninterp spec fn hist_of(h: Hist) -> Multiset<u64>;

/// Whether a histogram was created with the engine's configuration:
/// bounds [1, u64::MAX], three significant digits, no auto-resize.
pub uninterp spec fn hdr_standard(h: Hist) -> bool;

/// The bucket representative (highest equivalent value) of a value, under
/// the engine's histogram configuration.
pub uninterp spec fn hdr_equiv(v: u64) -> u64;

/// Relies on Histogram::new_with_bounds: with a lower bound of one and
/// three significant digits the arguments are accepted (the bucket count
/// then fits comfortably), and a fresh histogram has recorded nothing.
#[verifier::external_body]
fn hist_new(low: u64, high: u64, sigfig: u8) -> (r: Result<Hist, crate::errors::Error>)
    ensures
        (low == 1 && high >= 2 && sigfig == 3) ==> r.is_ok(),
        r matches Ok(h) ==> hist_of(h) == Multiset::<u64>::empty(),
        low == 1 && high == u64::MAX && sigfig == 3 ==> (r matches Ok(h) ==> hdr_standard(h)),
{
    match hdrhistogram::Histogram::new_with_bounds(low, high, sigfig) {
        Ok(inner) => Ok(Hist { inner }),
        Err(_) => Err(crate::errors::Error::InvalidConfig),
    }
}

/// A fresh histogram in the engine's configuration.
pub(crate) fn fresh_histogram() -> (r: Hist)
    ensures
        hdr_standard(r),
        hist_of(r) == Multiset::<u64>::empty(),
{
    match hist_new(1, u64::MAX, 3) {
        Ok(h) => h,
        Err(_) => vstd::pervasive::unreached(),
    }
}

/// Relies on Histogram::saturating_record: the value is recorded under its
/// bucket's representative.  A value beyond the trackable range would be
/// clamped, and the engine's full-range configuration tracks every u64
/// (zero included, in the zero slot).  At three significant digits the
/// sub-bucket count is 2048, so a bucket holding `value` is no wider than
/// `value / 1024`: the representative is within a tenth of a percent.
#[verifier::external_body]
pub(crate) fn hist_record(h: &mut Hist, value: u64)
    requires
        hdr_standard(*old(h)),
    ensures
        hdr_standard(*final(h)),
        hist_of(*final(h)) == hist_of(*old(h)).insert(hdr_equiv(value)),
        hist_of(*final(h)).contains(hdr_equiv(value)) ==> value <= hdr_equiv(value),
        hist_of(*final(h)).contains(hdr_equiv(value)) ==> hdr_equiv(value) <= value + value
            / 1024,
{
    h.inner.saturating_record(value);
}

/// Relies on Histogram::add: the recorded values of `src` are added to those
/// of `dst`; with both histograms in the engine's full-range configuration
/// the addition cannot be refused.
#[verifier::external_body]
pub(crate) fn hist_add(dst: &mut Hist, src: &Hist)
    requires
        hdr_standard(*old(dst)),
        hdr_standard(*src),
    ensures
        hdr_standard(*final(dst)),
        hist_of(*final(dst)) == hist_of(*old(dst)).add(hist_of(*src)),
{
    let _ = dst.inner.add(&src.inner);
}

/// Relies on Histogram::reset: afterwards nothing is recorded.
#[verifier::external_body]
pub(crate) fn hist_reset(h: &mut Hist)
    requires
        hdr_standard(*old(h)),
    ensures
        hdr_standard(*final(h)),
        hist_of(*final(h)) == Multiset::<u64>::empty(),
{
    h.inner.reset();
}

/// Relies on Histogram::is_empty: true exactly when nothing is recorded.
#[verifier::external_body]
pub(crate) fn hist_is_empty(h: &Hist) -> (r: bool)
    ensures
        r <==> hist_of(*h) == Multiset::<u64>::empty(),
{
    h.inner.is_empty()
}

/// Relies on Histogram's Clone: the copy has the same configuration and the
/// same recorded contents.
#[verifier::external_body]
pub(crate) fn hist_clone(h: &Hist) -> (r: Hist)
    ensures
        hist_of(r) == hist_of(*h),
        hdr_standard(*h) ==> hdr_standard(r),
{
    Hist { inner: h.inner.clone() }
}

/// The sum of the counts of a bucket list.
pub open spec fn sum_counts(s: Seq<(u64, u64)>) -> int
    decreases s.len(),
{
    if s.len() == 0 {
        0
    } else {
        sum_counts(s.drop_last()) + s.last().1
    }
}

/// Bucket lists are sorted strictly by value.
pub open spec fn sorted_buckets(s: Seq<(u64, u64)>) -> bool {
    forall|i: int, j: int| 0 <= i < j < s.len() ==> s[i].0 < s[j].0
}

/// A bucket list is the faithful rendering of a histogram's contents: one
/// entry per recorded value, in ascending order, with its exact count.
pub open spec fn buckets_represent(ms: Multiset<u64>, s: Seq<(u64, u64)>) -> bool {
    &&& sorted_buckets(s)
    &&& forall|i: int| 0 <= i < s.len() ==> (#[trigger] s[i]).1 == ms.count(s[i].0) && s[i].1 >= 1
    &&& forall|v: u64|
        #[trigger] ms.count(v) > 0 ==> exists|i: int| 0 <= i < s.len() && (#[trigger] s[i]).0 == v
}

/// Relies on Histogram::iter_recorded: it yields one entry per non-empty
/// bucket in ascending value order, carrying the bucket's representative
/// value and its count; the counts sum to the histogram's total count,
/// which is itself a u64.
#[verifier::external_body]
pub(crate) fn hist_buckets(h: &Hist) -> (r: Vec<(u64, u64)>)
    requires
        hdr_standard(*h),
    ensures
        buckets_represent(hist_of(*h), r@),
        sum_counts(r@) == hist_of(*h).len(),
        sum_counts(r@) <= u64::MAX,
{
    let mut out: Vec<(u64, u64)> = Vec::new();
    for v in h.inner.iter_recorded() {
        out.push((v.value_iterated_to(), v.count_at_value()));
    }
    out
}

impl Hist {
    /// A fresh, empty histogram in the engine's configuration.
    pub fn new() -> (r: Hist)
        ensures
            hdr_standard(r),
            hist_of(r) == Multiset::<u64>::empty(),
    {
        fresh_histogram()
    }

    /// Records a value under its bucket's representative, which is the
    /// value itself up to the histogram's relative accuracy.
    pub fn saturating_record(&mut self, value: u64)
        requires
            hdr_standard(*old(self)),
        ensures
            hdr_standard(*final(self)),
            hist_of(*final(self)) == hist_of(*old(self)).insert(hdr_equiv(value)),
            value <= hdr_equiv(value) && hdr_equiv(value) <= value + value / 1024,
    {
        hist_record(self, value);
    }

    /// Whether nothing has been recorded.
    pub fn is_empty(&self) -> (r: bool)
        ensures
            r <==> hist_of(*self) == Multiset::<u64>::empty(),
    {
        hist_is_empty(self)
    }
}

impl Clone for Hist {
    fn clone(&self) -> (r: Hist)
        ensures
            hist_of(r) == hist_of(*self),
            hdr_standard(*self) ==> hdr_standard(r),
    {
        hist_clone(self)
    }
}

/// The number of recorded values at or below rank `q` tenths of a percent
/// that must be covered: the ceiling of `q * total / 1000`, and at least one.
pub open spec fn threshold(q: u64, total: int) -> int {
    let t = (q * total + 999) / 1000;
    if t < 1 {
        1
    } else {
        t
    }
}

/// The first bucket value whose cumulative count reaches `need`, or 0 when
/// the buckets run out.
pub open spec fn pick(b: Seq<(u64, u64)>, need: int) -> u64
    decreases b.len(),
{
    if b.len() == 0 {
        0u64
    } else if b[0].1 >= need {
        b[0].0
    } else {
        pick(b.drop_first(), need - b[0].1)
    }
}

/// The value a bucket list yields for percentile rank `q` (in tenths of a
/// percent): the smallest bucket value at or below which at least
/// `q/1000` of the recorded values fall.
pub open spec fn percentile_value(b: Seq<(u64, u64)>, q: u64) -> u64 {
    pick(b, threshold(q, sum_counts(b)))
}

proof fn lemma_sum_counts_nonneg(s: Seq<(u64, u64)>)
    ensures
        sum_counts(s) >= 0,
    decreases s.len(),
{
    if s.len() > 0 {
        lemma_sum_counts_nonneg(s.drop_last());
    }
}

proof fn lemma_sum_counts_first(s: Seq<(u64, u64)>)
    requires
        s.len() > 0,
    ensures
        sum_counts(s) == s[0].1 + sum_counts(s.drop_first()),
    decreases s.len(),
{
    if s.len() == 1 {
        assert(s.drop_first() =~= Seq::<(u64, u64)>::empty());
        assert(s.drop_last() =~= Seq::<(u64, u64)>::empty());
    } else {
        assert(sum_counts(s) == sum_counts(s.drop_last()) + s.last().1);
        lemma_sum_counts_first(s.drop_last());
        assert(sum_counts(s.drop_last()) == s.drop_last()[0].1 + sum_counts(
            s.drop_last().drop_first(),
        ));
        assert(s.drop_last()[0] == s[0]);
        assert(s.drop_last().drop_first() =~= s.drop_first().drop_last());
        assert(s.drop_first().last() == s.last());
        assert(s.drop_first().len() > 0);
        assert(sum_counts(s.drop_first()) == sum_counts(s.drop_first().drop_last())
            + s.drop_first().last().1);
    }
}

/// The value selected for a reachable rank is one of the bucket values, so
/// it is at least the first (smallest) one.
proof fn lemma_pick_lower_bound(b: Seq<(u64, u64)>, need: int)
    requires
        sorted_buckets(b),
        1 <= need <= sum_counts(b),
    ensures
        b.len() > 0,
        pick(b, need) >= b[0].0,
    decreases b.len(),
{
    lemma_sum_counts_nonneg(b);
    assert(b.len() > 0);
    lemma_sum_counts_first(b);
    if b[0].1 >= need {
    } else {
        lemma_pick_lower_bound(b.drop_first(), need - b[0].1);
        assert(b.drop_first()[0] == b[1]);
    }
}

/// Selection is monotone in the demanded count, as long as the demand stays
/// within the recorded total.
proof fn lemma_pick_monotone(b: Seq<(u64, u64)>, n1: int, n2: int)
    requires
        sorted_buckets(b),
        1 <= n1 <= n2,
        n2 <= sum_counts(b),
    ensures
        pick(b, n1) <= pick(b, n2),
    decreases b.len(),
{
    lemma_sum_counts_nonneg(b);
    lemma_sum_counts_first(b);
    if b[0].1 >= n2 {
    } else if b[0].1 >= n1 {
        lemma_pick_lower_bound(b.drop_first(), n2 - b[0].1);
        assert(b.drop_first()[0] == b[1]);
    } else {
        lemma_pick_monotone(b.drop_first(), n1 - b[0].1, n2 - b[0].1);
    }
}

/// Within one histogram, the value read for a higher percentile rank is
/// never below the value read for a lower rank.
pub proof fn lemma_percentile_monotone(b: Seq<(u64, u64)>, q1: u64, q2: u64)
    requires
        sorted_buckets(b),
        q1 <= q2 <= 1000,
    ensures
        percentile_value(b, q1) <= percentile_value(b, q2),
{
    lemma_sum_counts_nonneg(b);
    let total = sum_counts(b);
    if total == 0 {
        assert(threshold(q1, 0) == 1) by {
            assert((q1 * 0 + 999) / 1000 == 0);
        }
        assert(threshold(q2, 0) == 1) by {
            assert((q2 * 0 + 999) / 1000 == 0);
        }
    } else {
        let t1 = threshold(q1, total);
        let t2 = threshold(q2, total);
        assert(q1 * total <= q2 * total) by {
            vstd::arithmetic::mul::lemma_mul_inequality(q1 as int, q2 as int, total);
        }
        assert((q1 * total + 999) / 1000 <= (q2 * total + 999) / 1000) by {
            vstd::arithmetic::div_mod::lemma_div_is_ordered(
                q1 * total + 999,
                q2 * total + 999,
                1000,
            );
        }
        assert(q2 * total <= 1000 * total) by {
            vstd::arithmetic::mul::lemma_mul_inequality(q2 as int, 1000, total);
        }
        assert((q2 * total + 999) / 1000 <= (1000 * total + 999) / 1000) by {
            vstd::arithmetic::div_mod::lemma_div_is_ordered(
                q2 * total + 999,
                1000 * total + 999,
                1000,
            );
        }
        assert((1000 * total + 999) / 1000 == total) by {
            vstd::arithmetic::div_mod::lemma_fundamental_div_mod_converse(
                1000 * total + 999,
                1000,
                total,
                999,
            );
        }
        assert(1 <= t1 && t1 <= t2 && t2 <= total);
        lemma_pick_monotone(b, t1, t2);
    }
}

/// The total count of a bucket list.
pub(crate) fn bucket_total(buckets: &Vec<(u64, u64)>) -> (r: u64)
    requires
        sum_counts(buckets@) <= u64::MAX,
    ensures
        r == sum_counts(buckets@),
{
    proof {
        lemma_sum_counts_nonneg(buckets@);
    }
    let mut total: u64 = 0;
    let mut i: usize = 0;
    while i < buckets.len()
        invariant
            0 <= i <= buckets@.len(),
            sum_counts(buckets@) <= u64::MAX,
            total == sum_counts(buckets@.take(i as int)),
        decreases buckets@.len() - i,
    {
        proof {
            assert(buckets@.take(i + 1).drop_last() =~= buckets@.take(i as int));
            assert(buckets@.take(i + 1).last() == buckets@[i as int]);
            lemma_sum_prefix_bound(buckets@, i + 1);
            lemma_sum_counts_nonneg(buckets@.take(i as int));
        }
        total = total + buckets[i].1;
        i = i + 1;
    }
    proof {
        assert(buckets@.take(buckets@.len() as int) =~= buckets@);
    }
    total
}

proof fn lemma_pick_zero(b: Seq<(u64, u64)>, need: int)
    requires
        sum_counts(b) == 0,
        need >= 1,
    ensures
        pick(b, need) == 0,
    decreases b.len(),
{
    if b.len() > 0 {
        lemma_sum_counts_first(b);
        lemma_sum_counts_nonneg(b.drop_first());
        lemma_pick_zero(b.drop_first(), need - b[0].1);
    }
}

proof fn lemma_sum_prefix_bound(s: Seq<(u64, u64)>, i: int)
    requires
        0 <= i <= s.len(),
    ensures
        sum_counts(s.take(i)) <= sum_counts(s),
    decreases s.len() - i,
{
    if i < s.len() {
        lemma_sum_prefix_bound(s, i + 1);
        assert(s.take(i + 1).drop_last() =~= s.take(i));
        assert(s.take(i + 1).last() == s[i]);
    } else {
        assert(s.take(i) =~= s);
    }
}

/// The value at percentile rank `q` (in tenths of a percent) of a sorted
/// bucket list: a cumulative scan for the first bucket that covers the
/// demanded share of the recorded values.
pub fn percentile_select(buckets: &Vec<(u64, u64)>, q: u64) -> (r: u64)
    requires
        q <= 1000,
        sum_counts(buckets@) <= u64::MAX,
    ensures
        r == percentile_value(buckets@, q),
{
    let total = bucket_total(buckets);
    if total == 0 {
        proof {
            lemma_pick_zero(buckets@, threshold(q, 0));
        }
        return 0;
    }
    proof {
        vstd::arithmetic::mul::lemma_mul_upper_bound(
            q as int,
            1000,
            total as int,
            u64::MAX as int,
        );
    }
    let wide: u128 = (q as u128) * (total as u128) + 999;
    let th128: u128 = wide / 1000;
    proof {
        assert((q * (total as int) + 999) / 1000 <= total) by {
            vstd::arithmetic::mul::lemma_mul_inequality(q as int, 1000, total as int);
            vstd::arithmetic::div_mod::lemma_div_is_ordered(
                q * (total as int) + 999,
                1000 * (total as int) + 999,
                1000,
            );
            vstd::arithmetic::div_mod::lemma_fundamental_div_mod_converse(
                1000 * (total as int) + 999,
                1000,
                total as int,
                999,
            );
        }
    }
    let th0: u64 = th128 as u64;
    let mut need: u64 = if th0 < 1 {
        1
    } else {
        th0
    };
    proof {
        assert(need == threshold(q, sum_counts(buckets@)));
    }
    let ghost th: int = need as int;
    proof {
        assert(buckets@.skip(0) =~= buckets@);
    }
    let mut i: usize = 0;
    while i < buckets.len()
        invariant
            0 <= i <= buckets@.len(),
            1 <= need,
            th == threshold(q, sum_counts(buckets@)),
            pick(buckets@, th) == pick(buckets@.skip(i as int), need as int),
        decreases buckets@.len() - i,
    {
        proof {
            assert(buckets@.skip(i as int)[0] == buckets@[i as int]);
            assert(buckets@.skip(i as int).drop_first() =~= buckets@.skip(i + 1));
        }
        if buckets[i].1 >= need {
            return buckets[i].0;
        }
        need = need - buckets[i].1;
        i = i + 1;
    }
    proof {
        assert(buckets@.skip(buckets@.len() as int) =~= Seq::<(u64, u64)>::empty());
    }
    0
}

} // verus!
