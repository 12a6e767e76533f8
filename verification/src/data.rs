use vstd::prelude::*;

verus! {

/// A derived view registration for a metric key.
///
/// Facets tell the aggregator which views to maintain for a key: a running
/// count, a last-write-wins gauge, or percentiles over a sliding window of
/// timing or value samples.  Facets form a set; registering one twice is the
/// same as registering it once.
pub enum Facet {
    /// A running count for the key.
    Count(String),
    /// A last-write-wins gauge for the key.
    Gauge(String),
    /// Percentiles over the timing samples of the key.
    TimingPercentile(String),
    /// Percentiles over the value samples of the key.
    ValuePercentile(String),
}

/// The mathematical value of a `Facet`: the same shape over sequences of
/// characters.
pub enum FacetV {
    Count(Seq<char>),
    Gauge(Seq<char>),
    TimingPercentile(Seq<char>),
    ValuePercentile(Seq<char>),
}

impl View for Facet {
    type V = FacetV;

    open spec fn view(&self) -> FacetV {
        match self {
            Facet::Count(k) => FacetV::Count(k@),
            Facet::Gauge(k) => FacetV::Gauge(k@),
            Facet::TimingPercentile(k) => FacetV::TimingPercentile(k@),
            Facet::ValuePercentile(k) => FacetV::ValuePercentile(k@),
        }
    }
}

impl Facet {
    /// Equality of facets: same variant, same key.
    pub fn facet_eq(&self, other: &Facet) -> (r: bool)
        ensures
            r == (self@ == other@),
    {
        match (self, other) {
            (Facet::Count(a), Facet::Count(b)) => *a == *b,
            (Facet::Gauge(a), Facet::Gauge(b)) => *a == *b,
            (Facet::TimingPercentile(a), Facet::TimingPercentile(b)) => *a == *b,
            (Facet::ValuePercentile(a), Facet::ValuePercentile(b)) => *a == *b,
            _ => false,
        }
    }
}

impl Clone for Facet {
    fn clone(&self) -> (r: Facet)
        ensures
            r@ == self@,
    {
        match self {
            Facet::Count(k) => Facet::Count(k.clone()),
            Facet::Gauge(k) => Facet::Gauge(k.clone()),
            Facet::TimingPercentile(k) => Facet::TimingPercentile(k.clone()),
            Facet::ValuePercentile(k) => Facet::ValuePercentile(k.clone()),
        }
    }
}

/// A measurement submitted by a producer.
///
/// Instants are carried as monotonic nanosecond readings, so that the
/// windowed views can be driven by an injected clock as well as a real one.
pub enum Sample {
    /// A timed event: key, start instant and end instant in nanoseconds, and
    /// an auxiliary count integral to the event (such as bytes processed).
    Timing(String, u64, u64, u64),
    /// A signed additive delta for the key's running count.
    Count(String, i64),
    /// A single unsigned value for the key's gauge, last write wins.
    Value(String, u64),
}

/// The mathematical value of a `Sample`.
pub enum SampleV {
    Timing(Seq<char>, u64, u64, u64),
    Count(Seq<char>, i64),
    Value(Seq<char>, u64),
}

impl View for Sample {
    type V = SampleV;

    open spec fn view(&self) -> SampleV {
        match self {
            Sample::Timing(k, s, e, c) => SampleV::Timing(k@, *s, *e, *c),
            Sample::Count(k, d) => SampleV::Count(k@, *d),
            Sample::Value(k, v) => SampleV::Value(k@, *v),
        }
    }
}

/// The views of the samples of a batch, in order.
pub open spec fn sample_views(s: Seq<Sample>) -> Seq<SampleV> {
    s.map_values(|x: Sample| x@)
}

/// A labeled percentile: a display label and a rank in tenths of a percent,
/// from 0 (the minimum) to 1000 (the maximum).
pub struct Percentile(pub String, pub u64);

impl View for Percentile {
    type V = (Seq<char>, u64);

    open spec fn view(&self) -> (Seq<char>, u64) {
        (self.0@, self.1)
    }
}

impl Clone for Percentile {
    fn clone(&self) -> (r: Percentile)
        ensures
            r@ == self@,
    {
        Percentile(self.0.clone(), self.1)
    }
}

/// The values of the default percentile set: min, p50, p90, p99, p999 and
/// max, with their ranks in tenths of a percent.
pub open spec fn default_percentile_list() -> Seq<(Seq<char>, u64)> {
    seq![
        ("min"@, 0u64),
        ("p50"@, 500u64),
        ("p90"@, 900u64),
        ("p99"@, 990u64),
        ("p999"@, 999u64),
        ("max"@, 1000u64),
    ]
}

/// The default percentile set: min, p50, p90, p99, p999 and max.
pub fn default_percentiles() -> (r: Vec<Percentile>)
    ensures
        percentile_views(r@) == default_percentile_list(),
        forall|i: int| 0 <= i < r@.len() ==> (#[trigger] r@[i]@).1 <= 1000,
{
    let mut p: Vec<Percentile> = Vec::new();
    p.push(Percentile("min".to_owned(), 0));
    p.push(Percentile("p50".to_owned(), 500));
    p.push(Percentile("p90".to_owned(), 900));
    p.push(Percentile("p99".to_owned(), 990));
    p.push(Percentile("p999".to_owned(), 999));
    p.push(Percentile("max".to_owned(), 1000));
    proof {
        assert(percentile_views(p@) =~= default_percentile_list());
    }
    p
}

/// The views of a percentile list.
pub open spec fn percentile_views(s: Seq<Percentile>) -> Seq<(Seq<char>, u64)> {
    s.map_values(|p: Percentile| p@)
}

// A snapshot stores its flat data in hash maps of the `fnv` crate, keyed by
// synthesised string labels.  The maps are modelled by the mapping from
// label to stored number.

/// A hash map from label to signed value, from the `fnv` crate.
#[verifier::external_body]
pub struct SignedMap {
    inner: fnv::FnvHashMap<String, i64>,
}

/// The entries a signed map holds.
pub uninterp spec fn signed_entries(m: SignedMap) -> Map<Seq<char>, i64>;

/// The empty signed label map.
pub open spec fn no_signed_entries() -> Map<Seq<char>, i64> {
    Map::empty()
}

/// A hash map from label to unsigned value, from the `fnv` crate.
#[verifier::external_body]
pub struct UnsignedMap {
    inner: fnv::FnvHashMap<String, u64>,
}

/// The entries an unsigned map holds.
pub uninterp spec fn unsigned_entries(m: UnsignedMap) -> Map<Seq<char>, u64>;

/// The empty unsigned label map.
pub open spec fn no_unsigned_entries() -> Map<Seq<char>, u64> {
    Map::empty()
}

impl SignedMap {
    /// Relies on HashMap::default with the fnv hasher: a new map is empty.
    #[verifier::external_body]
    pub(crate) fn new() -> (r: SignedMap)
        ensures
            signed_entries(r) == no_signed_entries(),
    {
        SignedMap { inner: fnv::FnvHashMap::default() }
    }

    /// Relies on HashMap::insert: the map now binds `key` to `value` and is
    /// otherwise unchanged.
    #[verifier::external_body]
    pub(crate) fn insert(&mut self, key: String, value: i64)
        ensures
            signed_entries(*final(self)) == signed_entries(*old(self)).insert(key@, value),
    {
        self.inner.insert(key, value);
    }

    /// Relies on HashMap::get: the value bound to `key`, if any.
    #[verifier::external_body]
    pub(crate) fn get(&self, key: &String) -> (r: Option<i64>)
        ensures
            r == if signed_entries(*self).contains_key(key@) {
                Some(signed_entries(*self)[key@])
            } else {
                None::<i64>
            },
    {
        self.inner.get(key).copied()
    }
}

impl UnsignedMap {
    /// Relies on HashMap::default with the fnv hasher: a new map is empty.
    #[verifier::external_body]
    pub(crate) fn new() -> (r: UnsignedMap)
        ensures
            unsigned_entries(r) == no_unsigned_entries(),
    {
        UnsignedMap { inner: fnv::FnvHashMap::default() }
    }

    /// Relies on HashMap::insert: the map now binds `key` to `value` and is
    /// otherwise unchanged.
    #[verifier::external_body]
    pub(crate) fn insert(&mut self, key: String, value: u64)
        ensures
            unsigned_entries(*final(self)) == unsigned_entries(*old(self)).insert(key@, value),
    {
        self.inner.insert(key, value);
    }

    /// Relies on HashMap::get: the value bound to `key`, if any.
    #[verifier::external_body]
    pub(crate) fn get(&self, key: &String) -> (r: Option<u64>)
        ensures
            r == if unsigned_entries(*self).contains_key(key@) {
                Some(unsigned_entries(*self)[key@])
            } else {
                None::<u64>
            },
    {
        self.inner.get(key).copied()
    }
}

/// Relies on alloc's string formatting: the result is the two parts joined
/// in order.
#[verifier::external_body]
pub(crate) fn concat_str(a: &str, b: &str) -> (r: String)
    ensures
        r@ == a@ + b@,
{
    format!("{}{}", a, b)
}

/// The label under which a key's count is stored.
pub open spec fn count_label(k: Seq<char>) -> Seq<char> {
    k + "_count"@
}

/// Count labels of different keys never collide.
pub proof fn lemma_count_label_injective(k1: Seq<char>, k2: Seq<char>)
    requires
        count_label(k1) == count_label(k2),
    ensures
        k1 == k2,
{
    reveal_strlit("_count");
    assert(count_label(k1).len() == count_label(k2).len());
    assert(count_label(k1).len() == k1.len() + "_count"@.len());
    assert(count_label(k2).len() == k2.len() + "_count"@.len());
    assert(k1.len() == k2.len());
    assert(k1 =~= count_label(k1).subrange(0, k1.len() as int));
    assert(k2 =~= count_label(k2).subrange(0, k2.len() as int));
}

/// The label under which a key's gauge value is stored.
pub open spec fn value_label(k: Seq<char>) -> Seq<char> {
    k + "_value"@
}

/// Gauge labels of different keys never collide.
pub proof fn lemma_value_label_injective(k1: Seq<char>, k2: Seq<char>)
    requires
        value_label(k1) == value_label(k2),
    ensures
        k1 == k2,
{
    reveal_strlit("_value");
    assert(value_label(k1).len() == value_label(k2).len());
    assert(value_label(k1).len() == k1.len() + "_value"@.len());
    assert(value_label(k2).len() == k2.len() + "_value"@.len());
    assert(k1.len() == k2.len());
    assert(k1 =~= value_label(k1).subrange(0, k1.len() as int));
    assert(k2 =~= value_label(k2).subrange(0, k2.len() as int));
}

/// The label under which a percentile of a key is stored: the key, an
/// infix naming the facet, and the percentile's own label.
pub open spec fn percentile_label(k: Seq<char>, infix: Seq<char>, p: Seq<char>) -> Seq<char> {
    k + infix + p
}

/// The map that results from storing, for every percentile of `ps`, the
/// value the bucket list `b` yields for its rank, under its label.
pub open spec fn percentiles_stored(
    m: Map<Seq<char>, u64>,
    k: Seq<char>,
    infix: Seq<char>,
    b: Seq<(u64, u64)>,
    ps: Seq<(Seq<char>, u64)>,
) -> Map<Seq<char>, u64>
    decreases ps.len(),
{
    if ps.len() == 0 {
        m
    } else {
        percentiles_stored(m, k, infix, b, ps.drop_last()).insert(
            percentile_label(k, infix, ps.last().0),
            crate::hdr::percentile_value(b, ps.last().1),
        )
    }
}

/// Storing percentiles leaves every entry under an unrelated label alone.
pub proof fn lemma_percentiles_stored_other(
    m: Map<Seq<char>, u64>,
    k: Seq<char>,
    infix: Seq<char>,
    b: Seq<(u64, u64)>,
    ps: Seq<(Seq<char>, u64)>,
    l: Seq<char>,
)
    requires
        forall|i: int| 0 <= i < ps.len() ==> percentile_label(k, infix, (#[trigger] ps[i]).0) != l,
    ensures
        percentiles_stored(m, k, infix, b, ps).contains_key(l) == m.contains_key(l),
        m.contains_key(l) ==> percentiles_stored(m, k, infix, b, ps)[l] == m[l],
    decreases ps.len(),
{
    if ps.len() > 0 {
        lemma_percentiles_stored_other(m, k, infix, b, ps.drop_last(), l);
        assert(ps[ps.len() - 1].0 == ps.last().0);
    }
}

/// Percentile labels with the same key and infix only collide when the
/// percentile's own label is the same.
pub proof fn lemma_percentile_label_injective(
    k: Seq<char>,
    infix: Seq<char>,
    p1: Seq<char>,
    p2: Seq<char>,
)
    requires
        percentile_label(k, infix, p1) == percentile_label(k, infix, p2),
    ensures
        p1 == p2,
{
    let a = k + infix;
    assert(percentile_label(k, infix, p1).len() == a.len() + p1.len());
    assert(percentile_label(k, infix, p2).len() == a.len() + p2.len());
    assert(p1.len() == p2.len());
    assert(p1 =~= percentile_label(k, infix, p1).subrange(
        a.len() as int,
        a.len() + p1.len() as int,
    ));
    assert(p2 =~= percentile_label(k, infix, p2).subrange(
        a.len() as int,
        a.len() + p2.len() as int,
    ));
}

/// The entry stored for one percentile of the list: the value the bucket
/// list yields for its rank, provided no later percentile reuses its label.
pub proof fn lemma_percentiles_stored_lookup(
    m: Map<Seq<char>, u64>,
    k: Seq<char>,
    infix: Seq<char>,
    b: Seq<(u64, u64)>,
    ps: Seq<(Seq<char>, u64)>,
    i: int,
)
    requires
        0 <= i < ps.len(),
        forall|j: int| i < j < ps.len() ==> (#[trigger] ps[j]).0 != ps[i].0,
    ensures
        percentiles_stored(m, k, infix, b, ps).contains_key(percentile_label(k, infix, ps[i].0)),
        percentiles_stored(m, k, infix, b, ps)[percentile_label(k, infix, ps[i].0)]
            == crate::hdr::percentile_value(b, ps[i].1),
    decreases ps.len(),
{
    if i == ps.len() - 1 {
        assert(ps.last() == ps[i]);
    } else {
        assert forall|j: int|
            i < j < ps.drop_last().len() implies (#[trigger] ps.drop_last()[j]).0 != ps.drop_last(
        )[i].0 by {
            assert(ps.drop_last()[j] == ps[j]);
        }
        lemma_percentiles_stored_lookup(m, k, infix, b, ps.drop_last(), i);
        assert(ps[ps.len() - 1] == ps.last());
        assert(ps.last().0 != ps[i].0);
        assert(percentile_label(k, infix, ps.last().0) != percentile_label(k, infix, ps[i].0)) by {
            if percentile_label(k, infix, ps.last().0) == percentile_label(k, infix, ps[i].0) {
                lemma_percentile_label_injective(k, infix, ps.last().0, ps[i].0);
            }
        }
        assert(ps.drop_last()[i] == ps[i]);
    }
}

/// Within a single snapshot, among the percentile entries stored for one
/// key and facet from one histogram, the value stored for a higher rank is
/// never below the value stored for a lower rank.
pub proof fn lemma_stored_percentiles_monotone(
    m: Map<Seq<char>, u64>,
    k: Seq<char>,
    infix: Seq<char>,
    b: Seq<(u64, u64)>,
    ps: Seq<(Seq<char>, u64)>,
    i: int,
    j: int,
)
    requires
        crate::hdr::sorted_buckets(b),
        0 <= i < ps.len(),
        0 <= j < ps.len(),
        ps[i].1 <= ps[j].1 <= 1000,
        forall|a: int| i < a < ps.len() ==> (#[trigger] ps[a]).0 != ps[i].0,
        forall|a: int| j < a < ps.len() ==> (#[trigger] ps[a]).0 != ps[j].0,
    ensures
        percentiles_stored(m, k, infix, b, ps)[percentile_label(k, infix, ps[i].0)]
            <= percentiles_stored(m, k, infix, b, ps)[percentile_label(k, infix, ps[j].0)],
{
    lemma_percentiles_stored_lookup(m, k, infix, b, ps, i);
    lemma_percentiles_stored_lookup(m, k, infix, b, ps, j);
    crate::hdr::lemma_percentile_monotone(b, ps[i].1, ps[j].1);
}

/// The mathematical value of a `Snapshot`: its two flat label-keyed maps.
pub struct SnapshotV {
    pub signed: Map<Seq<char>, i64>,
    pub unsigned: Map<Seq<char>, u64>,
}

/// A point-in-time view of metric data: flat maps from synthesised labels
/// to signed and unsigned numbers.  A snapshot is immutable once served:
/// its queries depend on nothing but the snapshot itself.
pub struct Snapshot {
    signed_data: SignedMap,
    unsigned_data: UnsignedMap,
}

impl View for Snapshot {
    type V = SnapshotV;

    closed spec fn view(&self) -> SnapshotV {
        SnapshotV {
            signed: signed_entries(self.signed_data),
            unsigned: unsigned_entries(self.unsigned_data),
        }
    }
}

impl Snapshot {
    /// Creates an empty `Snapshot`.
    pub fn new() -> (r: Snapshot)
        ensures
            r@.signed == no_signed_entries(),
            r@.unsigned == no_unsigned_entries(),
    {
        Snapshot { signed_data: SignedMap::new(), unsigned_data: UnsignedMap::new() }
    }

    /// Stores a counter value for the given metric key.
    pub fn set_count(&mut self, key: String, value: i64)
        ensures
            final(self)@.signed == old(self)@.signed.insert(count_label(key@), value),
            final(self)@.unsigned == old(self)@.unsigned,
    {
        let label = concat_str(key.as_str(), "_count");
        self.signed_data.insert(label, value);
    }

    /// Stores a gauge value for the given metric key.
    pub fn set_value(&mut self, key: String, value: u64)
        ensures
            final(self)@.unsigned == old(self)@.unsigned.insert(value_label(key@), value),
            final(self)@.signed == old(self)@.signed,
    {
        let label = concat_str(key.as_str(), "_value");
        self.unsigned_data.insert(label, value);
    }

    /// Stores the given timing percentiles for the given metric key, read
    /// from a histogram of recorded nanosecond timings.
    pub fn set_timing_percentiles(&mut self, key: String, h: crate::hdr::Hist, percentiles: &Vec<
        Percentile,
    >)
        requires
            crate::hdr::hdr_standard(h),
            forall|i: int|
                0 <= i < percentiles@.len() ==> (#[trigger] percentiles@[i])@.1 <= 1000,
        ensures
            final(self)@.signed == old(self)@.signed,
            exists|b: Seq<(u64, u64)>|
                crate::hdr::buckets_represent(crate::hdr::hist_of(h), b) && final(self)@.unsigned
                    == percentiles_stored(
                    old(self)@.unsigned,
                    key@,
                    "_ns_"@,
                    b,
                    percentile_views(percentiles@),
                ),
    {
        self.store_percentiles(key, h, "_ns_", percentiles);
    }

    /// Stores the given value percentiles for the given metric key, read
    /// from a histogram of recorded gauge values.
    pub fn set_value_percentiles(&mut self, key: String, h: crate::hdr::Hist, percentiles: &Vec<
        Percentile,
    >)
        requires
            crate::hdr::hdr_standard(h),
            forall|i: int|
                0 <= i < percentiles@.len() ==> (#[trigger] percentiles@[i])@.1 <= 1000,
        ensures
            final(self)@.signed == old(self)@.signed,
            exists|b: Seq<(u64, u64)>|
                crate::hdr::buckets_represent(crate::hdr::hist_of(h), b) && final(self)@.unsigned
                    == percentiles_stored(
                    old(self)@.unsigned,
                    key@,
                    "_value_"@,
                    b,
                    percentile_views(percentiles@),
                ),
    {
        self.store_percentiles(key, h, "_value_", percentiles);
    }

    /// Stores, for every percentile of the list, the value the histogram
    /// yields for its rank, under the label built with `infix`.
    fn store_percentiles(&mut self, key: String, h: crate::hdr::Hist, infix: &str, percentiles: &Vec<
        Percentile,
    >)
        requires
            crate::hdr::hdr_standard(h),
            forall|i: int|
                0 <= i < percentiles@.len() ==> (#[trigger] percentiles@[i])@.1 <= 1000,
        ensures
            final(self)@.signed == old(self)@.signed,
            exists|b: Seq<(u64, u64)>|
                crate::hdr::buckets_represent(crate::hdr::hist_of(h), b) && final(self)@.unsigned
                    == percentiles_stored(
                    old(self)@.unsigned,
                    key@,
                    infix@,
                    b,
                    percentile_views(percentiles@),
                ),
    {
        let buckets = crate::hdr::hist_buckets(&h);
        let prefix = concat_str(key.as_str(), infix);
        let ghost m0 = self@.unsigned;
        let ghost pviews = percentile_views(percentiles@);
        let mut i: usize = 0;
        while i < percentiles.len()
            invariant
                0 <= i <= percentiles@.len(),
                crate::hdr::sum_counts(buckets@) <= u64::MAX,
                forall|j: int|
                    0 <= j < percentiles@.len() ==> (#[trigger] percentiles@[j])@.1 <= 1000,
                pviews == percentile_views(percentiles@),
                prefix@ == key@ + infix@,
                self@.signed == old(self)@.signed,
                self@.unsigned == percentiles_stored(
                    m0,
                    key@,
                    infix@,
                    buckets@,
                    pviews.take(i as int),
                ),
                m0 == old(self)@.unsigned,
            decreases percentiles@.len() - i,
        {
            let p = &percentiles[i];
            let label = concat_str(prefix.as_str(), p.0.as_str());
            let value = crate::hdr::percentile_select(&buckets, p.1);
            proof {
                assert(pviews.take(i + 1).drop_last() =~= pviews.take(i as int));
                assert(pviews.take(i + 1).last() == percentiles@[i as int]@);
                assert(label@ == percentile_label(key@, infix@, percentiles@[i as int]@.0));
            }
            self.unsigned_data.insert(label, value);
            i = i + 1;
        }
        proof {
            assert(pviews.take(percentiles@.len() as int) =~= pviews);
        }
    }

    /// Gets the counter value for the given metric key.
    ///
    /// Returns `None` if the metric key has no counter value in this
    /// snapshot.
    pub fn count(&self, key: &String) -> (r: Option<i64>)
        ensures
            r == if self@.signed.contains_key(count_label(key@)) {
                Some(self@.signed[count_label(key@)])
            } else {
                None::<i64>
            },
    {
        let label = concat_str(key.as_str(), "_count");
        self.signed_data.get(&label)
    }

    /// Gets the gauge value for the given metric key.
    ///
    /// Returns `None` if the metric key has no gauge value in this snapshot.
    pub fn value(&self, key: &String) -> (r: Option<u64>)
        ensures
            r == if self@.unsigned.contains_key(value_label(key@)) {
                Some(self@.unsigned[value_label(key@)])
            } else {
                None::<u64>
            },
    {
        let label = concat_str(key.as_str(), "_value");
        self.unsigned_data.get(&label)
    }

    /// Gets the given timing percentile for the given metric key.
    ///
    /// Returns `None` if the metric key has no value at the given
    /// percentile in this snapshot.
    pub fn timing_percentile(&self, key: &String, percentile: Percentile) -> (r: Option<u64>)
        ensures
            r == if self@.unsigned.contains_key(
                percentile_label(key@, "_ns_"@, percentile.0@),
            ) {
                Some(self@.unsigned[percentile_label(key@, "_ns_"@, percentile.0@)])
            } else {
                None::<u64>
            },
    {
        let prefix = concat_str(key.as_str(), "_ns_");
        let label = concat_str(prefix.as_str(), percentile.0.as_str());
        self.unsigned_data.get(&label)
    }

    /// Gets the given value percentile for the given metric key.
    ///
    /// Returns `None` if the metric key has no value at the given
    /// percentile in this snapshot.
    pub fn value_percentile(&self, key: &String, percentile: Percentile) -> (r: Option<u64>)
        ensures
            r == if self@.unsigned.contains_key(
                percentile_label(key@, "_value_"@, percentile.0@),
            ) {
                Some(self@.unsigned[percentile_label(key@, "_value_"@, percentile.0@)])
            } else {
                None::<u64>
            },
    {
        let prefix = concat_str(key.as_str(), "_value_");
        let label = concat_str(prefix.as_str(), percentile.0.as_str());
        self.unsigned_data.get(&label)
    }
}

} // verus!
