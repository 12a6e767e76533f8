use hotmic::hdr::Hist;
use hotmic::{Percentile, Snapshot};

#[test]
fn test_snapshot_simple_set_and_get() {
    let key = "ok".to_owned();
    let mut snapshot = Snapshot::new();
    snapshot.set_count(key.clone(), 1);
    snapshot.set_value(key.clone(), 42);

    assert_eq!(snapshot.count(&key).unwrap(), 1);
    assert_eq!(snapshot.value(&key).unwrap(), 42);
}

#[test]
fn test_snapshot_percentiles() {
    let mut snapshot = Snapshot::new();

    {
        let mut h1 = Hist::new();
        h1.saturating_record(500_000);
        h1.saturating_record(750_000);
        h1.saturating_record(1_000_000);
        h1.saturating_record(1_250_000);

        let tkey = "ok".to_owned();
        let mut tpercentiles = Vec::new();
        tpercentiles.push(Percentile("min".to_owned(), 0));
        tpercentiles.push(Percentile("p50".to_owned(), 500));
        tpercentiles.push(Percentile("p99".to_owned(), 990));
        tpercentiles.push(Percentile("max".to_owned(), 1000));

        snapshot.set_timing_percentiles(tkey.clone(), h1, &tpercentiles);

        let min_tpercentile = snapshot.timing_percentile(&tkey, tpercentiles[0].clone());
        let p50_tpercentile = snapshot.timing_percentile(&tkey, tpercentiles[1].clone());
        let p99_tpercentile = snapshot.timing_percentile(&tkey, tpercentiles[2].clone());
        let max_tpercentile = snapshot.timing_percentile(&tkey, tpercentiles[3].clone());
        let fake_tpercentile = snapshot.timing_percentile(&tkey, Percentile("fake".to_owned(), 630));

        assert!(min_tpercentile.is_some());
        assert!(p50_tpercentile.is_some());
        assert!(p99_tpercentile.is_some());
        assert!(max_tpercentile.is_some());
        assert!(fake_tpercentile.is_none());
    }

    {
        let mut h2 = Hist::new();
        h2.saturating_record(500_000);
        h2.saturating_record(750_000);
        h2.saturating_record(1_000_000);
        h2.saturating_record(1_250_000);

        let vkey = "ok".to_owned();
        let mut vpercentiles = Vec::new();
        vpercentiles.push(Percentile("min".to_owned(), 0));
        vpercentiles.push(Percentile("p50".to_owned(), 500));
        vpercentiles.push(Percentile("p99".to_owned(), 990));
        vpercentiles.push(Percentile("max".to_owned(), 1000));

        snapshot.set_value_percentiles(vkey.clone(), h2, &vpercentiles);

        let min_vpercentile = snapshot.value_percentile(&vkey, vpercentiles[0].clone());
        let p50_vpercentile = snapshot.value_percentile(&vkey, vpercentiles[1].clone());
        let p99_vpercentile = snapshot.value_percentile(&vkey, vpercentiles[2].clone());
        let max_vpercentile = snapshot.value_percentile(&vkey, vpercentiles[3].clone());
        let fake_vpercentile = snapshot.value_percentile(&vkey, Percentile("fake".to_owned(), 630));

        assert!(min_vpercentile.is_some());
        assert!(p50_vpercentile.is_some());
        assert!(p99_vpercentile.is_some());
        assert!(max_vpercentile.is_some());
        assert!(fake_vpercentile.is_none());
    }
}

#[test]
fn test_fresh_histogram_is_empty() {
    let mut h = Hist::new();
    assert!(h.is_empty());
    h.saturating_record(7);
    assert!(!h.is_empty());
}

#[test]
fn test_percentile_exact_small_values() {
    // Values 1..=4 are exact at three significant digits, so the selected
    // percentile values are exact: min 1, p50 2, p999 4, max 4.
    let mut snapshot = Snapshot::new();
    let mut h = Hist::new();
    h.saturating_record(1);
    h.saturating_record(2);
    h.saturating_record(3);
    h.saturating_record(4);
    let key = "exact".to_owned();
    let ps = hotmic::default_percentiles();
    snapshot.set_timing_percentiles(key.clone(), h, &ps);

    assert_eq!(snapshot.timing_percentile(&key, Percentile("min".to_owned(), 0)), Some(1));
    assert_eq!(snapshot.timing_percentile(&key, Percentile("p50".to_owned(), 500)), Some(2));
    assert_eq!(snapshot.timing_percentile(&key, Percentile("p999".to_owned(), 999)), Some(4));
    assert_eq!(snapshot.timing_percentile(&key, Percentile("max".to_owned(), 1000)), Some(4));
}

#[test]
fn test_percentiles_monotone_in_rank() {
    let mut snapshot = Snapshot::new();
    let mut h = Hist::new();
    let mut v: u64 = 1;
    for _ in 0..100 {
        h.saturating_record(v);
        v = v.wrapping_mul(48271) % 1_000_000 + 1;
    }
    let key = "mono".to_owned();
    let mut ps = Vec::new();
    for q in 0..=20u64 {
        ps.push(Percentile(format!("q{}", q), q * 50));
    }
    snapshot.set_value_percentiles(key.clone(), h, &ps);
    let mut last: u64 = 0;
    for q in 0..=20u64 {
        let cur = snapshot
            .value_percentile(&key, Percentile(format!("q{}", q), q * 50))
            .unwrap();
        assert!(cur >= last);
        last = cur;
    }
}

#[test]
fn test_default_percentiles_shape() {
    let ps = hotmic::default_percentiles();
    assert_eq!(ps.len(), 6);
    assert_eq!(ps[0].0, "min");
    assert_eq!(ps[0].1, 0);
    assert_eq!(ps[1].0, "p50");
    assert_eq!(ps[1].1, 500);
    assert_eq!(ps[2].0, "p90");
    assert_eq!(ps[2].1, 900);
    assert_eq!(ps[3].0, "p99");
    assert_eq!(ps[3].1, 990);
    assert_eq!(ps[4].0, "p999");
    assert_eq!(ps[4].1, 999);
    assert_eq!(ps[5].0, "max");
    assert_eq!(ps[5].1, 1000);
}
