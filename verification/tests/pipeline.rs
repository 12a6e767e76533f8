use hotmic::{Error, Facet, Percentile, Receiver, Sample};

fn drain(receiver: &mut Receiver, turns: usize) {
    for _ in 0..turns {
        receiver.turn_at(0);
    }
}

#[test]
fn test_count_pipeline() {
    // Capacity 16, batch 4, one sink, a count facet.  Ten unit deltas, and
    // two zero deltas so the last partial batch is delivered too.
    let mut receiver = Receiver::builder()
        .capacity(16)
        .batch_size(4)
        .poll_delay(1)
        .build()
        .unwrap();
    receiver.add_facet(Facet::Count("k".to_owned()));
    let mut sink = receiver.get_sink();
    for _ in 0..10 {
        sink.send(Sample::Count("k".to_owned(), 1)).unwrap();
    }
    sink.send(Sample::Count("k".to_owned(), 0)).unwrap();
    sink.send(Sample::Count("k".to_owned(), 0)).unwrap();
    drain(&mut receiver, 6);
    let snapshot = receiver.build_snapshot();
    assert_eq!(snapshot.count(&"k".to_owned()), Some(10));
}

#[test]
fn test_gauge_last_write_wins() {
    let mut receiver = Receiver::builder().batch_size(1).poll_delay(1).build().unwrap();
    receiver.add_facet(Facet::Gauge("k".to_owned()));
    let mut sink = receiver.get_sink();
    sink.send(Sample::Value("k".to_owned(), 7)).unwrap();
    sink.send(Sample::Value("k".to_owned(), 3)).unwrap();
    drain(&mut receiver, 4);
    let snapshot = receiver.build_snapshot();
    assert_eq!(snapshot.value(&"k".to_owned()), Some(3));
}

#[test]
fn test_timing_percentiles_pipeline() {
    let mut receiver = Receiver::builder().batch_size(1).poll_delay(1).build().unwrap();
    receiver.add_facet(Facet::TimingPercentile("k".to_owned()));
    let mut sink = receiver.get_sink();
    let t: u64 = 1_000;
    for delta in [500_000u64, 750_000, 1_000_000, 1_250_000] {
        sink.send(Sample::Timing("k".to_owned(), t, t + delta, 1)).unwrap();
    }
    drain(&mut receiver, 6);
    let snapshot = receiver.build_snapshot();
    let key = "k".to_owned();
    let min = snapshot
        .timing_percentile(&key, Percentile("min".to_owned(), 0))
        .unwrap();
    let p50 = snapshot
        .timing_percentile(&key, Percentile("p50".to_owned(), 500))
        .unwrap();
    let p99 = snapshot
        .timing_percentile(&key, Percentile("p99".to_owned(), 990))
        .unwrap();
    let max = snapshot
        .timing_percentile(&key, Percentile("max".to_owned(), 1000))
        .unwrap();
    // Within the histogram's 0.1% relative error.
    assert!(min >= 500_000 && min <= 500_500 + 1);
    assert!(p50 >= 750_000 && p50 <= 1_001_000 + 1);
    assert!(p99 >= 1_250_000 && p99 <= 1_251_250 + 1);
    assert!(max >= 1_250_000 && max <= 1_251_250 + 1);
    assert!(min <= p50 && p50 <= p99 && p99 <= max);
}

#[test]
fn test_count_and_timing_together() {
    let mut receiver = Receiver::builder()
        .capacity(256)
        .batch_size(10)
        .poll_delay(1)
        .build()
        .unwrap();
    receiver.add_facet(Facet::Count("k".to_owned()));
    receiver.add_facet(Facet::TimingPercentile("k".to_owned()));
    let mut sink = receiver.get_sink();
    for i in 0..1000u64 {
        sink.send(Sample::Timing("k".to_owned(), 0, (i % 97) * 1_000 + 1, 1)).unwrap();
        if (i + 1) % 50 == 0 {
            // Interleave draining so the bounded channel never fills.
            drain(&mut receiver, 6);
        }
    }
    drain(&mut receiver, 10);
    let snapshot = receiver.build_snapshot();
    let key = "k".to_owned();
    assert_eq!(snapshot.count(&key), Some(1000));
    let min = snapshot
        .timing_percentile(&key, Percentile("min".to_owned(), 0))
        .unwrap();
    let p50 = snapshot
        .timing_percentile(&key, Percentile("p50".to_owned(), 500))
        .unwrap();
    let p99 = snapshot
        .timing_percentile(&key, Percentile("p99".to_owned(), 990))
        .unwrap();
    let max = snapshot
        .timing_percentile(&key, Percentile("max".to_owned(), 1000))
        .unwrap();
    assert!(min <= p50 && p50 <= p99 && p99 <= max);
}

#[test]
fn test_windowing_expires_data() {
    // Samples at time zero, then upkeep after more than the full ten
    // second window: percentile reads find no data.
    let mut receiver = Receiver::builder().batch_size(1).poll_delay(1).build().unwrap();
    receiver.add_facet(Facet::ValuePercentile("k".to_owned()));
    let mut sink = receiver.get_sink();
    for i in 0..100u64 {
        sink.send(Sample::Value("k".to_owned(), i + 1)).unwrap();
        receiver.turn_at(0);
    }
    let key = "k".to_owned();
    let before = receiver.build_snapshot();
    assert!(before
        .value_percentile(&key, Percentile("p50".to_owned(), 500))
        .is_some());
    receiver.turn_at(11_000_000_000);
    let snapshot = receiver.build_snapshot();
    assert_eq!(snapshot.value_percentile(&key, Percentile("p50".to_owned(), 500)), None);
}

#[test]
fn test_snapshot_before_data() {
    let mut receiver = Receiver::builder().poll_delay(1).build().unwrap();
    receiver.add_facet(Facet::Count("k".to_owned()));
    receiver.add_facet(Facet::Gauge("k".to_owned()));
    receiver.add_facet(Facet::TimingPercentile("k".to_owned()));
    receiver.add_facet(Facet::ValuePercentile("k".to_owned()));
    let snapshot = receiver.build_snapshot();
    let key = "k".to_owned();
    assert_eq!(snapshot.count(&key), Some(0));
    assert_eq!(snapshot.value(&key), Some(0));
    assert_eq!(snapshot.timing_percentile(&key, Percentile("p50".to_owned(), 500)), None);
    assert_eq!(snapshot.value_percentile(&key, Percentile("p50".to_owned(), 500)), None);
}

#[test]
fn test_add_facet_idempotent() {
    let mut receiver = Receiver::builder().batch_size(1).poll_delay(1).build().unwrap();
    receiver.add_facet(Facet::Count("k".to_owned()));
    receiver.add_facet(Facet::Count("k".to_owned()));
    let mut sink = receiver.get_sink();
    sink.send(Sample::Count("k".to_owned(), 5)).unwrap();
    drain(&mut receiver, 3);
    let snapshot = receiver.build_snapshot();
    assert_eq!(snapshot.count(&"k".to_owned()), Some(5));
    // One removal undoes a doubled registration entirely.
    receiver.remove_facet(Facet::Count("k".to_owned()));
    let after = receiver.build_snapshot();
    assert_eq!(after.count(&"k".to_owned()), None);
}

#[test]
fn test_add_then_remove_suppresses_emission() {
    let mut receiver = Receiver::builder().batch_size(1).poll_delay(1).build().unwrap();
    receiver.add_facet(Facet::Count("k".to_owned()));
    let mut sink = receiver.get_sink();
    sink.send(Sample::Count("k".to_owned(), 3)).unwrap();
    drain(&mut receiver, 3);
    receiver.remove_facet(Facet::Count("k".to_owned()));
    let snapshot = receiver.build_snapshot();
    assert_eq!(snapshot.count(&"k".to_owned()), None);
    // Registering again resumes the recorded total rather than erasing it.
    receiver.add_facet(Facet::Count("k".to_owned()));
    let again = receiver.build_snapshot();
    assert_eq!(again.count(&"k".to_owned()), Some(3));
}

#[test]
fn test_snapshot_immutable_after_new_samples() {
    let mut receiver = Receiver::builder().batch_size(1).poll_delay(1).build().unwrap();
    receiver.add_facet(Facet::Count("k".to_owned()));
    let mut sink = receiver.get_sink();
    sink.send(Sample::Count("k".to_owned(), 2)).unwrap();
    drain(&mut receiver, 3);
    let first = receiver.build_snapshot();
    assert_eq!(first.count(&"k".to_owned()), Some(2));
    sink.send(Sample::Count("k".to_owned(), 40)).unwrap();
    drain(&mut receiver, 3);
    let second = receiver.build_snapshot();
    assert_eq!(first.count(&"k".to_owned()), Some(2));
    assert_eq!(second.count(&"k".to_owned()), Some(42));
}

#[test]
fn test_distinct_keys_stay_distinct() {
    let mut receiver = Receiver::builder().batch_size(1).poll_delay(1).build().unwrap();
    receiver.add_facet(Facet::Count("a".to_owned()));
    receiver.add_facet(Facet::Count("b".to_owned()));
    let mut sink = receiver.get_sink();
    for _ in 0..3 {
        sink.send(Sample::Count("a".to_owned(), 1)).unwrap();
    }
    for _ in 0..5 {
        sink.send(Sample::Count("b".to_owned(), 1)).unwrap();
    }
    drain(&mut receiver, 10);
    let snapshot = receiver.build_snapshot();
    assert_eq!(snapshot.count(&"a".to_owned()), Some(3));
    assert_eq!(snapshot.count(&"b".to_owned()), Some(5));
}

#[test]
fn test_invalid_config_rejected() {
    assert_eq!(Receiver::builder().capacity(0).build().err(), Some(Error::InvalidConfig));
    assert_eq!(Receiver::builder().batch_size(0).build().err(), Some(Error::InvalidConfig));
}

#[test]
fn test_channel_full_surfaces() {
    let mut receiver = Receiver::builder()
        .capacity(1)
        .batch_size(1)
        .poll_delay(1)
        .build()
        .unwrap();
    receiver.add_facet(Facet::Count("k".to_owned()));
    let mut sink = receiver.get_sink();
    sink.send(Sample::Count("k".to_owned(), 1)).unwrap();
    let second = sink.send(Sample::Count("k".to_owned(), 1));
    assert_eq!(second.err(), Some(Error::ChannelFull));
}

#[test]
fn test_channel_closed_surfaces() {
    let receiver = Receiver::builder().batch_size(1).poll_delay(1).build().unwrap();
    let mut sink = receiver.get_sink();
    let controller = receiver.get_controller();
    drop(receiver);
    let send = sink.send(Sample::Count("k".to_owned(), 1));
    assert_eq!(send.err(), Some(Error::ChannelClosed));
    let add = controller.add_facet(Facet::Count("k".to_owned()));
    assert_eq!(add.err(), Some(Error::ChannelClosed));
    let snap = controller.get_snapshot();
    assert_eq!(snap.err(), Some(Error::ChannelClosed));
}

#[test]
fn test_control_messages_via_channel() {
    // Facet registration sent over the channel, served by a later turn.
    let mut receiver = Receiver::builder().batch_size(1).poll_delay(1).build().unwrap();
    let controller = receiver.get_controller();
    controller.add_facet(Facet::Count("k".to_owned())).unwrap();
    receiver.turn_at(0);
    let mut sink = receiver.get_sink();
    sink.send(Sample::Count("k".to_owned(), 4)).unwrap();
    drain(&mut receiver, 3);
    let snapshot = receiver.build_snapshot();
    assert_eq!(snapshot.count(&"k".to_owned()), Some(4));
}

#[test]
fn test_steady_load_recycles_batches() {
    // A steady producer interleaved with draining stays under the pool
    // capacity: every send keeps succeeding.
    let mut receiver = Receiver::builder()
        .capacity(4)
        .batch_size(1)
        .poll_delay(1)
        .build()
        .unwrap();
    receiver.add_facet(Facet::Count("k".to_owned()));
    let mut sink = receiver.get_sink();
    for _ in 0..200 {
        sink.send(Sample::Count("k".to_owned(), 1)).unwrap();
        receiver.turn_at(0);
    }
    drain(&mut receiver, 4);
    let snapshot = receiver.build_snapshot();
    assert_eq!(snapshot.count(&"k".to_owned()), Some(200));
}

#[test]
fn test_timing_counts_events() {
    // A timing sample counts one event regardless of its auxiliary count.
    let mut receiver = Receiver::builder().batch_size(1).poll_delay(1).build().unwrap();
    receiver.add_facet(Facet::Count("k".to_owned()));
    let mut sink = receiver.get_sink();
    sink.send(Sample::Timing("k".to_owned(), 10, 20, 999)).unwrap();
    sink.send(Sample::Timing("k".to_owned(), 20, 30, 999)).unwrap();
    drain(&mut receiver, 4);
    let snapshot = receiver.build_snapshot();
    assert_eq!(snapshot.count(&"k".to_owned()), Some(2));
}

#[test]
fn test_sink_clone_shares_channels() {
    let mut receiver = Receiver::builder().batch_size(1).poll_delay(1).build().unwrap();
    receiver.add_facet(Facet::Count("k".to_owned()));
    let mut sink = receiver.get_sink();
    let mut sink2 = sink.clone();
    sink.send(Sample::Count("k".to_owned(), 1)).unwrap();
    sink2.send(Sample::Count("k".to_owned(), 1)).unwrap();
    drain(&mut receiver, 4);
    let snapshot = receiver.build_snapshot();
    assert_eq!(snapshot.count(&"k".to_owned()), Some(2));
}
