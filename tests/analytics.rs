use ratatype::{AccuracyBand, KeyMetrics, KeyMetricsTracker, SpeedBand, WpmSample, WpmSampler};

const SEC: u64 = 1_000_000_000;

fn sample_tracker() -> KeyMetricsTracker {
    let mut t = KeyMetricsTracker::new();
    t.record_attempt('a', 100);
    t.record_error('a');
    t.record_attempt('b', 50);
    t.record_attempt('a', 300);
    t.record_error('a');
    t.record_attempt('c', 400);
    t.record_error('c');
    t.record_attempt('c', 400);
    t
}

#[test]
fn key_metrics_average() {
    let m = KeyMetrics::new();
    assert_eq!(m.average_time(), None);
    let m = KeyMetrics { times: vec![1, 2, 4], errors: 0 };
    assert_eq!(m.average_time(), Some(2));
    let m = KeyMetrics { times: vec![u64::MAX, u64::MAX], errors: 0 };
    assert_eq!(m.average_time(), Some(u64::MAX));
}

#[test]
fn tracker_keys_by_expected_character() {
    let t = sample_tracker();
    assert_eq!(t.entries.len(), 3);
    assert_eq!(t.entries[0].0, 'a');
    assert_eq!(t.entries[0].1.times, vec![100, 300]);
    assert_eq!(t.entries[0].1.errors, 2);
    assert_eq!(t.find('b'), Some(1));
    assert_eq!(t.find('z'), None);
}

#[test]
fn fastest_and_slowest_keys() {
    let t = sample_tracker();
    assert_eq!(t.fastest(2), vec![('b', 50), ('a', 200)]);
    assert_eq!(t.fastest(10), vec![('b', 50), ('a', 200), ('c', 400)]);
    assert_eq!(t.slowest(1), vec![('c', 400)]);
    assert_eq!(t.slowest(3), vec![('c', 400), ('a', 200), ('b', 50)]);
    assert_eq!(t.fastest(0), vec![]);
}

#[test]
fn error_prone_and_accurate_keys() {
    let t = sample_tracker();
    assert_eq!(t.most_error_prone(5), vec![('a', 2), ('c', 1)]);
    assert_eq!(t.most_accurate(3), vec![('b', 10000), ('c', 5000), ('a', 0)]);
}

#[test]
fn ties_go_to_the_character_seen_first() {
    let mut t = KeyMetricsTracker::new();
    t.record_attempt('q', 70);
    t.record_attempt('w', 70);
    t.record_attempt('e', 10);
    assert_eq!(t.fastest(3), vec![('e', 10), ('q', 70), ('w', 70)]);
    assert_eq!(t.slowest(3), vec![('q', 70), ('w', 70), ('e', 10)]);
}

#[test]
fn speed_bands_spread_over_the_range() {
    let t = sample_tracker();
    assert_eq!(t.speed_band('b'), SpeedBand::Fastest);
    assert_eq!(t.speed_band('a'), SpeedBand::Medium);
    assert_eq!(t.speed_band('c'), SpeedBand::Slowest);
    assert_eq!(t.speed_band('z'), SpeedBand::Unused);
}

#[test]
fn speed_band_thresholds() {
    let mut t = KeyMetricsTracker::new();
    for (k, v) in [('a', 0u64), ('b', 100), ('c', 16), ('d', 15), ('e', 33), ('f', 66), ('g', 67), ('h', 82), ('i', 83)] {
        t.record_attempt(k, v);
    }
    assert_eq!(t.speed_band('a'), SpeedBand::Fastest);
    assert_eq!(t.speed_band('d'), SpeedBand::Fastest);
    assert_eq!(t.speed_band('c'), SpeedBand::Fast);
    assert_eq!(t.speed_band('e'), SpeedBand::Medium);
    assert_eq!(t.speed_band('f'), SpeedBand::Medium);
    assert_eq!(t.speed_band('g'), SpeedBand::Slow);
    assert_eq!(t.speed_band('h'), SpeedBand::Slow);
    assert_eq!(t.speed_band('i'), SpeedBand::Slowest);
    assert_eq!(t.speed_band('b'), SpeedBand::Slowest);
}

#[test]
fn speed_band_needs_two_timed_characters() {
    let mut t = KeyMetricsTracker::new();
    t.record_attempt('a', 120);
    assert_eq!(t.speed_band('a'), SpeedBand::NoData);
    t.record_error('b');
    assert_eq!(t.speed_band('a'), SpeedBand::NoData);
    assert_eq!(t.speed_band('b'), SpeedBand::NoData);
    t.record_attempt('c', 120);
    assert_eq!(t.speed_band('a'), SpeedBand::NoData);
    t.record_attempt('d', 240);
    assert_eq!(t.speed_band('a'), SpeedBand::Fastest);
    assert_eq!(t.speed_band('d'), SpeedBand::Slowest);
}

#[test]
fn accuracy_bands() {
    let t = sample_tracker();
    assert_eq!(t.accuracy_band('b'), AccuracyBand::Highest);
    assert_eq!(t.accuracy_band('c'), AccuracyBand::Low);
    assert_eq!(t.accuracy_band('a'), AccuracyBand::Lowest);
    assert_eq!(t.accuracy_band('z'), AccuracyBand::Unused);
    let mut u = KeyMetricsTracker::new();
    u.record_error('x');
    assert_eq!(u.accuracy_band('x'), AccuracyBand::NoData);
}

#[test]
fn accuracy_band_thresholds() {
    let mut t = KeyMetricsTracker::new();
    // 20 attempts each, with 1, 3, 6 and 10 errors: 95%, 85%, 70%, 50%.
    for (k, errs) in [('h', 1usize), ('i', 3), ('m', 6), ('l', 10), ('o', 11), ('p', 4)] {
        for n in 0..20usize {
            t.record_attempt(k, 1);
            if n < errs {
                t.record_error(k);
            }
        }
    }
    assert_eq!(t.accuracy_band('h'), AccuracyBand::Highest);
    assert_eq!(t.accuracy_band('i'), AccuracyBand::High);
    assert_eq!(t.accuracy_band('p'), AccuracyBand::Medium);
    assert_eq!(t.accuracy_band('m'), AccuracyBand::Medium);
    assert_eq!(t.accuracy_band('l'), AccuracyBand::Low);
    assert_eq!(t.accuracy_band('o'), AccuracyBand::Lowest);
}

#[test]
fn sampler_waits_for_warm_up_and_interval() {
    let mut w = WpmSampler::new();
    w.maybe_sample(2 * SEC - 1, 10);
    assert!(w.samples.is_empty());
    assert_eq!(w.current(), 0);
    assert_eq!(w.average(), 0);
    assert_eq!(w.peak(), 0);
    w.maybe_sample(2 * SEC, 50);
    assert_eq!(w.samples, vec![WpmSample { at: 2 * SEC, wpm: 30_000 }]);
    w.maybe_sample(3 * SEC - 1, 60);
    assert_eq!(w.samples.len(), 1);
    w.maybe_sample(3 * SEC, 1000);
    assert_eq!(w.samples[1], WpmSample { at: 3 * SEC, wpm: 50_000 });
    assert_eq!(w.current(), 50_000);
    assert_eq!(w.average(), 40_000);
    assert_eq!(w.peak(), 50_000);
}

#[test]
fn sampler_formula() {
    let mut w = WpmSampler::new();
    // 60 characters in 12 seconds: 12 words in a fifth of a minute.
    w.maybe_sample(12 * SEC, 60);
    assert_eq!(w.current(), 6_000);
    w.maybe_sample(13 * SEC, 0);
    assert_eq!(w.current(), 0);
    assert_eq!(w.average(), 3_000);
    assert_eq!(w.peak(), 6_000);
}
