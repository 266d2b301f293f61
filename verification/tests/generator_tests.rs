use ulidgen::batch::{batch_from_parts, generate_batch};
use ulidgen::generator::Generator;
use ulidgen::source::{millis_of_nanos, now_millis};
use ulidgen::ulid::{Ulid, UlidError, RAND_MAX, TS_LIMIT};

#[test]
fn step_fresh_window() {
    let mut g = Generator::new();
    let id = g.step(5, 7).unwrap();
    assert_eq!(id.timestamp(), 5);
    assert_eq!(id.randomness(), 7);
}

#[test]
fn three_calls_same_millisecond() {
    // Three rapid calls inside one window: identical timestamps, randomness
    // stepping by one, strictly increasing identifiers.
    let mut g = Generator::new();
    let x = g.step(5, 7).unwrap();
    let y = g.step(5, 999).unwrap();
    let z = g.step(5, 999).unwrap();
    assert_eq!(x.timestamp(), 5);
    assert_eq!(y.timestamp(), 5);
    assert_eq!(z.timestamp(), 5);
    assert_eq!(y.randomness(), x.randomness() + 1);
    assert_eq!(z.randomness(), y.randomness() + 1);
    assert!(x < y && y < z);
}

#[test]
fn clock_moving_backward_stays_in_window() {
    let mut g = Generator::new();
    let x = g.step(5, 7).unwrap();
    let y = g.step(3, 999).unwrap();
    assert_eq!(y.timestamp(), 5);
    assert_eq!(y.randomness(), x.randomness() + 1);
    assert!(x < y);
}

#[test]
fn window_exhaustion_fails_then_recovers() {
    let mut g = Generator::new();
    let x = g.step(3, RAND_MAX).unwrap();
    assert_eq!(x.randomness(), RAND_MAX);
    assert_eq!(g.step(3, 0), Err(UlidError::CounterExhausted));
    assert_eq!(g.step(2, 0), Err(UlidError::CounterExhausted));
    let y = g.step(4, 42).unwrap();
    assert_eq!(y.timestamp(), 4);
    assert_eq!(y.randomness(), 42);
    assert!(x < y);
}

#[test]
fn generate_live_monotonic() {
    let mut g = Generator::new();
    let a = g.generate().unwrap();
    let b = g.generate().unwrap();
    let c = g.generate().unwrap();
    assert!(a < b && b < c);
    assert!(a.timestamp() < TS_LIMIT);
}

#[test]
fn batch_from_parts_contiguous() {
    let v = batch_from_parts(7, 100, 5).unwrap();
    assert_eq!(v.len(), 5);
    for (i, id) in v.iter().enumerate() {
        assert_eq!(id.timestamp(), 7);
        assert_eq!(id.randomness(), 100 + i as u128);
    }
    let expected: Vec<Ulid> = (100..105).map(|r| Ulid::from_parts(7, r)).collect();
    assert_eq!(v, expected);
}

#[test]
fn batch_from_parts_empty_and_single() {
    assert_eq!(batch_from_parts(7, 100, 0).unwrap().len(), 0);
    let v = batch_from_parts(7, RAND_MAX, 1).unwrap();
    assert_eq!(v[0].randomness(), RAND_MAX);
}

#[test]
fn batch_overflow_fails() {
    assert_eq!(batch_from_parts(7, RAND_MAX, 2), Err(UlidError::RandomnessOverflow));
    assert_eq!(batch_from_parts(7, RAND_MAX - 3, 5), Err(UlidError::RandomnessOverflow));
    assert!(batch_from_parts(7, RAND_MAX - 4, 5).is_ok());
}

#[test]
fn generate_batch_live() {
    let v = generate_batch(5).unwrap();
    assert_eq!(v.len(), 5);
    let ts = v[0].timestamp();
    let r0 = v[0].randomness();
    for (i, id) in v.iter().enumerate() {
        assert_eq!(id.timestamp(), ts);
        assert_eq!(id.randomness(), r0 + i as u128);
    }
    for w in v.windows(2) {
        assert!(w[0] < w[1]);
    }
}

#[test]
fn batch_leaves_single_shot_alone() {
    // Interleaving the two paths: the single-shot outputs keep increasing,
    // and each batch is internally increasing.
    let mut g = Generator::new();
    let a = g.generate().unwrap();
    let batch1 = generate_batch(3).unwrap();
    let b = g.generate().unwrap();
    let batch2 = generate_batch(3).unwrap();
    let c = g.generate().unwrap();
    assert!(a < b && b < c);
    for v in [&batch1, &batch2] {
        for w in v.windows(2) {
            assert!(w[0] < w[1]);
        }
    }
}

#[test]
fn millis_of_nanos_truncates_and_saturates() {
    assert_eq!(millis_of_nanos(-5), 0);
    assert_eq!(millis_of_nanos(0), 0);
    assert_eq!(millis_of_nanos(999_999), 0);
    assert_eq!(millis_of_nanos(1_000_000), 1);
    assert_eq!(millis_of_nanos(1_999_999), 1);
    assert_eq!(millis_of_nanos(123_456_789), 123);
    let past_range: i128 = (TS_LIMIT as i128) * 1_000_000 + 55;
    assert_eq!(millis_of_nanos(past_range), TS_LIMIT - 1);
}

#[test]
fn now_millis_is_plausible() {
    let now = now_millis();
    // After 2020-01-01 and within the 48-bit range.
    assert!(now > 1_577_836_800_000);
    assert!(now < TS_LIMIT);
}
