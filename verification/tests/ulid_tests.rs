use ulidgen::ulid::{Ulid, UlidError, RAND_MAX, RAND_LIMIT, TS_LIMIT};

const TS_MAX: u64 = TS_LIMIT - 1;

#[test]
fn from_parts_projections() {
    let id = Ulid::from_parts(5, 7);
    assert_eq!(id.timestamp(), 5);
    assert_eq!(id.randomness(), 7);
    assert_eq!(id.uuid(), (5u128 << 80) | 7);
}

#[test]
fn from_parts_boundaries() {
    let a = Ulid::from_parts(0, 0);
    assert_eq!(a.timestamp(), 0);
    assert_eq!(a.randomness(), 0);
    assert_eq!(a.uuid(), 0);

    let b = Ulid::from_parts(TS_MAX, RAND_MAX);
    assert_eq!(b.timestamp(), TS_MAX);
    assert_eq!(b.randomness(), RAND_MAX);
    assert_eq!(b.uuid(), u128::MAX);
}

#[test]
fn from_value_round_trip() {
    let v: u128 = 0x0123_4567_89AB_CDEF_0123_4567_89AB_CDEF;
    let id = Ulid::from_value(v);
    assert_eq!(id.uuid(), v);
    assert_eq!(id.timestamp(), (v >> 80) as u64);
    assert_eq!(id.randomness(), v & RAND_MAX);
}

#[test]
fn ordering_is_value_ordering() {
    let a = Ulid::from_parts(1, RAND_MAX);
    let b = Ulid::from_parts(2, 0);
    assert!(a < b);
    let c = Ulid::from_parts(2, 1);
    assert!(b < c);
}

#[test]
fn bytes_little_endian() {
    let id = Ulid::from_parts(0, 0x0102);
    let bytes = id.bytes();
    assert_eq!(bytes.len(), 16);
    assert_eq!(bytes[0], 0x02);
    assert_eq!(bytes[1], 0x01);
    for b in bytes.iter().skip(2) {
        assert_eq!(*b, 0);
    }
}

#[test]
fn bytes_round_trip_boundaries() {
    let cases: Vec<(u64, u128)> = vec![
        (0, 0),
        (0, RAND_MAX),
        (TS_MAX, 0),
        (TS_MAX, RAND_MAX),
        (1_469_918_176_385, 0x0000_0123_4567_89AB_CDEF),
    ];
    for (ts, rand) in cases {
        let id = Ulid::from_parts(ts, rand);
        let bytes = id.bytes();
        let back = Ulid::from_bytes(&bytes);
        assert_eq!(back, id);
        assert_eq!(back.timestamp(), ts);
        assert_eq!(back.randomness(), rand);
    }
}

#[test]
fn str_zero() {
    let id = Ulid::from_value(0);
    assert_eq!(id.str(), "00000000000000000000000000");
}

#[test]
fn str_max() {
    let id = Ulid::from_value(u128::MAX);
    assert_eq!(id.str(), "7ZZZZZZZZZZZZZZZZZZZZZZZZZ");
}

#[test]
fn str_single_bits() {
    // The low digit runs through the whole alphabet.
    let alphabet = "0123456789ABCDEFGHJKMNPQRSTVWXYZ";
    for (d, expected) in alphabet.chars().enumerate() {
        let id = Ulid::from_value(d as u128);
        let s = id.str();
        assert_eq!(s.len(), 26);
        assert_eq!(s.chars().last().unwrap(), expected);
        assert!(s.chars().take(25).all(|c| c == '0'));
    }
    // Timestamp 1 sets exactly bit 80: digit 9 from the left.
    let id = Ulid::from_parts(1, 0);
    assert_eq!(id.str(), "00000000010000000000000000");
}

#[test]
fn str_sorts_like_values() {
    let a = Ulid::from_parts(1, RAND_MAX);
    let b = Ulid::from_parts(2, 0);
    let c = Ulid::from_parts(2, 77);
    assert!(a.str() < b.str());
    assert!(b.str() < c.str());
}

#[test]
fn increment_steps_randomness() {
    let id = Ulid::from_parts(9, 41);
    let next = id.increment().unwrap();
    assert_eq!(next.timestamp(), 9);
    assert_eq!(next.randomness(), 42);
    assert_eq!(next.uuid(), id.uuid() + 1);
}

#[test]
fn increment_overflow_fails() {
    let id = Ulid::from_parts(9, RAND_MAX);
    assert_eq!(id.increment(), Err(UlidError::RandomnessOverflow));

    let almost = Ulid::from_parts(9, RAND_MAX - 1);
    let at_max = almost.increment().unwrap();
    assert_eq!(at_max.randomness(), RAND_MAX);
    assert_eq!(at_max.increment(), Err(UlidError::RandomnessOverflow));
}

#[test]
fn rand_limit_consistent() {
    assert_eq!(RAND_LIMIT, RAND_MAX + 1);
    assert_eq!(RAND_LIMIT, 1u128 << 80);
    assert_eq!(TS_LIMIT, 1u64 << 48);
}
