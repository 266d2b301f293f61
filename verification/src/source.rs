//! The library's two outside inputs — the wall clock and the random source —
//! and the verified conversions that turn their raw readings into the plain
//! bounded values the generators work on.

use vstd::prelude::*;
use crate::ulid::{TS_LIMIT, RAND_LIMIT, RAND_MAX};

verus! {

/// Relies on `time::OffsetDateTime::now_utc`, converted to a plain count by
/// `unix_timestamp_nanos`: nanoseconds since the Unix epoch, negative before
/// it. Nothing is promised of the reading: every caller must cope with any
/// value, the clock may move backward between calls. A host clock outside
/// the crate's representable datetime range is a fatal precondition of the
/// host environment, not handled here.
#[verifier::external_body]
fn now_unix_nanos() -> i128 {
    time::OffsetDateTime::now_utc().unix_timestamp_nanos()
}

/// Relies on `rand::random`: a uniform draw from the thread-local generator.
/// Nothing is promised of the value; uniqueness rests on bit width alone.
#[verifier::external_body]
fn random_u128() -> u128 {
    rand::random::<u128>()
}

/// Relies on `String::from_utf8`: ASCII bytes are valid UTF-8, the decoding
/// succeeds on them, and the resulting string holds exactly those bytes as
/// its characters.
#[verifier::external_body]
pub(crate) fn string_from_ascii(bytes: Vec<u8>) -> (r: String)
    requires
        forall|i: int| 0 <= i < bytes@.len() ==> bytes@[i] < 128,
    ensures
        r@.len() == bytes@.len(),
        forall|i: int| 0 <= i < bytes@.len() ==> r@[i] == bytes@[i] as char,
{
    String::from_utf8(bytes).unwrap()
}

/// The millisecond truncation of a nanosecond clock reading, saturated into
/// the 48-bit timestamp range: readings before the epoch give 0, readings
/// past the range give the largest representable timestamp.
pub open spec fn spec_millis_of_nanos(nanos: i128) -> u64 {
    if nanos <= 0 {
        0u64
    } else if nanos / 1_000_000 >= TS_LIMIT {
        (TS_LIMIT - 1) as u64
    } else {
        (nanos / 1_000_000) as u64
    }
}

/// Truncate a nanosecond clock reading to milliseconds, saturated to the
/// 48-bit timestamp range.
pub fn millis_of_nanos(nanos: i128) -> (r: u64)
    ensures
        r == spec_millis_of_nanos(nanos),
        r < TS_LIMIT,
{
    if nanos <= 0 {
        0
    } else {
        let m: i128 = nanos / 1_000_000;
        if m >= TS_LIMIT as i128 {
            TS_LIMIT - 1
        } else {
            m as u64
        }
    }
}

/// Read the wall clock, truncated to milliseconds and saturated to the
/// 48-bit timestamp range.
pub fn now_millis() -> (r: u64)
    ensures
        r < TS_LIMIT,
{
    millis_of_nanos(now_unix_nanos())
}

/// Draw a fresh 80-bit random payload.
pub fn draw_randomness() -> (r: u128)
    ensures
        r < RAND_LIMIT,
{
    let x: u128 = random_u128();
    let r: u128 = x & RAND_MAX;
    proof {
        assert(x & 0xFFFF_FFFF_FFFF_FFFF_FFFFu128 < 0x1_0000_0000_0000_0000_0000u128)
            by (bit_vector);
    }
    r
}

} // verus!
