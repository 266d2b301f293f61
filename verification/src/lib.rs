//! A monotonic, time-ordered unique identifier library.
//!
//! Identifiers are 128-bit values holding a 48-bit millisecond timestamp in
//! the high bits and an 80-bit random payload in the low bits, so that they
//! sort by creation time. A single-shot generator hands out strictly
//! increasing identifiers within one synchronization domain; a stateless
//! batch path mints a contiguous run of identifiers from one clock reading.

pub mod batch;
pub mod generator;
pub mod source;
pub mod ulid;
