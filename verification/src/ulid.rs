//! The identifier type: a 128-bit value made of a 48-bit millisecond
//! timestamp (most significant) and an 80-bit random payload (least
//! significant).

use vstd::prelude::*;

verus! {

/// One more than the largest 48-bit timestamp: `2^48`.
pub const TS_LIMIT: u64 = 0x1_0000_0000_0000;

/// One more than the largest 80-bit randomness value: `2^80`.
pub const RAND_LIMIT: u128 = 0x1_0000_0000_0000_0000_0000;

/// The largest 80-bit randomness value: `2^80 - 1`.
pub const RAND_MAX: u128 = 0xFFFF_FFFF_FFFF_FFFF_FFFF;

/// The packed 128-bit value for a timestamp/randomness pair.
pub open spec fn pack(timestamp: u64, randomness: u128) -> u128 {
    ((timestamp as u128) << 80) | randomness
}

/// The timestamp field of a packed 128-bit value.
pub open spec fn unpack_timestamp(value: u128) -> u64 {
    (value >> 80) as u64
}

/// The randomness field of a packed 128-bit value.
pub open spec fn unpack_randomness(value: u128) -> u128 {
    value & RAND_MAX
}

/// The failure conditions of identifier generation.
#[derive(Clone, Copy, Debug, PartialEq, Eq, Structural)]
pub enum UlidError {
    /// Incrementing a random payload already at its 80-bit maximum.
    RandomnessOverflow,
    /// The single-shot generator's window is exhausted: the clock has not
    /// advanced and the stored randomness is at its maximum. Retrying after
    /// the clock moves on succeeds.
    CounterExhausted,
}

/// A time-ordered 128-bit identifier. Immutable once constructed; ordering
/// of identifiers is ordering of their 128-bit values.
#[derive(Clone, Copy, Debug, PartialEq, Eq, Structural, PartialOrd, Ord, Hash)]
pub struct Ulid {
    value: u128,
}

impl View for Ulid {
    type V = u128;

    closed spec fn view(&self) -> u128 {
        self.value
    }
}

impl Ulid {
    /// Construct from a timestamp/randomness pair.
    pub fn from_parts(timestamp: u64, randomness: u128) -> (r: Ulid)
        requires
            timestamp < TS_LIMIT,
            randomness < RAND_LIMIT,
        ensures
            r@ == pack(timestamp, randomness),
    {
        Ulid { value: ((timestamp as u128) << 80) | randomness }
    }

    /// Construct by decoding a raw 128-bit value.
    pub fn from_value(value: u128) -> (r: Ulid)
        ensures
            r@ == value,
    {
        Ulid { value }
    }

    /// The identifier's millisecond timestamp.
    pub fn timestamp(&self) -> (r: u64)
        ensures
            r == unpack_timestamp(self@),
            r < TS_LIMIT,
    {
        proof {
            lemma_unpack_timestamp_bound(self.value);
        }
        (self.value >> 80) as u64
    }

    /// The identifier's random payload.
    pub fn randomness(&self) -> (r: u128)
        ensures
            r == unpack_randomness(self@),
            r < RAND_LIMIT,
    {
        proof {
            lemma_unpack_randomness_bound(self.value);
        }
        self.value & RAND_MAX
    }

    /// The raw 128-bit value, the same bits reinterpreted as a generic
    /// 128-bit external identifier.
    pub fn uuid(&self) -> (r: u128)
        ensures
            r == self@,
    {
        self.value
    }

    /// A new identifier with the same timestamp and the randomness one
    /// higher. Fails with `RandomnessOverflow` exactly when the randomness
    /// is already at its 80-bit maximum; it never silently wraps to 0.
    pub fn increment(&self) -> (r: Result<Ulid, UlidError>)
        ensures
            unpack_randomness(self@) < RAND_MAX ==> (r matches Ok(id)
                && id@ == self@ + 1
                && unpack_timestamp(id@) == unpack_timestamp(self@)
                && unpack_randomness(id@) == unpack_randomness(self@) + 1),
            unpack_randomness(self@) == RAND_MAX ==> (r matches Err(e)
                && e == UlidError::RandomnessOverflow),
    {
        proof {
            lemma_unpack_randomness_bound(self.value);
        }
        let rand: u128 = self.value & RAND_MAX;
        if rand < RAND_MAX {
            proof {
                lemma_increment_in_window(self.value);
            }
            Ok(Ulid { value: self.value + 1 })
        } else {
            Err(UlidError::RandomnessOverflow)
        }
    }

    /// The fixed-width 16-byte little-endian encoding of the identifier.
    pub fn bytes(&self) -> (r: Vec<u8>)
        ensures
            r@ == vstd::bytes::spec_u128_to_le_bytes(self@),
            r@.len() == 16,
    {
        vstd::bytes::u128_to_le_bytes(self.value)
    }

    /// The canonical 26-character sortable base32 string encoding.
    pub fn str(&self) -> (r: String)
        ensures
            r@ == spec_encode(self@),
            r@.len() == 26,
    {
        let mut buf: Vec<u8> = Vec::new();
        let mut i: usize = 0;
        while i < 26
            invariant
                i <= 26,
                buf@.len() == i,
                forall|j: int| 0 <= j < i
                    ==> #[trigger] buf@[j] == spec_b32_ascii(spec_b32_digit(self.value, j)),
            decreases 26 - i,
        {
            let shifted: u128 = self.value >> (((25 - i) * 5) as u128);
            proof {
                assert(shifted & 0x1f < 32) by (bit_vector);
            }
            let d: u8 = (shifted & 0x1f) as u8;
            buf.push(b32_ascii(d));
            i = i + 1;
        }
        proof {
            assert forall|j: int| 0 <= j < 26 implies #[trigger] buf@[j] < 128 by {
                lemma_b32_digit_bound(self.value, j);
            }
        }
        let s = crate::source::string_from_ascii(buf);
        proof {
            assert(s@ =~= spec_encode(self@));
        }
        s
    }

    /// Decode an identifier from its 16-byte little-endian encoding.
    pub fn from_bytes(bytes: &[u8]) -> (r: Ulid)
        requires
            bytes@.len() == 16,
        ensures
            r@ == vstd::bytes::spec_u128_from_le_bytes(bytes@),
    {
        Ulid { value: vstd::bytes::u128_from_le_bytes(bytes) }
    }
}

/// Encoding an identifier to its 16-byte form and decoding it back yields
/// the identical identifier, for every 128-bit value.
pub proof fn lemma_bytes_round_trip(value: u128)
    ensures
        vstd::bytes::spec_u128_from_le_bytes(vstd::bytes::spec_u128_to_le_bytes(value))
            == value,
{
    vstd::bytes::lemma_auto_spec_u128_to_from_le_bytes();
    assert(vstd::bytes::spec_u128_to_le_bytes(value).len() == 16);
}

/// Within one window (randomness below its maximum), adding 1 to the packed
/// value raises the randomness by 1 and keeps the timestamp.
pub proof fn lemma_increment_in_window(value: u128)
    requires
        unpack_randomness(value) < RAND_MAX,
    ensures
        value < u128::MAX,
        unpack_timestamp((value + 1) as u128) == unpack_timestamp(value),
        unpack_randomness((value + 1) as u128) == unpack_randomness(value) + 1,
{
    assert(value & 0xFFFF_FFFF_FFFF_FFFF_FFFF < 0xFFFF_FFFF_FFFF_FFFF_FFFFu128 ==> (
        value < 0xFFFF_FFFF_FFFF_FFFF_FFFF_FFFF_FFFF_FFFFu128
        && ((value + 1) as u128) >> 80 == value >> 80
        && ((value + 1) as u128) & 0xFFFF_FFFF_FFFF_FFFF_FFFF
            == (value & 0xFFFF_FFFF_FFFF_FFFF_FFFF) + 1
    )) by (bit_vector);
}

/// Packed values order lexicographically by (timestamp, randomness): the
/// 128-bit integer ordering is exactly timestamp-first ordering.
pub proof fn lemma_pack_order(t1: u64, r1: u128, t2: u64, r2: u128)
    requires
        t1 < TS_LIMIT,
        t2 < TS_LIMIT,
        r1 < RAND_LIMIT,
        r2 < RAND_LIMIT,
    ensures
        pack(t1, r1) < pack(t2, r2) <==> (t1 < t2 || (t1 == t2 && r1 < r2)),
{
    assert((((t1 as u128) << 80) | r1) < (((t2 as u128) << 80) | r2)
            <==> (t1 < t2 || (t1 == t2 && r1 < r2))) by (bit_vector)
        requires
            t1 < 0x1_0000_0000_0000u64,
            t2 < 0x1_0000_0000_0000u64,
            r1 < 0x1_0000_0000_0000_0000_0000u128,
            r2 < 0x1_0000_0000_0000_0000_0000u128,
    ;
}

/// A packed value is determined by its two fields: identifiers that agree on
/// timestamp and randomness are the same identifier. Contrapositively, two
/// distinct identifiers from one window (equal timestamps) differ in their
/// randomness.
pub proof fn lemma_fields_determine_value(a: u128, b: u128)
    requires
        unpack_timestamp(a) == unpack_timestamp(b),
        unpack_randomness(a) == unpack_randomness(b),
    ensures
        a == b,
{
    assert((a >> 80) as u64 == (b >> 80) as u64
            && a & 0xFFFF_FFFF_FFFF_FFFF_FFFF == b & 0xFFFF_FFFF_FFFF_FFFF_FFFF
            ==> a == b) by (bit_vector);
}

/// The Crockford base32 digit alphabet, as the ASCII code of digit `d`:
/// `0`-`9` then `A`-`Z` with `I`, `L`, `O` and `U` left out. Strictly
/// increasing in `d`, so identifier ordering and encoded-string ordering
/// agree.
pub open spec fn spec_b32_ascii(d: u8) -> u8
    recommends
        d < 32,
{
    if d < 10 {
        (48 + d) as u8
    } else if d < 18 {
        (55 + d) as u8
    } else if d < 20 {
        (56 + d) as u8
    } else if d < 22 {
        (57 + d) as u8
    } else if d < 27 {
        (58 + d) as u8
    } else {
        (59 + d) as u8
    }
}

/// Digit `i` (0-indexed from the most significant) of the canonical
/// 26-digit base32 form of a 128-bit value: 5 bits each, the first digit
/// carrying only the top 3 bits.
pub open spec fn spec_b32_digit(value: u128, i: int) -> u8
    recommends
        0 <= i < 26,
{
    ((value >> (((25 - i) * 5) as u128)) & 0x1f) as u8
}

/// The canonical 26-character sortable base32 encoding of a 128-bit value.
pub open spec fn spec_encode(value: u128) -> Seq<char> {
    Seq::new(26, |i: int| spec_b32_ascii(spec_b32_digit(value, i)) as char)
}

/// The top `k` base32 digits of a value, as a number: digits 0 through
/// `k - 1` in the numbering of `spec_b32_digit`.
pub open spec fn spec_b32_prefix(value: u128, k: int) -> u128
    recommends
        1 <= k <= 26,
{
    value >> (((26 - k) * 5) as u128)
}

/// The alphabet is strictly increasing: larger digits encode to larger
/// ASCII codes, and so to larger characters.
pub proof fn lemma_b32_ascii_increasing(d1: u8, d2: u8)
    requires
        d1 < d2 < 32,
    ensures
        spec_b32_ascii(d1) < spec_b32_ascii(d2),
        (spec_b32_ascii(d1) as char) < (spec_b32_ascii(d2) as char),
{
}

/// One digit extends a digit prefix: the top `k + 1` digits are the top `k`
/// digits shifted up by one digit position plus digit `k`.
proof fn lemma_b32_prefix_extend(value: u128, k: int)
    requires
        0 <= k < 26,
    ensures
        k == 0 ==> spec_b32_prefix(value, 1) == spec_b32_digit(value, 0),
        k > 0 ==> spec_b32_prefix(value, k + 1)
            == ((spec_b32_prefix(value, k) << 5) | (spec_b32_digit(value, k) as u128)),
{
    if k == 0 {
        assert(value >> 125 == (((value >> 125) & 0x1f) as u8) as u128) by (bit_vector);
    } else {
        let s: u128 = ((26 - (k + 1)) * 5) as u128;
        assert(s <= 120);
        assert(value >> s == (((value >> ((s + 5) as u128)) << 5)
            | ((((value >> s) & 0x1f) as u8) as u128))) by (bit_vector)
            requires
                s <= 120u128,
        ;
    }
}

/// The full 26-digit prefix is the value itself.
proof fn lemma_b32_prefix_full(value: u128)
    ensures
        spec_b32_prefix(value, 26) == value,
{
    assert(value >> 0 == value) by (bit_vector);
}

/// Two distinct values have a first digit position where their canonical
/// digit sequences differ, all digits before it agreeing; their digit
/// prefixes up to that position agree as numbers.
proof fn lemma_b32_first_diff(a: u128, b: u128, k: int)
    requires
        a != b,
        0 <= k < 26,
        forall|j: int| 0 <= j < k ==> spec_b32_digit(a, j) == spec_b32_digit(b, j),
        k > 0 ==> spec_b32_prefix(a, k) == spec_b32_prefix(b, k),
    ensures
        exists|i: int| 0 <= i < 26
            && (forall|j: int| 0 <= j < i ==> spec_b32_digit(a, j) == spec_b32_digit(b, j))
            && (#[trigger] spec_b32_digit(a, i)) != spec_b32_digit(b, i)
            && (i > 0 ==> spec_b32_prefix(a, i) == spec_b32_prefix(b, i)),
    decreases 26 - k,
{
    if spec_b32_digit(a, k) != spec_b32_digit(b, k) {
        assert(0 <= k < 26
            && (forall|j: int| 0 <= j < k ==> spec_b32_digit(a, j) == spec_b32_digit(b, j))
            && spec_b32_digit(a, k) != spec_b32_digit(b, k)
            && (k > 0 ==> spec_b32_prefix(a, k) == spec_b32_prefix(b, k)));
    } else {
        lemma_b32_prefix_extend(a, k);
        lemma_b32_prefix_extend(b, k);
        assert(spec_b32_prefix(a, k + 1) == spec_b32_prefix(b, k + 1));
        if k + 1 == 26 {
            lemma_b32_prefix_full(a);
            lemma_b32_prefix_full(b);
            assert(false);
        } else {
            lemma_b32_first_diff(a, b, k + 1);
        }
    }
}

/// Right-shifting both sides of a strict comparison can only have come from
/// a strict comparison the same way round.
#[verifier::rlimit(100)]
proof fn lemma_shift_monotone(x: u128, y: u128, s: u128)
    ensures
        x >> s < y >> s ==> x < y,
{
    assert(x >> s < y >> s ==> x < y) by (bit_vector);
}

/// At the first differing digit position, digit order decides value order.
proof fn lemma_b32_digit_decides(a: u128, b: u128, i: int)
    requires
        0 <= i < 26,
        spec_b32_digit(a, i) != spec_b32_digit(b, i),
        i > 0 ==> spec_b32_prefix(a, i) == spec_b32_prefix(b, i),
    ensures
        a < b <==> spec_b32_digit(a, i) < spec_b32_digit(b, i),
{
    lemma_b32_prefix_extend(a, i);
    lemma_b32_prefix_extend(b, i);
    if i == 0 {
        assert(spec_b32_prefix(a, 1) != spec_b32_prefix(b, 1));
    } else {
        let p: u128 = spec_b32_prefix(a, i);
        let da: u128 = spec_b32_digit(a, i) as u128;
        let db: u128 = spec_b32_digit(b, i) as u128;
        assert(da < 32 && db < 32) by {
            lemma_b32_digit_bound(a, i);
            lemma_b32_digit_bound(b, i);
        }
        assert(((p << 5) | da) < ((p << 5) | db) <==> da < db) by (bit_vector)
            requires
                da < 32u128,
                db < 32u128,
        ;
    }
    let s: u128 = ((26 - (i + 1)) * 5) as u128;
    lemma_shift_monotone(a, b, s);
    lemma_shift_monotone(b, a, s);
    assert(spec_b32_prefix(a, i + 1) != spec_b32_prefix(b, i + 1));
}

/// Strict lexicographic order on two character sequences of one length.
pub open spec fn lex_less(s1: Seq<char>, s2: Seq<char>) -> bool
    recommends
        s1.len() == s2.len(),
{
    exists|k: int| 0 <= k < s1.len() && k < s2.len()
        && (forall|j: int| 0 <= j < k ==> s1[j] == s2[j])
        && (#[trigger] s1[k]) < s2[k]
}

/// Sortability law: the canonical 26-character encodings of two values
/// compare lexicographically exactly as the values compare numerically, so
/// sorting encoded identifiers sorts them by creation order.
pub proof fn lemma_encode_sortable(a: u128, b: u128)
    requires
        a < b,
    ensures
        lex_less(spec_encode(a), spec_encode(b)),
{
    lemma_b32_first_diff(a, b, 0);
    let i = choose|i: int| 0 <= i < 26
        && (forall|j: int| 0 <= j < i ==> spec_b32_digit(a, j) == spec_b32_digit(b, j))
        && (#[trigger] spec_b32_digit(a, i)) != spec_b32_digit(b, i)
        && (i > 0 ==> spec_b32_prefix(a, i) == spec_b32_prefix(b, i));
    lemma_b32_digit_decides(a, b, i);
    lemma_b32_digit_bound(a, i);
    lemma_b32_digit_bound(b, i);
    lemma_b32_ascii_increasing(spec_b32_digit(a, i), spec_b32_digit(b, i));
    assert(0 <= i < spec_encode(a).len() && i < spec_encode(b).len()
        && (forall|j: int| 0 <= j < i ==> spec_encode(a)[j] == spec_encode(b)[j])
        && spec_encode(a)[i] < spec_encode(b)[i]);
}

/// Every base32 digit of a value is below 32, so its ASCII code is a
/// printable character below 128.
pub proof fn lemma_b32_digit_bound(value: u128, i: int)
    ensures
        spec_b32_digit(value, i) < 32,
        spec_b32_ascii(spec_b32_digit(value, i)) < 128,
{
    let s: u128 = (((25 - i) * 5) as u128);
    assert((((value >> s) & 0x1f) as u8) < 32) by (bit_vector);
}

/// The ASCII code of one Crockford base32 digit.
fn b32_ascii(d: u8) -> (c: u8)
    requires
        d < 32,
    ensures
        c == spec_b32_ascii(d),
        c < 128,
{
    if d < 10 {
        48 + d
    } else if d < 18 {
        55 + d
    } else if d < 20 {
        56 + d
    } else if d < 22 {
        57 + d
    } else if d < 27 {
        58 + d
    } else {
        59 + d
    }
}

/// The timestamp field of a packed value is below `2^48`.
pub proof fn lemma_unpack_timestamp_bound(value: u128)
    ensures
        unpack_timestamp(value) == value >> 80,
        unpack_timestamp(value) < TS_LIMIT,
{
    assert(value >> 80 < 0x1_0000_0000_0000 && (value >> 80) as u64 == value >> 80)
        by (bit_vector);
}

/// The randomness field of a packed value is below `2^80`.
pub proof fn lemma_unpack_randomness_bound(value: u128)
    ensures
        unpack_randomness(value) < RAND_LIMIT,
{
    assert(value & 0xFFFF_FFFF_FFFF_FFFF_FFFF < 0x1_0000_0000_0000_0000_0000)
        by (bit_vector);
}

/// Packing then unpacking gives the fields back unchanged.
pub proof fn lemma_pack_unpack(timestamp: u64, randomness: u128)
    requires
        timestamp < TS_LIMIT,
        randomness < RAND_LIMIT,
    ensures
        unpack_timestamp(pack(timestamp, randomness)) == timestamp,
        unpack_randomness(pack(timestamp, randomness)) == randomness,
{
    assert((((timestamp as u128) << 80) | randomness) >> 80 == timestamp as u128
        && (((timestamp as u128) << 80) | randomness) & 0xFFFF_FFFF_FFFF_FFFF_FFFF
            == randomness) by (bit_vector)
        requires
            timestamp < 0x1_0000_0000_0000u64,
            randomness < 0x1_0000_0000_0000_0000_0000u128,
    ;
}

} // verus!
