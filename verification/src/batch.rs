//! The batch generator: a stateless path that anchors a run of identifiers
//! to one captured timestamp and one random seed, incrementing the payload
//! across the batch. It shares no state with the single-shot generator;
//! concurrent batch calls are fully independent.

use vstd::prelude::*;
use crate::ulid::{
    pack, unpack_randomness, unpack_timestamp, lemma_pack_unpack, Ulid, UlidError,
    RAND_LIMIT, TS_LIMIT,
};
use crate::source::{draw_randomness, now_millis};

verus! {

/// Build the batch for a captured timestamp and seed: element `i` is
/// `Identifier(now, r0 + i)`. Fails with `RandomnessOverflow` exactly when
/// the run `r0 .. r0 + count` would leave the 80-bit randomness range.
pub fn batch_from_parts(now: u64, r0: u128, count: usize) -> (r: Result<Vec<Ulid>, UlidError>)
    requires
        now < TS_LIMIT,
        r0 < RAND_LIMIT,
    ensures
        r is Ok <==> count <= RAND_LIMIT - r0,
        r matches Ok(v) ==> (v@.len() == count
            && forall|i: int| 0 <= i < count
                ==> (#[trigger] v@[i])@ == pack(now, (r0 + i) as u128)),
        r matches Err(e) ==> e == UlidError::RandomnessOverflow,
    {
        if count as u128 > RAND_LIMIT - r0 {
            return Err(UlidError::RandomnessOverflow);
        }
        let mut v: Vec<Ulid> = Vec::new();
        let mut i: usize = 0;
        while i < count
            invariant
                now < TS_LIMIT,
                r0 < RAND_LIMIT,
                i <= count,
                count <= RAND_LIMIT - r0,
                v@.len() == i,
                forall|j: int| 0 <= j < i
                    ==> (#[trigger] v@[j])@ == pack(now, (r0 + j) as u128),
            decreases count - i,
        {
            v.push(Ulid::from_parts(now, r0 + i as u128));
            i = i + 1;
        }
        Ok(v)
    }

/// Generate `count` identifiers in one invocation from one clock reading
/// and one random seed. Whatever the clock and the random source return, a
/// produced batch has exactly `count` elements, all sharing one timestamp,
/// with randomness values contiguous and strictly increasing from the
/// first element's. The call can fail only when the seed drawn sits fewer
/// than `count` values below the randomness limit, which requires
/// `count >= 2`; batches of 0 or 1 always succeed.
pub fn generate_batch(count: usize) -> (r: Result<Vec<Ulid>, UlidError>)
    ensures
        r matches Ok(v) ==> (v@.len() == count
            && forall|i: int| 0 <= i < count
                ==> (unpack_timestamp((#[trigger] v@[i])@) == unpack_timestamp(v@[0]@)
                    && unpack_randomness((v@[i])@) == unpack_randomness(v@[0]@) + i)),
        r matches Err(e) ==> (e == UlidError::RandomnessOverflow && count >= 2),
        count <= 1 ==> r is Ok,
{
    let now = now_millis();
    let r0 = draw_randomness();
    let r = batch_from_parts(now, r0, count);
    proof {
        if r is Ok {
            let v = r->Ok_0;
            assert forall|i: int| 0 <= i < count
                implies (unpack_timestamp((#[trigger] v@[i])@) == unpack_timestamp(v@[0]@)
                    && unpack_randomness((v@[i])@) == unpack_randomness(v@[0]@) + i) by {
                lemma_pack_unpack(now, r0);
                lemma_pack_unpack(now, (r0 + i) as u128);
            }
        }
    }
    r
}

} // verus!
