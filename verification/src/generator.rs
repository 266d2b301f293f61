//! The single-shot generator: per-synchronization-domain mutable state that
//! hands out strictly increasing identifiers.
//!
//! Design choice: one `Generator` value per synchronization domain. The
//! caller owns it — either one per worker thread (no locking, monotonicity
//! per thread) or one shared instance behind a lock (process-wide
//! monotonicity). The clock is read on every call; no freshness caching.
//!
//! Overflow policy: when the clock has not advanced past the stored window
//! and the stored randomness is at its 80-bit maximum, a call fails with
//! `CounterExhausted` rather than force-advancing the timestamp; retrying
//! once the clock moves on succeeds.

use vstd::prelude::*;
use crate::ulid::{
    pack, unpack_randomness, unpack_timestamp, lemma_pack_order, lemma_pack_unpack,
    lemma_fields_determine_value, Ulid, UlidError, RAND_LIMIT, RAND_MAX, TS_LIMIT,
};
use crate::source::{draw_randomness, now_millis};

verus! {

/// The mathematical model of the generator's state: the window's timestamp
/// and the last randomness handed out in it.
pub ghost struct GenModel {
    pub timestamp: u64,
    pub randomness: u128,
}

/// One decision's inputs: a clock reading and a fresh random draw.
pub ghost struct GenInput {
    pub now: u64,
    pub fresh: u128,
}

/// Well-formedness of the model: both fields within their bit widths.
pub open spec fn model_wf(m: GenModel) -> bool {
    m.timestamp < TS_LIMIT && m.randomness < RAND_LIMIT
}

/// The packed 128-bit value of the model's state: the last identifier value
/// the generator handed out (or 0 before the first call).
pub open spec fn model_value(m: GenModel) -> u128 {
    pack(m.timestamp, m.randomness)
}

/// Well-formedness of one decision's inputs.
pub open spec fn input_wf(inp: GenInput) -> bool {
    inp.now < TS_LIMIT && inp.fresh < RAND_LIMIT
}

/// The generation decision: a fresh window when the clock advanced past the
/// stored timestamp, an increment inside the window otherwise, and `None`
/// when the window's randomness is exhausted. Returns the next state and
/// the identifier value produced, if any.
pub open spec fn spec_step(m: GenModel, inp: GenInput) -> (GenModel, Option<u128>) {
    if inp.now > m.timestamp {
        (GenModel { timestamp: inp.now, randomness: inp.fresh }, Some(pack(inp.now, inp.fresh)))
    } else if m.randomness < RAND_MAX {
        let r2 = (m.randomness + 1) as u128;
        (GenModel { timestamp: m.timestamp, randomness: r2 }, Some(pack(m.timestamp, r2)))
    } else {
        (m, None)
    }
}

/// One step from a well-formed state stays well-formed, and every produced
/// value is strictly greater than the state's previous value and becomes
/// the new state's value; a failed step leaves the state unchanged.
pub proof fn lemma_step(m: GenModel, inp: GenInput)
    requires
        model_wf(m),
        input_wf(inp),
    ensures
        model_wf(spec_step(m, inp).0),
        spec_step(m, inp).1 matches Some(v) ==> (v > model_value(m)
            && model_value(spec_step(m, inp).0) == v),
        spec_step(m, inp).1 is None ==> spec_step(m, inp).0 == m,
{
    if inp.now > m.timestamp {
        lemma_pack_order(m.timestamp, m.randomness, inp.now, inp.fresh);
    } else if m.randomness < RAND_MAX {
        lemma_pack_order(m.timestamp, m.randomness, m.timestamp, (m.randomness + 1) as u128);
    }
}

/// The single-shot generator. Mutated on every generation call; exactly one
/// logical instance per concurrency domain.
pub struct Generator {
    last_timestamp: u64,
    last_randomness: u128,
}

impl View for Generator {
    type V = GenModel;

    closed spec fn view(&self) -> GenModel {
        GenModel { timestamp: self.last_timestamp, randomness: self.last_randomness }
    }
}

impl Generator {
    /// A fresh generator, its window at the epoch with randomness 0.
    pub fn new() -> (r: Generator)
        ensures
            r@ == (GenModel { timestamp: 0u64, randomness: 0u128 }),
            model_wf(r@),
    {
        Generator { last_timestamp: 0, last_randomness: 0 }
    }

    /// Apply the generation decision to the stored state for one clock
    /// reading and one fresh random draw. The returned identifier, when
    /// there is one, is exactly the value `spec_step` dictates; its value
    /// strictly exceeds the state's previous value.
    pub fn step(&mut self, now: u64, fresh: u128) -> (r: Result<Ulid, UlidError>)
        requires
            model_wf(old(self)@),
            now < TS_LIMIT,
            fresh < RAND_LIMIT,
        ensures
            model_wf(final(self)@),
            final(self)@ == spec_step(old(self)@, GenInput { now, fresh }).0,
            r matches Ok(id) ==> (spec_step(old(self)@, GenInput { now, fresh }).1
                == Some(id@) && id@ > model_value(old(self)@)
                && model_value(final(self)@) == id@),
            r matches Err(e) ==> (e == UlidError::CounterExhausted
                && spec_step(old(self)@, GenInput { now, fresh }).1 is None
                && final(self)@ == old(self)@),
            r is Err <==> (now <= old(self)@.timestamp
                && old(self)@.randomness == RAND_MAX),
            now > old(self)@.timestamp ==> (r matches Ok(id)
                && unpack_timestamp(id@) == now
                && unpack_randomness(id@) == fresh),
            (now <= old(self)@.timestamp && old(self)@.randomness < RAND_MAX) ==> (
                r matches Ok(id)
                && unpack_timestamp(id@) == old(self)@.timestamp
                && unpack_randomness(id@) == old(self)@.randomness + 1),
    {
        proof {
            lemma_step(self@, GenInput { now, fresh });
        }
        if now > self.last_timestamp {
            proof {
                lemma_pack_unpack(now, fresh);
            }
            self.last_timestamp = now;
            self.last_randomness = fresh;
            Ok(Ulid::from_parts(now, fresh))
        } else if self.last_randomness < RAND_MAX {
            let r2 = self.last_randomness + 1;
            proof {
                lemma_pack_unpack(self.last_timestamp, (self.last_randomness + 1) as u128);
            }
            self.last_randomness = r2;
            Ok(Ulid::from_parts(self.last_timestamp, r2))
        } else {
            Err(UlidError::CounterExhausted)
        }
    }

    /// Generate one identifier: read the clock, draw fresh randomness, and
    /// apply the generation decision. Whatever the clock and the random
    /// source return, a produced identifier strictly exceeds the state's
    /// previous value; the call fails only when the stored randomness is
    /// already at its maximum, and leaves the state unchanged then.
    pub fn generate(&mut self) -> (r: Result<Ulid, UlidError>)
        requires
            model_wf(old(self)@),
        ensures
            model_wf(final(self)@),
            r matches Ok(id) ==> (id@ > model_value(old(self)@)
                && model_value(final(self)@) == id@),
            r matches Err(e) ==> (e == UlidError::CounterExhausted
                && final(self)@ == old(self)@
                && old(self)@.randomness == RAND_MAX),
    {
        let now = now_millis();
        let fresh = draw_randomness();
        self.step(now, fresh)
    }
}

/// Well-formedness of a whole input sequence.
pub open spec fn inputs_wf(inputs: Seq<GenInput>) -> bool {
    forall|i: int| 0 <= i < inputs.len() ==> input_wf(#[trigger] inputs[i])
}

/// The state after running a sequence of generation decisions.
pub open spec fn run_state(m: GenModel, inputs: Seq<GenInput>) -> GenModel
    decreases inputs.len(),
{
    if inputs.len() == 0 {
        m
    } else {
        run_state(spec_step(m, inputs[0]).0, inputs.subrange(1, inputs.len() as int))
    }
}

/// The identifier values produced by a sequence of generation decisions, in
/// order, failed steps contributing nothing.
pub open spec fn run_outputs(m: GenModel, inputs: Seq<GenInput>) -> Seq<u128>
    decreases inputs.len(),
{
    if inputs.len() == 0 {
        Seq::empty()
    } else {
        let m2 = spec_step(m, inputs[0]).0;
        let rest = run_outputs(m2, inputs.subrange(1, inputs.len() as int));
        match spec_step(m, inputs[0]).1 {
            Some(v) => seq![v] + rest,
            None => rest,
        }
    }
}

/// Strict increase of a value sequence under 128-bit integer ordering.
pub open spec fn strictly_increasing(s: Seq<u128>) -> bool {
    forall|i: int, j: int| 0 <= i < j < s.len() ==> s[i] < s[j]
}

/// Every value produced by a run strictly exceeds the starting state's
/// value, and the run's final state never falls below it.
pub proof fn lemma_run_lower_bound(m: GenModel, inputs: Seq<GenInput>)
    requires
        model_wf(m),
        inputs_wf(inputs),
    ensures
        model_wf(run_state(m, inputs)),
        model_value(run_state(m, inputs)) >= model_value(m),
        forall|k: int| 0 <= k < run_outputs(m, inputs).len()
            ==> #[trigger] run_outputs(m, inputs)[k] > model_value(m),
    decreases inputs.len(),
{
    if inputs.len() > 0 {
        let rest = inputs.subrange(1, inputs.len() as int);
        let m2 = spec_step(m, inputs[0]).0;
        lemma_step(m, inputs[0]);
        lemma_run_lower_bound(m2, rest);
        let out = run_outputs(m, inputs);
        let rest_out = run_outputs(m2, rest);
        assert forall|k: int| 0 <= k < out.len() implies #[trigger] out[k] > model_value(m) by {
            match spec_step(m, inputs[0]).1 {
                Some(v) => {
                    assert(out == seq![v] + rest_out);
                    if k > 0 {
                        assert(out[k] == rest_out[k - 1]);
                        assert(rest_out[k - 1] > model_value(m2));
                    }
                },
                None => {
                    assert(out == rest_out);
                    assert(rest_out[k] > model_value(m2));
                },
            }
        }
    }
}

/// Monotonicity law: for every sequence of single-shot generation decisions
/// issued from one synchronization domain, the identifier values produced
/// are strictly increasing under 128-bit integer ordering.
pub proof fn lemma_run_monotonic(m: GenModel, inputs: Seq<GenInput>)
    requires
        model_wf(m),
        inputs_wf(inputs),
    ensures
        strictly_increasing(run_outputs(m, inputs)),
    decreases inputs.len(),
{
    if inputs.len() > 0 {
        let rest = inputs.subrange(1, inputs.len() as int);
        let m2 = spec_step(m, inputs[0]).0;
        lemma_step(m, inputs[0]);
        lemma_run_lower_bound(m2, rest);
        lemma_run_monotonic(m2, rest);
        let out = run_outputs(m, inputs);
        let rest_out = run_outputs(m2, rest);
        match spec_step(m, inputs[0]).1 {
            Some(v) => {
                assert(out == seq![v] + rest_out);
                assert forall|i: int, j: int| 0 <= i < j < out.len() implies out[i] < out[j] by {
                    if i == 0 {
                        assert(out[j] == rest_out[j - 1]);
                        assert(rest_out[j - 1] > model_value(m2));
                    } else {
                        assert(out[i] == rest_out[i - 1]);
                        assert(out[j] == rest_out[j - 1]);
                    }
                }
            },
            None => {
                assert(out == rest_out);
            },
        }
    }
}

/// Uniqueness within a window: two distinct identifier values produced by
/// one run that share a timestamp never share a randomness value.
pub proof fn lemma_run_window_uniqueness(m: GenModel, inputs: Seq<GenInput>, i: int, j: int)
    requires
        model_wf(m),
        inputs_wf(inputs),
        0 <= i < j < run_outputs(m, inputs).len(),
        unpack_timestamp(run_outputs(m, inputs)[i])
            == unpack_timestamp(run_outputs(m, inputs)[j]),
    ensures
        unpack_randomness(run_outputs(m, inputs)[i])
            != unpack_randomness(run_outputs(m, inputs)[j]),
{
    lemma_run_monotonic(m, inputs);
    let a = run_outputs(m, inputs)[i];
    let b = run_outputs(m, inputs)[j];
    if unpack_randomness(a) == unpack_randomness(b) {
        lemma_fields_determine_value(a, b);
    }
}

} // verus!
