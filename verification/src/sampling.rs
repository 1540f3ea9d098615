//! The sampling gate: a probabilistic skip of full inspection.
//!
//! To bound average per-packet cost under load, only a fraction of DNS
//! packets receive full inspection (decode and match); the rest are
//! accepted outright. The skip probability is held as an integer number
//! of parts per [`SAMPLE_DENOM`], drawn against a fresh uniform value for
//! every packet — no state is carried between draws.

use rand::Rng;
use vstd::prelude::*;

verus! {

/// The denominator of the skip probability: a gate with `skip_parts` equal
/// to this value skips every inspection, one with `skip_parts` zero skips
/// none.
pub const SAMPLE_DENOM: u64 = 1000000;

/// Relies on rand's `Rng::gen_range` over `0..n`: it returns a value in
/// the given range, and panics only when the range is empty.
#[verifier::external_body]
fn sample_uniform_below(n: u64) -> (r: u64)
    requires
        n > 0,
    ensures
        r < n,
{
    rand::thread_rng().gen_range(0..n)
}

/// Decides per DNS packet whether to perform full inspection, skipping it
/// with a fixed probability of `skip_parts` in [`SAMPLE_DENOM`].
pub struct SamplingGate {
    skip_parts: u64,
}

impl SamplingGate {
    /// How many parts in [`SAMPLE_DENOM`] of DNS packets skip inspection.
    pub closed spec fn skip_level(&self) -> u64 {
        self.skip_parts
    }

    /// The skip level denotes a probability: it does not exceed the
    /// denominator.
    pub open spec fn wf(&self) -> bool {
        self.skip_level() <= SAMPLE_DENOM
    }

    /// Whether a uniform draw below [`SAMPLE_DENOM`] selects the packet
    /// for full inspection: exactly the draws at or above the skip level.
    pub open spec fn spec_inspects(&self, draw: u64) -> bool {
        draw >= self.skip_level()
    }

    /// Build a gate that skips inspection with probability `skip_parts`
    /// in [`SAMPLE_DENOM`].
    pub fn new(skip_parts: u64) -> (g: SamplingGate)
        requires
            skip_parts <= SAMPLE_DENOM,
        ensures
            g.wf(),
            g.skip_level() == skip_parts,
    {
        SamplingGate { skip_parts }
    }

    /// The decision a given uniform draw leads to: inspect exactly when
    /// the draw is at or above the skip level.
    pub fn inspects(&self, draw: u64) -> (r: bool)
        ensures
            r == self.spec_inspects(draw),
    {
        draw >= self.skip_parts
    }

    /// Draw a fresh uniform value and decide whether this DNS packet
    /// receives full inspection. At skip level zero every packet is
    /// inspected; at the full skip level none is; in between, the result
    /// is the decision some draw below [`SAMPLE_DENOM`] leads to.
    pub fn should_inspect(&self) -> (r: bool)
        requires
            self.wf(),
        ensures
            self.skip_level() == 0 ==> r,
            self.skip_level() == SAMPLE_DENOM ==> !r,
            exists|draw: u64| draw < SAMPLE_DENOM && r == self.spec_inspects(draw),
    {
        let draw = sample_uniform_below(SAMPLE_DENOM);
        let r = self.inspects(draw);
        proof {
            assert(draw < SAMPLE_DENOM && r == self.spec_inspects(draw));
        }
        r
    }
}

} // verus!
