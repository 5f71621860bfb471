//! The random sources, and the calls that draw from them.
//!
//! Nothing here is proved: each contract states what the `rand` crate
//! documents of the call, and the rest of the library is verified against
//! these statements.

use rand::distributions::{Bernoulli, BernoulliError, Distribution};
use rand::rngs::SmallRng;
use rand::{Rng, SeedableRng};
use vstd::prelude::*;

verus! {

/// `rand::rngs::SmallRng`, a pseudo-random generator: carried through, and
/// never looked into.
#[verifier::external_type_specification]
#[verifier::external_body]
pub struct ExSmallRng(SmallRng);

/// `rand::distributions::Bernoulli`, a trial with a fixed chance of
/// success: carried through, and never looked into.
#[verifier::external_type_specification]
#[verifier::external_body]
pub struct ExBernoulli(Bernoulli);

/// `rand::distributions::BernoulliError`, the refusal of a ratio that is no
/// probability.
#[verifier::external_type_specification]
#[verifier::external_body]
pub struct ExBernoulliError(BernoulliError);

/// `SeedableRng::seed_from_u64` on a `SmallRng`: a generator whose draws
/// are fixed by `seed`. Nothing is claimed of the generator returned.
#[verifier::external_body]
pub(crate) fn seeded_rng(seed: u64) -> SmallRng {
    SmallRng::seed_from_u64(seed)
}

/// `Rng::gen_range(0, bound)` on a `usize`: one uniform draw from the
/// half-open range below `bound`. The call panics on an empty range, which
/// the precondition leaves out; of the value drawn only its range is claimed.
#[verifier::external_body]
pub(crate) fn draw_below(rng: &mut SmallRng, bound: usize) -> (r: usize)
    requires
        bound > 0,
    ensures
        r < bound,
{
    rng.gen_range(0, bound)
}

/// `Bernoulli::from_ratio`: the trial that succeeds `numerator` times in
/// `denominator`. It is refused exactly when the ratio is no probability:
/// a zero denominator, or a numerator above it.
#[verifier::external_body]
pub(crate) fn trial_from_ratio(numerator: u32, denominator: u32) -> (r: Result<
    Bernoulli,
    BernoulliError,
>)
    ensures
        r is Ok <==> (numerator <= denominator && denominator > 0),
{
    Bernoulli::from_ratio(numerator, denominator)
}

/// `Distribution::sample` on a `Bernoulli`: one trial. Either outcome may
/// come back, so nothing is claimed of it.
#[verifier::external_body]
pub(crate) fn draw_trial(trial: &Bernoulli, rng: &mut SmallRng) -> bool {
    trial.sample(rng)
}

} // verus!
