//! The sign of an impulse: a biased coin.

use crate::entropy::{draw_trial, seeded_rng, trial_from_ratio};
use crate::error::ConfigError;
use rand::distributions::Bernoulli;
use rand::rngs::SmallRng;
use vstd::prelude::*;

verus! {

/// `x` is one of the two signs, `1` and `-1`.
pub open spec fn unit_sign(x: i8) -> bool {
    x == 1 || x == -1
}

/// The sign that stands for the outcome of one trial.
pub open spec fn sign_for(success: bool) -> i8 {
    if success {
        1i8
    } else {
        -1i8
    }
}

/// The ratio `numerator / denominator` is a probability strictly between
/// zero and one.
pub open spec fn proper_skew(numerator: u32, denominator: u32) -> bool {
    0 < numerator < denominator
}

/// The sign that stands for the outcome of one trial: `1` for a success,
/// `-1` for a failure.
pub fn sign_of(success: bool) -> (r: i8)
    ensures
        r == sign_for(success),
        unit_sign(r),
{
    if success {
        1
    } else {
        -1
    }
}

/// The trial that succeeds `numerator` times in `denominator`, where that
/// ratio lies strictly between zero and one.
fn trial_for(numerator: u32, denominator: u32) -> (r: Result<Bernoulli, ConfigError>)
    ensures
        match r {
            Ok(_) => proper_skew(numerator, denominator),
            Err(e) => !proper_skew(numerator, denominator) && e == ConfigError::SkewOutOfRange,
        },
{
    if numerator == 0 || numerator >= denominator {
        return Err(ConfigError::SkewOutOfRange);
    }
    match trial_from_ratio(numerator, denominator) {
        Ok(trial) => Ok(trial),
        Err(_) => Err(ConfigError::SkewOutOfRange),
    }
}

/// An endless sequence of signs, each `1` with the probability given by the
/// skew and `-1` otherwise. Every instance draws from a random source of its
/// own.
pub struct Choice {
    trial: Bernoulli,
    rng: SmallRng,
    numerator: u32,
    denominator: u32,
    trials: Ghost<Seq<bool>>,
}

impl Choice {
    /// The skew as a ratio: the chance of `1` is the first over the second.
    pub closed spec fn skew(&self) -> (u32, u32) {
        (self.numerator, self.denominator)
    }

    /// The outcome of every trial drawn so far, oldest first: `true` for a
    /// success.
    pub closed spec fn outcomes(&self) -> Seq<bool> {
        self.trials@
    }

    /// Signs that are `1` with probability `numerator / denominator`, from
    /// a random source of its own that `seed` fixes. A ratio that is not
    /// strictly between zero and one is refused.
    pub fn crushed(numerator: u32, denominator: u32, seed: u64) -> (r: Result<Choice, ConfigError>)
        ensures
            match r {
                Ok(c) => {
                    &&& proper_skew(numerator, denominator)
                    &&& c.skew() == (numerator, denominator)
                    &&& c.outcomes() == Seq::<bool>::empty()
                },
                Err(e) => !proper_skew(numerator, denominator) && e
                    == ConfigError::SkewOutOfRange,
            },
    {
        match trial_for(numerator, denominator) {
            Ok(trial) => Ok(
                Choice {
                    trial,
                    rng: seeded_rng(seed),
                    numerator,
                    denominator,
                    trials: Ghost(Seq::empty()),
                },
            ),
            Err(e) => Err(e),
        }
    }

    /// Signs that are `1` and `-1` with equal probability, from a random
    /// source of its own that `seed` fixes.
    pub fn classic(seed: u64) -> (c: Choice)
        ensures
            c.skew() == (1u32, 2u32),
            c.outcomes() == Seq::<bool>::empty(),
    {
        match trial_from_ratio(1, 2) {
            Ok(trial) => Choice {
                trial,
                rng: seeded_rng(seed),
                numerator: 1,
                denominator: 2,
                trials: Ghost(Seq::empty()),
            },
            Err(_) => unreached(),
        }
    }

    /// The next sign: one more trial is drawn, and the sign is `1` where it
    /// succeeded and `-1` where it failed. The sign is always there.
    pub fn next(&mut self) -> (r: Option<i8>)
        ensures
            final(self).skew() == old(self).skew(),
            final(self).outcomes().len() == old(self).outcomes().len() + 1,
            final(self).outcomes().drop_last() == old(self).outcomes(),
            r == Some(sign_for(final(self).outcomes().last())),
            unit_sign(r->0),
    {
        let success = draw_trial(&self.trial, &mut self.rng);
        self.trials = Ghost(self.trials@.push(success));
        assert(self.trials@.drop_last() =~= old(self).trials@);
        Some(sign_of(success))
    }
}

} // verus!
