//! Velvet noise as a dense signal: a sign at every impulse location and
//! silence everywhere else.

use crate::choice::{proper_skew, sign_for, unit_sign, Choice};
use crate::error::ConfigError;
use crate::locations::{
    config_check, grid_period, lemma_locations_strictly_increase, OVNImpulseLocations,
};
use vstd::prelude::*;

verus! {

/// The samples `signal` sound exactly at the locations in `history`: sample
/// `p` is a sign where `p` is a location, and zero where it is not.
pub open spec fn sounds_at(signal: Seq<i8>, history: Seq<usize>) -> bool {
    forall|p: usize|
        p < signal.len() ==> (#[trigger] signal[p as int] != 0 <==> history.contains(p))
}

/// The audio signal of an impulse location generator: one sample per call,
/// `1` or `-1` at each impulse location and `0` between them.
pub struct VelvetNoise {
    impulses: OVNImpulseLocations,
    r2m: Choice,
    n: usize,
    kovn: Option<usize>,
    signal: Ghost<Seq<i8>>,
}

impl VelvetNoise {
    /// The generator of the impulse locations.
    pub closed spec fn source(&self) -> OVNImpulseLocations {
        self.impulses
    }

    /// The generator of the signs.
    pub closed spec fn signs(&self) -> Choice {
        self.r2m
    }

    /// The index of the next sample.
    pub closed spec fn position(&self) -> usize {
        self.n
    }

    /// The next impulse location, if the generator had one left.
    pub closed spec fn pending(&self) -> Option<usize> {
        self.kovn
    }

    /// Every sample handed out so far.
    pub closed spec fn signal(&self) -> Seq<i8> {
        self.signal@
    }

    /// The signal is valid: it has sounded exactly at the impulse locations
    /// that lie behind it, and the one location ahead of it is the last that
    /// the generator produced.
    pub open spec fn wf(&self) -> bool {
        let h = self.source().history();
        &&& self.source().wf()
        &&& self.signal().len() == self.position()
        &&& sounds_at(self.signal(), h)
        &&& forall|i: int| 0 <= i < h.len() - 1 ==> (#[trigger] h[i]) < self.position()
        &&& match self.pending() {
            Some(k) => h.len() > 0 && h.last() == k && self.position() <= k,
            None => self.source().exhausted() && (h.len() > 0 ==> h.last() < self.position()),
        }
    }

    /// What one call of `next` does to the signal `self`, leaving it as
    /// `after` and returning `r`.
    ///
    /// At an impulse location one trial is drawn and the sample is its sign;
    /// the next location is drawn, if the generator has one left. Between
    /// impulse locations the sample is zero and nothing is drawn. Once the
    /// sample index has reached `usize::MAX` there is no sample, and nothing
    /// changes.
    pub open spec fn sampled(self, after: VelvetNoise, r: Option<i8>) -> bool {
        &&& after.source().period() == self.source().period()
        &&& after.signs().skew() == self.signs().skew()
        &&& match r {
            Some(x) => {
                &&& self.position() < usize::MAX
                &&& after.position() == self.position() + 1
                &&& after.signal() == self.signal().push(x)
                &&& if self.pending() == Some(self.position()) {
                    &&& after.signs().outcomes().len() == self.signs().outcomes().len() + 1
                    &&& after.signs().outcomes().drop_last() == self.signs().outcomes()
                    &&& x == sign_for(after.signs().outcomes().last())
                    &&& unit_sign(x)
                    &&& match after.pending() {
                        Some(k) => after.source().history() == self.source().history().push(k),
                        None => after.source().history() == self.source().history(),
                    }
                } else {
                    &&& x == 0
                    &&& after.signs().outcomes() == self.signs().outcomes()
                    &&& after.source().history() == self.source().history()
                    &&& after.pending() == self.pending()
                }
            },
            None => {
                &&& self.position() == usize::MAX
                &&& after.position() == self.position()
                &&& after.signal() == self.signal()
                &&& after.pending() == self.pending()
                &&& after.source().history() == self.source().history()
                &&& after.signs().outcomes() == self.signs().outcomes()
            },
        }
    }

    /// The signal of `impulses` with the signs of `signs`, from sample zero.
    /// The first impulse location is drawn at once.
    pub fn from_parts(impulses: OVNImpulseLocations, signs: Choice) -> (r: VelvetNoise)
        requires
            impulses.wf(),
            impulses.history().len() == 0,
        ensures
            r.wf(),
            r.position() == 0,
            r.signal() == Seq::<i8>::empty(),
            r.source().period() == impulses.period(),
            r.signs() == signs,
            match r.pending() {
                Some(k) => r.source().history() == seq![k],
                None => r.source().history() == Seq::<usize>::empty(),
            },
    {
        let mut imps = impulses;
        let kovn = imps.next();
        proof {
            if kovn is Some {
                assert(imps.history() =~= seq![kovn->0]);
            } else {
                assert(imps.history() =~= Seq::<usize>::empty());
            }
        }
        VelvetNoise { impulses: imps, r2m: signs, n: 0, kovn, signal: Ghost(Seq::empty()) }
    }

    /// Velvet noise of `density` impulses per second at `sample_rate`
    /// samples per second, with signs of equal probability. The locations
    /// and the signs each draw from a random source of their own, which
    /// `location_seed` and `sign_seed` fix.
    pub fn new(density: usize, sample_rate: usize, location_seed: u64, sign_seed: u64) -> (r: Result<
        VelvetNoise,
        ConfigError,
    >)
        ensures
            match r {
                Ok(v) => {
                    &&& config_check(density, sample_rate) is None
                    &&& v.wf()
                    &&& v.position() == 0
                    &&& v.signal() == Seq::<i8>::empty()
                    &&& v.source().period() == grid_period(density as int, sample_rate as int)
                    &&& v.signs().skew() == (1u32, 2u32)
                    &&& v.signs().outcomes() == Seq::<bool>::empty()
                },
                Err(e) => config_check(density, sample_rate) == Some(e),
            },
    {
        match OVNImpulseLocations::new(density, sample_rate, location_seed) {
            Ok(impulses) => Ok(VelvetNoise::from_parts(impulses, Choice::classic(sign_seed))),
            Err(e) => Err(e),
        }
    }

    /// The next sample: the sign of a freshly drawn trial if this sample is
    /// an impulse location, zero if it is not. `None` once the sample index
    /// has reached `usize::MAX`; the signal is then left as it was.
    pub fn next(&mut self) -> (r: Option<i8>)
        requires
            old(self).wf(),
        ensures
            final(self).wf(),
            old(self).sampled(*final(self), r),
    {
        if self.n == usize::MAX {
            return None;
        }
        let ghost h = self.impulses.history();
        let ghost s = self.signal@;
        let here: usize = self.n;
        let value: i8 = if self.kovn == Some(here) {
            self.kovn = self.impulses.next();
            let x = match self.r2m.next() {
                Some(x) => x,
                None => unreached(),
            };
            proof {
                let now = self.impulses.history();
                assert(h.contains(here)) by {
                    assert(h[h.len() - 1] == here);
                }
                if now.len() > h.len() {
                    assert(now.drop_last() =~= h);
                    lemma_locations_strictly_increase(
                        self.impulses.period(),
                        now,
                        h.len() - 1,
                        h.len() as int,
                    );
                    assert forall|p: usize| p <= here implies (now.contains(p) <==> h.contains(
                        p,
                    )) by {
                        if now.contains(p) {
                            let i = choose|i: int| 0 <= i < now.len() && now[i] == p;
                            assert(i < h.len());
                            assert(h[i] == p);
                        }
                        if h.contains(p) {
                            let i = choose|i: int| 0 <= i < h.len() && h[i] == p;
                            assert(now[i] == p);
                        }
                    }
                }
            }
            x
        } else {
            proof {
                if h.contains(here) {
                    let i = choose|i: int| 0 <= i < h.len() && h[i] == here;
                    assert(i == h.len() - 1);
                }
            }
            0
        };
        self.n = here + 1;
        self.signal = Ghost(s.push(value));
        proof {
            let now = self.impulses.history();
            assert forall|p: usize| p < s.len() + 1 implies (#[trigger] s.push(value)[p as int]
                != 0 <==> now.contains(p)) by {
                if p < s.len() {
                    assert(s.push(value)[p as int] == s[p as int]);
                    assert(s[p as int] != 0 <==> h.contains(p));
                }
            }
        }
        Some(value)
    }
}

/// Velvet noise whose signs are skewed: `1` with a chosen probability.
pub struct CrushedOriginalVelvetNoise {
    noise: VelvetNoise,
}

impl CrushedOriginalVelvetNoise {
    /// The signal, as velvet noise with the skewed signs.
    pub closed spec fn inner(&self) -> VelvetNoise {
        self.noise
    }

    /// Velvet noise of `density` impulses per second at `sample_rate`
    /// samples per second, whose signs are `1` with probability
    /// `numerator / denominator`. The density and the sample rate are looked
    /// at first, the skew after them. The locations and the signs each draw
    /// from a random source of their own, which `location_seed` and
    /// `sign_seed` fix.
    pub fn new(
        density: usize,
        sample_rate: usize,
        numerator: u32,
        denominator: u32,
        location_seed: u64,
        sign_seed: u64,
    ) -> (r: Result<CrushedOriginalVelvetNoise, ConfigError>)
        ensures
            match r {
                Ok(v) => {
                    &&& config_check(density, sample_rate) is None
                    &&& proper_skew(numerator, denominator)
                    &&& v.inner().wf()
                    &&& v.inner().position() == 0
                    &&& v.inner().signal() == Seq::<i8>::empty()
                    &&& v.inner().source().period() == grid_period(
                        density as int,
                        sample_rate as int,
                    )
                    &&& v.inner().signs().skew() == (numerator, denominator)
                    &&& v.inner().signs().outcomes() == Seq::<bool>::empty()
                },
                Err(e) => if config_check(density, sample_rate) is Some {
                    config_check(density, sample_rate) == Some(e)
                } else {
                    !proper_skew(numerator, denominator) && e == ConfigError::SkewOutOfRange
                },
            },
    {
        let impulses = match OVNImpulseLocations::new(density, sample_rate, location_seed) {
            Ok(impulses) => impulses,
            Err(e) => {
                return Err(e);
            },
        };
        match Choice::crushed(numerator, denominator, sign_seed) {
            Ok(signs) => Ok(
                CrushedOriginalVelvetNoise { noise: VelvetNoise::from_parts(impulses, signs) },
            ),
            Err(e) => Err(e),
        }
    }

    /// The next sample, as `VelvetNoise::next` gives it: the sign of a
    /// freshly drawn trial at an impulse location, zero elsewhere.
    pub fn next(&mut self) -> (r: Option<i8>)
        requires
            old(self).inner().wf(),
        ensures
            final(self).inner().wf(),
            old(self).inner().sampled(final(self).inner(), r),
    {
        self.noise.next()
    }
}

} // verus!
