//! Impulse locations on a jittered grid.

use crate::entropy::{draw_below, seeded_rng};
use crate::error::ConfigError;
use rand::rngs::SmallRng;
use vstd::prelude::*;

verus! {

/// `v` lies in grid cell `m` of a grid whose cells are `td` samples wide.
pub open spec fn in_cell(td: int, m: int, v: int) -> bool {
    m * td <= v < (m + 1) * td
}

/// Entry `i` of `h` lies in grid cell `i`, for every `i`.
pub open spec fn cellwise(td: int, h: Seq<usize>) -> bool {
    forall|i: int| 0 <= i < h.len() ==> in_cell(td, i, #[trigger] h[i] as int)
}

/// The grid period for a density and a sample rate: whole samples per impulse.
pub open spec fn grid_period(density: int, sample_rate: int) -> int
    recommends
        density > 0,
{
    sample_rate / density
}

/// What `OVNImpulseLocations::new` answers for each pair of settings.
pub open spec fn config_check(density: usize, sample_rate: usize) -> Option<ConfigError> {
    if density == 0 {
        Some(ConfigError::ZeroDensity)
    } else if sample_rate == 0 {
        Some(ConfigError::ZeroSampleRate)
    } else if density > sample_rate {
        Some(ConfigError::DensityAboveSampleRate)
    } else {
        None
    }
}

/// The grid period for a density and a sample rate, where the two give a
/// positive one; the configuration error where they do not.
pub fn period_for(density: usize, sample_rate: usize) -> (r: Result<usize, ConfigError>)
    ensures
        match r {
            Ok(td) => {
                &&& config_check(density, sample_rate) is None
                &&& td == grid_period(density as int, sample_rate as int)
                &&& td > 0
            },
            Err(e) => config_check(density, sample_rate) == Some(e),
        },
{
    if density == 0 {
        return Err(ConfigError::ZeroDensity);
    }
    if sample_rate == 0 {
        return Err(ConfigError::ZeroSampleRate);
    }
    if density > sample_rate {
        return Err(ConfigError::DensityAboveSampleRate);
    }
    let td: usize = sample_rate / density;
    assert(td > 0) by (nonlinear_arith)
        requires
            td == sample_rate as int / density as int,
            0 < density <= sample_rate,
    ;
    Ok(td)
}

/// The location in grid cell `cell`, of a grid whose cells are `period`
/// samples wide, that lies `jitter` samples after the start of the cell.
/// `None` where the end of the cell would pass `usize::MAX`.
pub fn place(cell: usize, period: usize, jitter: usize) -> (r: Option<usize>)
    requires
        period > 0,
        jitter < period,
    ensures
        match r {
            Some(v) => (cell + 1) * period <= usize::MAX && v == cell * period + jitter,
            None => (cell + 1) * period > usize::MAX,
        },
{
    let next_cell: usize = match cell.checked_add(1) {
        Some(x) => x,
        None => {
            assert((cell + 1) * period > usize::MAX) by (nonlinear_arith)
                requires
                    cell + 1 > usize::MAX,
                    period >= 1,
            ;
            return None;
        },
    };
    let end: usize = match next_cell.checked_mul(period) {
        Some(x) => x,
        None => {
            return None;
        },
    };
    assert(end == cell * period + period && cell * period >= 0) by (nonlinear_arith)
        requires
            end == (cell + 1) * period,
            cell >= 0,
            period >= 0,
    ;
    let start: usize = end - period;
    Some(start + jitter)
}

/// Impulse locations of Original Velvet Noise (OVN): one impulse in every
/// grid cell, at a uniformly drawn place within the cell.
pub struct OVNImpulseLocations {
    m: usize,
    td: usize,
    r1m: SmallRng,
    drawn: Ghost<Seq<usize>>,
}

impl OVNImpulseLocations {
    /// The width of a grid cell in samples.
    pub closed spec fn period(&self) -> int {
        self.td as int
    }

    /// Every location handed out so far, oldest first.
    pub closed spec fn history(&self) -> Seq<usize> {
        self.drawn@
    }

    /// The step counter agrees with the number of locations handed out.
    pub closed spec fn counted(&self) -> bool {
        self.drawn@.len() == self.m
    }

    /// The generator is valid: its period is positive and the `i`-th
    /// location it handed out lies in grid cell `i`.
    pub open spec fn wf(&self) -> bool {
        &&& self.counted()
        &&& 0 < self.period() <= usize::MAX
        &&& cellwise(self.period(), self.history())
    }

    /// The end of the next grid cell lies beyond `usize::MAX`, so no further
    /// location can be handed out.
    pub open spec fn exhausted(&self) -> bool {
        (self.history().len() + 1) * self.period() > usize::MAX
    }

    /// A generator for `density` impulses per second at `sample_rate` samples
    /// per second, with a random source of its own that `seed` fixes.
    /// Settings that give no positive period are refused.
    pub fn new(density: usize, sample_rate: usize, seed: u64) -> (r: Result<
        OVNImpulseLocations,
        ConfigError,
    >)
        ensures
            match r {
                Ok(g) => {
                    &&& config_check(density, sample_rate) is None
                    &&& g.wf()
                    &&& g.period() == grid_period(density as int, sample_rate as int)
                    &&& g.history() == Seq::<usize>::empty()
                },
                Err(e) => config_check(density, sample_rate) == Some(e),
            },
    {
        match period_for(density, sample_rate) {
            Ok(td) => Ok(
                OVNImpulseLocations { m: 0, td, r1m: seeded_rng(seed), drawn: Ghost(Seq::empty()) },
            ),
            Err(e) => Err(e),
        }
    }

    /// The width of a grid cell in samples.
    pub fn td(&self) -> (r: usize)
        ensures
            r == self.period(),
    {
        self.td
    }

    /// The next location: the place that a fresh uniform draw from
    /// `[0, period)` has in the next grid cell, and so greater than every
    /// location before it. `None` once the end of the next cell would pass
    /// `usize::MAX`; the history is then left as it was.
    pub fn next(&mut self) -> (r: Option<usize>)
        requires
            old(self).wf(),
        ensures
            final(self).wf(),
            final(self).period() == old(self).period(),
            match r {
                Some(v) => {
                    &&& !old(self).exhausted()
                    &&& final(self).history() == old(self).history().push(v)
                    &&& in_cell(old(self).period(), old(self).history().len() as int, v as int)
                    &&& forall|i: int|
                        0 <= i < old(self).history().len() ==> old(self).history()[i] < v
                },
                None => old(self).exhausted() && final(self).history() == old(self).history(),
            },
    {
        let ghost m = self.m as int;
        let ghost td = self.td as int;
        let jitter: usize = draw_below(&mut self.r1m, self.td);
        match place(self.m, self.td, jitter) {
            Some(v) => {
                assert(m + 1 <= usize::MAX && in_cell(td, m, v as int)) by (nonlinear_arith)
                    requires
                        (m + 1) * td <= usize::MAX,
                        v == m * td + jitter,
                        0 <= jitter < td,
                        m >= 0,
                ;
                self.m = self.m + 1;
                self.drawn = Ghost(self.drawn@.push(v));
                proof {
                    let h = self.drawn@;
                    let h0 = old(self).drawn@;
                    assert forall|i: int| 0 <= i < m implies h0[i] < v by {
                        assert(h[i] == h0[i]);
                        lemma_locations_strictly_increase(td, h, i, m);
                    }
                }
                Some(v)
            },
            None => None,
        }
    }

    /// The locations below `limit`, in the order drawn. Drawing stops at the
    /// first location that reaches `limit`, which is consumed and not
    /// returned, or when the generator is exhausted.
    pub fn take_below(&mut self, limit: usize) -> (r: Vec<usize>)
        requires
            old(self).wf(),
        ensures
            final(self).wf(),
            final(self).period() == old(self).period(),
            forall|i: int| 0 <= i < r.len() ==> r[i] < limit,
            final(self).history() == old(self).history() + r@ || (final(self).history().len() > 0
                && final(self).history().drop_last() == old(self).history() + r@),
            final(self).history() == old(self).history() + r@ ==> final(self).exhausted(),
            final(self).history() != old(self).history() + r@ ==> final(self).history().last()
                >= limit,
            old(self).history().len() + r.len() <= final(self).history().len() <= old(
                self,
            ).history().len() + r.len() + 1,
            r.len() > 0 ==> (old(self).history().len() + r.len() - 1) * old(self).period() < limit,
            !final(self).exhausted() ==> limit as int / old(self).period() <= old(self).history().len()
                + r.len(),
    {
        let mut out: Vec<usize> = Vec::new();
        let ghost h0 = self.history();
        assert(h0 + out@ =~= h0);
        loop
            invariant_except_break
                self.history() == h0 + out@,
            invariant
                self.wf(),
                self.period() == old(self).period(),
                h0 == old(self).history(),
                forall|i: int| 0 <= i < out.len() ==> out[i] < limit,
            ensures
                self.wf(),
                self.period() == old(self).period(),
                forall|i: int| 0 <= i < out.len() ==> out[i] < limit,
                self.history() == h0 + out@ || (self.history().len() > 0
                    && self.history().drop_last() == h0 + out@),
                self.history() == h0 + out@ ==> self.exhausted(),
                self.history() != h0 + out@ ==> self.history().last() >= limit,
                h0.len() + out.len() <= self.history().len() <= h0.len() + out.len() + 1,
            decreases reach(limit as int, self.history().len() as int, self.period()),
        {
            let ghost before = self.history();
            match self.next() {
                None => {
                    break ;
                },
                Some(v) => {
                    assert(self.history().drop_last() =~= before);
                    assert(self.history().last() == v);
                    if v >= limit {
                        assert(self.history().len() != before.len());
                        break ;
                    }
                    out.push(v);
                    assert(self.history() =~= h0 + out@);
                    proof {
                        let n = before.len() as int;
                        let td = self.period();
                        assert(in_cell(td, n, self.history()[n] as int));
                        lemma_reach_shrinks(limit as int, n, td);
                    }
                },
            }
        }
        proof {
            let h = self.history();
            let td = self.period();
            let n = (h0 + out@).len() as int;
            if out.len() > 0 {
                assert((h0 + out@)[n - 1] == out[out.len() - 1]);
                assert(h[n - 1] == (h0 + out@)[n - 1]) by {
                    if h != h0 + out@ {
                        assert(h.drop_last()[n - 1] == h[n - 1]);
                    }
                }
                assert(in_cell(td, n - 1, h[n - 1] as int));
            }
            if !self.exhausted() {
                assert(h.drop_last() == h0 + out@);
                assert(h.len() == n + 1);
                lemma_count_below(td, h, limit as int, n);
            }
        }
        out
    }
}

/// Locations from a valid generator never repeat and never go back: each
/// is strictly greater than every earlier one.
pub proof fn lemma_locations_strictly_increase(td: int, h: Seq<usize>, i: int, j: int)
    requires
        td > 0,
        cellwise(td, h),
        0 <= i < j < h.len(),
    ensures
        h[i] < h[j],
{
    assert(in_cell(td, i, h[i] as int));
    assert(in_cell(td, j, h[j] as int));
    assert((i + 1) * td <= j * td) by (nonlinear_arith)
        requires
            i + 1 <= j,
            td > 0,
    ;
}

/// How far a grid of period `td` still has to go, from cell `n`, before its
/// cells start at or above `limit`.
pub open spec fn reach(limit: int, n: int, td: int) -> int {
    if n * td < limit {
        limit - n * td
    } else {
        0
    }
}

/// Moving on by one cell brings a grid nearer to any limit that it has not
/// reached yet.
pub proof fn lemma_reach_shrinks(limit: int, n: int, td: int)
    requires
        td > 0,
        n >= 0,
        n * td < limit,
    ensures
        0 <= reach(limit, n + 1, td) < reach(limit, n, td),
{
    assert((n + 1) * td == n * td + td) by (nonlinear_arith);
}

/// The number of locations below a limit is the number of whole grid cells
/// below it, or one more: where location `n` is the first at or above
/// `limit`, `limit / td <= n`, and `(n - 1) * td < limit` if there is a
/// location before it.
pub proof fn lemma_count_below(td: int, h: Seq<usize>, limit: int, n: int)
    requires
        td > 0,
        cellwise(td, h),
        0 <= n < h.len(),
        h[n] >= limit,
    ensures
        limit / td <= n,
        n > 0 && h[n - 1] < limit ==> (n - 1) * td < limit,
{
    assert(in_cell(td, n, h[n] as int));
    assert(limit / td <= n) by (nonlinear_arith)
        requires
            limit < (n + 1) * td,
            td > 0,
    ;
    if n > 0 {
        assert(in_cell(td, n - 1, h[n - 1] as int));
    }
}

/// Where the density divides the sample rate, a window of whole seconds
/// holds exactly `density` locations per second.
pub proof fn lemma_density_is_met(
    density: int,
    sample_rate: int,
    seconds: int,
    h: Seq<usize>,
    n: int,
)
    requires
        density > 0,
        sample_rate > 0,
        seconds >= 0,
        sample_rate % density == 0,
        cellwise(grid_period(density, sample_rate), h),
        0 <= n < h.len(),
        h[n] >= sample_rate * seconds,
        n > 0 ==> h[n - 1] < sample_rate * seconds,
    ensures
        n == density * seconds,
{
    let td = grid_period(density, sample_rate);
    let limit = sample_rate * seconds;
    assert(td > 0 && sample_rate == td * density) by (nonlinear_arith)
        requires
            td == sample_rate / density,
            sample_rate % density == 0,
            density > 0,
            sample_rate > 0,
    ;
    assert(limit == (density * seconds) * td) by (nonlinear_arith)
        requires
            limit == sample_rate * seconds,
            sample_rate == td * density,
    ;
    lemma_count_below(td, h, limit, n);
    assert(in_cell(td, n, h[n] as int));
    assert(density * seconds <= n) by (nonlinear_arith)
        requires
            (density * seconds) * td < (n + 1) * td,
            td > 0,
    ;
    if n > 0 {
        assert(n - 1 < density * seconds) by (nonlinear_arith)
            requires
                (n - 1) * td < (density * seconds) * td,
                td > 0,
        ;
    }
}

} // verus!
