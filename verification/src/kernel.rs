//! Sparse kernels: impulse locations paired with signs.

use crate::choice::{sign_for, unit_sign, Choice};
use crate::locations::{
    in_cell, lemma_locations_strictly_increase, lemma_reach_shrinks, reach,
    OVNImpulseLocations,
};
use vstd::prelude::*;

verus! {

/// `k` is a kernel over `[lo, hi)`: its indices lie in the range and
/// strictly increase, and every coefficient is a sign.
pub open spec fn is_kernel_within(k: Seq<(usize, i8)>, lo: int, hi: int) -> bool {
    &&& forall|i: int| 0 <= i < k.len() ==> lo <= (#[trigger] k[i]).0 < hi
    &&& forall|i: int| 0 <= i < k.len() ==> unit_sign((#[trigger] k[i]).1)
    &&& forall|i: int, j: int| 0 <= i < j < k.len() ==> (#[trigger] k[i]).0 < (#[trigger] k[j]).0
}

/// Every index of `k` is below `bound`.
pub open spec fn all_below(k: Seq<(usize, i8)>, bound: int) -> bool {
    forall|i: int| 0 <= i < k.len() ==> (#[trigger] k[i]).0 < bound
}

/// Whether every index of `kernel` is below `bound`, so that the kernel can
/// address a buffer of that many samples.
pub fn kernel_fits(kernel: &Vec<(usize, i8)>, bound: usize) -> (r: bool)
    ensures
        r == all_below(kernel@, bound as int),
{
    let mut i: usize = 0;
    while i < kernel.len()
        invariant
            i <= kernel.len(),
            forall|j: int| 0 <= j < i ==> (#[trigger] kernel@[j]).0 < bound,
        decreases kernel.len() - i,
    {
        if kernel[i].0 >= bound {
            return false;
        }
        i += 1;
    }
    true
}

/// Kernels over adjoining ranges join into one kernel over the whole range:
/// no index repeats and the order is kept.
pub proof fn lemma_adjoining_kernels_join(
    a: Seq<(usize, i8)>,
    b: Seq<(usize, i8)>,
    lo: int,
    mid: int,
    hi: int,
)
    requires
        is_kernel_within(a, lo, mid),
        is_kernel_within(b, mid, hi),
        lo <= mid <= hi,
    ensures
        is_kernel_within(a + b, lo, hi),
{
    let c = a + b;
    assert forall|i: int| 0 <= i < c.len() implies lo <= (#[trigger] c[i]).0 < hi && unit_sign(
        c[i].1,
    ) by {
        if i < a.len() {
            assert(c[i] == a[i]);
        } else {
            assert(c[i] == b[i - a.len()]);
        }
    }
    assert forall|i: int, j: int| 0 <= i < j < c.len() implies (#[trigger] c[i]).0 < (
    #[trigger] c[j]).0 by {
        if j < a.len() {
            assert(c[i] == a[i] && c[j] == a[j]);
        } else if i < a.len() {
            assert(c[i] == a[i] && c[j] == b[j - a.len()]);
        } else {
            assert(c[i] == b[i - a.len()] && c[j] == b[j - a.len()]);
        }
    }
}

/// A velvet noise kernel: pairs of an index and a sign. Every index that
/// is not handed out stands for a coefficient of zero.
pub struct VelvetNoiseKernel {
    impulses: OVNImpulseLocations,
    signs: Choice,
}

impl VelvetNoiseKernel {
    /// The generator of the indices.
    pub closed spec fn source(&self) -> OVNImpulseLocations {
        self.impulses
    }

    /// The generator of the signs.
    pub closed spec fn signs(&self) -> Choice {
        self.signs
    }

    /// The kernel is valid when the generator of its indices is.
    pub open spec fn wf(&self) -> bool {
        self.source().wf()
    }

    /// A kernel that pairs the locations of `impulses` with the signs of
    /// `signs`.
    pub fn new(impulses: OVNImpulseLocations, signs: Choice) -> (k: VelvetNoiseKernel)
        ensures
            k.source() == impulses,
            k.signs() == signs,
    {
        VelvetNoiseKernel { impulses, signs }
    }

    /// The next pair: the next location, with the sign of one freshly drawn
    /// trial. `None` once the locations are exhausted; no sign is drawn then.
    pub fn next(&mut self) -> (r: Option<(usize, i8)>)
        requires
            old(self).wf(),
        ensures
            final(self).wf(),
            final(self).source().period() == old(self).source().period(),
            final(self).signs().skew() == old(self).signs().skew(),
            match r {
                Some(p) => {
                    &&& !old(self).source().exhausted()
                    &&& final(self).source().history() == old(self).source().history().push(p.0)
                    &&& final(self).signs().outcomes().len() == old(self).signs().outcomes().len()
                        + 1
                    &&& final(self).signs().outcomes().drop_last() == old(self).signs().outcomes()
                    &&& p.1 == sign_for(final(self).signs().outcomes().last())
                    &&& unit_sign(p.1)
                },
                None => {
                    &&& old(self).source().exhausted()
                    &&& final(self).source().history() == old(self).source().history()
                    &&& final(self).signs().outcomes() == old(self).signs().outcomes()
                },
            },
    {
        match self.impulses.next() {
            Some(i) => {
                match self.signs.next() {
                    Some(x) => Some((i, x)),
                    None => unreached(),
                }
            },
            None => None,
        }
    }

    /// The pairs whose index lies in `[min_index, max_index)`, in order.
    /// Pairs are drawn until an index reaches `max_index` or the locations
    /// are exhausted; those below `min_index` are passed over. One trial is
    /// drawn with every location, and a pair that is kept holds the sign of
    /// the trial drawn with its index.
    pub fn render(&mut self, min_index: usize, max_index: usize) -> (r: Vec<(usize, i8)>)
        requires
            old(self).wf(),
        ensures
            final(self).wf(),
            final(self).source().period() == old(self).source().period(),
            final(self).signs().skew() == old(self).signs().skew(),
            is_kernel_within(r@, min_index as int, max_index as int),
            old(self).source().history().len() <= final(self).source().history().len(),
            final(self).source().history().take(old(self).source().history().len() as int) == old(
                self,
            ).source().history(),
            old(self).signs().outcomes().len() <= final(self).signs().outcomes().len(),
            final(self).signs().outcomes().take(old(self).signs().outcomes().len() as int) == old(
                self,
            ).signs().outcomes(),
            rendered_from(
                final(self).source().history().skip(old(self).source().history().len() as int),
                final(self).signs().outcomes().skip(old(self).signs().outcomes().len() as int),
                min_index as int,
                max_index as int,
                final(self).source().exhausted(),
                r@,
            ),
    {
        let mut out: Vec<(usize, i8)> = Vec::new();
        let ghost h0 = self.impulses.history();
        let ghost n0 = h0.len() as int;
        let ghost o0 = self.signs.outcomes();
        let ghost k0 = o0.len() as int;
        let ghost lo = min_index as int;
        let ghost hi = max_index as int;
        proof {
            reveal(Seq::filter);
            assert(h0.skip(n0) =~= Seq::<usize>::empty());
            assert(paired(h0.skip(n0), o0.skip(k0)) =~= Seq::<(usize, i8)>::empty());
            assert(h0.take(n0) =~= h0);
            assert(o0.take(k0) =~= o0);
        }
        loop
            invariant_except_break
                out@ == paired(
                    self.impulses.history().skip(n0),
                    self.signs.outcomes().skip(k0),
                ).filter(pair_within(lo, hi)),
                forall|i: int| 0 <= i < self.impulses.history().len() - n0 ==> (
                #[trigger] self.impulses.history().skip(n0)[i]) < hi,
            invariant
                self.impulses.wf(),
                self.impulses.period() == old(self).impulses.period(),
                self.signs.skew() == old(self).signs.skew(),
                h0 == old(self).impulses.history(),
                o0 == old(self).signs.outcomes(),
                n0 == h0.len(),
                k0 == o0.len(),
                lo == min_index,
                hi == max_index,
                n0 <= self.impulses.history().len(),
                self.impulses.history().take(n0) == h0,
                self.signs.outcomes().len() - k0 == self.impulses.history().len() - n0,
                self.signs.outcomes().take(k0) == o0,
                is_kernel_within(out@, lo, hi),
                out.len() > 0 ==> self.impulses.history().len() > 0 && out[out.len() - 1].0
                    <= self.impulses.history().last(),
            ensures
                rendered_from(
                    self.impulses.history().skip(n0),
                    self.signs.outcomes().skip(k0),
                    lo,
                    hi,
                    self.impulses.exhausted(),
                    out@,
                ),
            decreases reach(hi, self.impulses.history().len() as int, self.impulses.period()),
        {
            let ghost before = self.impulses.history();
            let ghost trials = self.signs.outcomes();
            match self.next() {
                None => {
                    break ;
                },
                Some(p) => {
                    let ghost now = self.impulses.history();
                    let ghost n = before.len() as int;
                    let ghost td = self.impulses.period();
                    let ghost kept = out@;
                    proof {
                        let outs = self.signs.outcomes();
                        let pairs = paired(now.skip(n0), outs.skip(k0));
                        reveal(Seq::filter);
                        assert(now.skip(n0).drop_last() =~= before.skip(n0));
                        assert(now.skip(n0).last() == p.0);
                        assert(now.take(n0) =~= before.take(n0));
                        assert(outs.take(k0) =~= trials.take(k0)) by {
                            assert forall|j: int| 0 <= j < k0 implies outs[j] == trials[j] by {
                                assert(outs.drop_last()[j] == outs[j]);
                            }
                        }
                        assert(pairs.drop_last() =~= paired(before.skip(n0), trials.skip(k0))) by {
                            assert forall|j: int| 0 <= j < n - n0 implies outs.skip(k0)[j]
                                == trials.skip(k0)[j] by {
                                assert(outs.drop_last()[k0 + j] == outs[k0 + j]);
                            }
                        }
                        assert(pairs.last() == p);
                        assert(in_cell(td, n, now[n] as int));
                        if n > 0 {
                            lemma_locations_strictly_increase(td, now, n - 1, n);
                        }
                        assert forall|i: int| 0 <= i < now.len() - n0 - 1 implies (
                        #[trigger] now.skip(n0)[i]) < hi by {
                            assert(now.skip(n0)[i] == before.skip(n0)[i]);
                        }
                    }
                    if p.0 >= max_index {
                        break ;
                    }
                    if p.0 >= min_index {
                        out.push(p);
                        assert(out@ =~= kept.push(p));
                    }
                    proof {
                        lemma_reach_shrinks(hi, n, td);
                    }
                },
            }
        }
        out
    }
}

/// The pairs that locations and trials drawn together make: pair `j` is
/// location `j` with the sign of trial `j`.
pub open spec fn paired(locations: Seq<usize>, outcomes: Seq<bool>) -> Seq<(usize, i8)> {
    Seq::new(locations.len(), |j: int| (locations[j], sign_for(outcomes[j])))
}

/// The test for a pair's index to lie in `[lo, hi)`.
pub open spec fn pair_within(lo: int, hi: int) -> spec_fn((usize, i8)) -> bool {
    |p: (usize, i8)| lo <= p.0 < hi
}

/// `picked` is what a rendering over `[lo, hi)` keeps of the locations
/// `drawn` for it and of the trials `outcomes` drawn with them, one with
/// each: the pairs whose index lies in the range. Drawing went on while the
/// locations stayed below `hi`, and ended with the first that did not, unless
/// the generator was exhausted before.
pub open spec fn rendered_from(
    drawn: Seq<usize>,
    outcomes: Seq<bool>,
    lo: int,
    hi: int,
    exhausted: bool,
    picked: Seq<(usize, i8)>,
) -> bool {
    &&& outcomes.len() == drawn.len()
    &&& picked == paired(drawn, outcomes).filter(pair_within(lo, hi))
    &&& forall|i: int| 0 <= i < drawn.len() - 1 ==> (#[trigger] drawn[i]) < hi
    &&& (drawn.len() > 0 && drawn.last() >= hi) || (exhausted && (drawn.len() > 0
        ==> drawn.last() < hi))
}

} // verus!
