//! The live taps of an endlessly replenished sparse convolution.

use crate::choice::{sign_for, Choice};
use crate::error::BoundaryError;
use crate::kernel::all_below;
use vstd::prelude::*;

verus! {

/// One term of the convolution: a place in the source and a gain.
#[derive(Debug, Clone, Copy, PartialEq, Eq, Structural)]
pub struct Tap {
    /// The index in the source that the tap reads.
    pub position: usize,
    /// The sign that the sample read is multiplied by.
    pub gain: i8,
}

/// The tap one sample further on, while that is still inside a source of
/// `source_len` samples.
pub open spec fn advanced(tap: Tap, source_len: usize) -> Option<Tap> {
    if tap.position + 1 < source_len {
        Some(Tap { position: (tap.position + 1) as usize, gain: tap.gain })
    } else {
        None
    }
}

/// A tap after one step: moved on by a sample, or, where that would leave
/// the source, replaced by a tap at the start with the gain `fresh`.
pub open spec fn stepped(tap: Tap, source_len: usize, fresh: i8) -> Tap {
    match advanced(tap, source_len) {
        Some(t) => t,
        None => Tap { position: 0, gain: fresh },
    }
}

/// How many of the first `i` taps leave a source of `source_len` samples
/// when they move on by one.
pub open spec fn retired_before(taps: Seq<Tap>, source_len: usize, i: int) -> nat
    decreases i,
{
    if i <= 0 {
        0
    } else {
        retired_before(taps, source_len, i - 1) + if advanced(taps[i - 1], source_len) is None {
            1nat
        } else {
            0nat
        }
    }
}

/// The taps that a kernel seeds: one for each pair, in order.
pub open spec fn taps_of(kernel: Seq<(usize, i8)>) -> Seq<Tap> {
    kernel.map_values(|p: (usize, i8)| Tap { position: p.0, gain: p.1 })
}

/// Every tap reads inside a source of `source_len` samples.
pub open spec fn all_inside(taps: Seq<Tap>, source_len: usize) -> bool {
    forall|i: int| 0 <= i < taps.len() ==> (#[trigger] taps[i]).position < source_len
}

impl Tap {
    /// The tap one sample further on, or `None` where it has run off the
    /// end of the source.
    pub fn advance(self, source_len: usize) -> (r: Option<Tap>)
        ensures
            r == advanced(self, source_len),
    {
        if self.position < usize::MAX && self.position + 1 < source_len {
            Some(Tap { position: self.position + 1, gain: self.gain })
        } else {
            None
        }
    }
}

/// A set of taps over a source of fixed length. Its size never changes:
/// a tap that runs off the end is replaced by a fresh one at the start.
pub struct TapSet {
    taps: Vec<Tap>,
    source_len: usize,
}

impl View for TapSet {
    type V = Seq<Tap>;

    closed spec fn view(&self) -> Seq<Tap> {
        self.taps@
    }
}

impl TapSet {
    /// The length of the source that the taps read.
    pub closed spec fn source_len(&self) -> usize {
        self.source_len
    }

    /// The set is valid: every tap reads inside the source.
    pub open spec fn wf(&self) -> bool {
        all_inside(self@, self.source_len())
    }

    /// The taps seeded by `kernel` over a source of `source_len` samples.
    /// A kernel with an index outside the source is a boundary error, which
    /// names the first such index.
    pub fn seed(kernel: &Vec<(usize, i8)>, source_len: usize) -> (r: Result<TapSet, BoundaryError>)
        ensures
            match r {
                Ok(t) => {
                    &&& all_below(kernel@, source_len as int)
                    &&& t.wf()
                    &&& t.source_len() == source_len
                    &&& t@ == taps_of(kernel@)
                },
                Err(e) => {
                    &&& e.bound == source_len
                    &&& e.index >= source_len
                    &&& exists|k: int|
                        0 <= k < kernel@.len() && (#[trigger] kernel@[k]).0 == e.index
                            && all_below(kernel@.take(k), source_len as int)
                },
            },
    {
        let mut taps: Vec<Tap> = Vec::new();
        let mut i: usize = 0;
        while i < kernel.len()
            invariant
                i <= kernel.len(),
                taps@ == taps_of(kernel@.take(i as int)),
                all_below(kernel@.take(i as int), source_len as int),
            decreases kernel.len() - i,
        {
            let pair = kernel[i];
            if pair.0 >= source_len {
                assert(kernel@[i as int].0 == pair.0);
                return Err(BoundaryError { index: pair.0, bound: source_len });
            }
            taps.push(Tap { position: pair.0, gain: pair.1 });
            proof {
                let before = kernel@.take(i as int);
                let now = kernel@.take(i + 1);
                assert(now =~= before.push(pair));
                assert(taps@ =~= taps_of(now));
                assert forall|j: int| 0 <= j < now.len() implies (#[trigger] now[j]).0
                    < source_len by {
                    if j < i {
                        assert(now[j] == before[j]);
                    }
                }
            }
            i += 1;
        }
        assert(kernel@.take(i as int) =~= kernel@);
        let set = TapSet { taps, source_len };
        assert forall|j: int| 0 <= j < set@.len() implies (#[trigger] set@[j]).position
            < source_len by {
            assert(kernel@[j].0 < source_len);
        }
        Ok(set)
    }

    /// The number of taps.
    pub fn len(&self) -> (r: usize)
        ensures
            r == self@.len(),
    {
        self.taps.len()
    }

    /// The taps, for the caller to read the source through.
    pub fn taps(&self) -> (r: &Vec<Tap>)
        ensures
            r@ == self@,
    {
        &self.taps
    }

    /// One step of the engine, after an output sample was formed: every tap
    /// moves on by a sample, and each that leaves the source is replaced by
    /// a tap at the start with the sign of a freshly drawn trial. One trial is
    /// drawn for each tap that leaves, in the order of the slots, and none
    /// for a tap that stays. The number of taps stays, and every tap reads
    /// inside the source again.
    pub fn step(&mut self, choice: &mut Choice)
        requires
            old(self).wf(),
        ensures
            final(self).wf(),
            final(self).source_len() == old(self).source_len(),
            final(self)@.len() == old(self)@.len(),
            final(choice).skew() == old(choice).skew(),
            final(choice).outcomes().len() == old(choice).outcomes().len() + retired_before(
                old(self)@,
                old(self).source_len(),
                old(self)@.len() as int,
            ),
            final(choice).outcomes().take(old(choice).outcomes().len() as int) == old(
                choice,
            ).outcomes(),
            (forall|i: int|
                0 <= i < old(self)@.len() ==> advanced(
                    #[trigger] old(self)@[i],
                    old(self).source_len(),
                ) is Some) ==> final(choice).outcomes() == old(choice).outcomes(),
            forall|i: int|
                0 <= i < old(self)@.len() ==> (#[trigger] final(self)@[i]) == stepped(
                    old(self)@[i],
                    old(self).source_len(),
                    sign_for(
                        final(choice).outcomes()[(old(choice).outcomes().len() + retired_before(
                            old(self)@,
                            old(self).source_len(),
                            i,
                        )) as int],
                    ),
                ),
    {
        let ghost before = self.taps@;
        let ghost o0 = choice.outcomes();
        let ghost k0 = o0.len() as int;
        let ghost n = self.source_len;
        assert(o0.take(k0) =~= o0);
        let mut i: usize = 0;
        while i < self.taps.len()
            invariant
                i <= self.taps.len(),
                self.taps.len() == before.len(),
                self.source_len == n,
                before == old(self).taps@,
                n == old(self).source_len,
                o0 == old(choice).outcomes(),
                k0 == o0.len(),
                choice.skew() == old(choice).skew(),
                old(self).wf(),
                choice.outcomes().len() == k0 + retired_before(before, n, i as int),
                choice.outcomes().take(k0) == o0,
                forall|j: int| i <= j < self.taps.len() ==> self.taps@[j] == before[j],
                forall|j: int|
                    0 <= j < i && advanced(before[j], n) is None ==> k0 + retired_before(
                        before,
                        n,
                        j,
                    ) < choice.outcomes().len(),
                forall|j: int|
                    0 <= j < i ==> (#[trigger] self.taps@[j]) == stepped(
                        before[j],
                        n,
                        sign_for(choice.outcomes()[k0 + retired_before(before, n, j)]),
                    ),
                forall|j: int| 0 <= j < i ==> (#[trigger] self.taps@[j]).position < n,
            decreases self.taps.len() - i,
        {
            let tap = self.taps[i];
            let ghost drawn = choice.outcomes();
            assert(before[i as int].position < n);
            let next = match tap.advance(self.source_len) {
                Some(t) => t,
                None => {
                    let gain = match choice.next() {
                        Some(x) => x,
                        None => unreached(),
                    };
                    proof {
                        let now = choice.outcomes();
                        assert forall|k: int| 0 <= k < drawn.len() implies now[k] == drawn[k] by {
                            assert(now.drop_last()[k] == now[k]);
                        }
                        assert(now.take(k0) =~= drawn.take(k0));
                    }
                    Tap { position: 0, gain }
                },
            };
            self.taps.set(i, next);
            i += 1;
        }
        proof {
            if forall|j: int| 0 <= j < before.len() ==> advanced(#[trigger] before[j], n) is Some {
                lemma_none_retired(before, n, before.len() as int);
                assert(choice.outcomes().take(k0) =~= choice.outcomes());
            }
        }
    }
}

/// Where none of the first `i` taps leaves the source, none is counted.
pub proof fn lemma_none_retired(taps: Seq<Tap>, source_len: usize, i: int)
    requires
        0 <= i <= taps.len(),
        forall|j: int| 0 <= j < i ==> advanced(#[trigger] taps[j], source_len) is Some,
    ensures
        retired_before(taps, source_len, i) == 0,
    decreases i,
{
    if i > 0 {
        lemma_none_retired(taps, source_len, i - 1);
    }
}

} // verus!
