//! Impulse locations regrouped into windows of a fixed length.

use crate::error::ConfigError;
use crate::locations::{
    config_check, grid_period, in_cell, lemma_locations_strictly_increase,
    lemma_reach_shrinks, reach, OVNImpulseLocations,
};
use vstd::prelude::*;

verus! {

/// A carried-over location as a sequence of one entry, or of none.
pub open spec fn carried_seq(carried: Option<usize>) -> Seq<usize> {
    match carried {
        Some(x) => seq![x],
        None => Seq::empty(),
    }
}

/// Impulse locations handed out window by window: each call of `next`
/// returns the locations of the next `chunk_length` samples.
pub struct ChunkedOVNImpulseLocations {
    impulses: OVNImpulseLocations,
    chunk_length: usize,
    base: usize,
    store: Option<usize>,
    emitted: Ghost<Seq<usize>>,
}

impl ChunkedOVNImpulseLocations {
    /// The generator that the windows are cut from.
    pub closed spec fn source(&self) -> OVNImpulseLocations {
        self.impulses
    }

    /// Where the next window starts.
    pub closed spec fn window_start(&self) -> usize {
        self.base
    }

    /// The length of every window.
    pub closed spec fn window_length(&self) -> usize {
        self.chunk_length
    }

    /// The location drawn from the source that no window has held yet.
    pub closed spec fn carried(&self) -> Option<usize> {
        self.store
    }

    /// All windows handed out so far, one after the other.
    pub closed spec fn emitted(&self) -> Seq<usize> {
        self.emitted@
    }

    /// The adapter is valid. The windows handed out so far, followed by the
    /// carried-over location, are exactly what the source has produced: no
    /// location was dropped, none repeated. Everything handed out lies
    /// before the next window, and the carried-over location does not.
    pub open spec fn wf(&self) -> bool {
        &&& self.source().wf()
        &&& self.source().history() == self.emitted() + carried_seq(self.carried())
        &&& forall|i: int| 0 <= i < self.emitted().len() ==> self.emitted()[i] < self.window_start()
        &&& match self.carried() {
            Some(x) => x >= self.window_start(),
            None => (self.source().history().len() == 0 && self.window_start() == 0)
                || self.source().exhausted(),
        }
    }

    /// Windows of `chunk_length` samples over a fresh generator for
    /// `density` impulses per second at `sample_rate` samples per second,
    /// whose random source `seed` fixes.
    pub fn new(density: usize, sample_rate: usize, chunk_length: usize, seed: u64) -> (r: Result<
        ChunkedOVNImpulseLocations,
        ConfigError,
    >)
        ensures
            match r {
                Ok(c) => {
                    &&& config_check(density, sample_rate) is None
                    &&& c.wf()
                    &&& c.source().period() == grid_period(density as int, sample_rate as int)
                    &&& c.window_start() == 0
                    &&& c.window_length() == chunk_length
                    &&& c.carried() is None
                    &&& c.emitted() == Seq::<usize>::empty()
                },
                Err(e) => config_check(density, sample_rate) == Some(e),
            },
    {
        match OVNImpulseLocations::new(density, sample_rate, seed) {
            Ok(impulses) => {
                assert(Seq::<usize>::empty() + carried_seq(None) =~= Seq::<usize>::empty());
                Ok(
                    ChunkedOVNImpulseLocations {
                        impulses,
                        chunk_length,
                        base: 0,
                        store: None,
                        emitted: Ghost(Seq::empty()),
                    },
                )
            },
            Err(e) => Err(e),
        }
    }

    /// The next window: every location of the source that lies in
    /// `[window_start, window_start + window_length)`, in order. The first
    /// location drawn beyond the window is kept for a later one. `None` once
    /// the end of the window would pass `usize::MAX`; the adapter is then left
    /// as it was.
    pub fn next(&mut self) -> (r: Option<Vec<usize>>)
        requires
            old(self).wf(),
        ensures
            final(self).wf(),
            final(self).window_length() == old(self).window_length(),
            final(self).source().period() == old(self).source().period(),
            match r {
                Some(chunk) => {
                    &&& old(self).window_start() + old(self).window_length() <= usize::MAX
                    &&& final(self).window_start() == old(self).window_start() + old(
                        self,
                    ).window_length()
                    &&& final(self).emitted() == old(self).emitted() + chunk@
                    &&& forall|i: int|
                        0 <= i < chunk.len() ==> old(self).window_start() <= #[trigger] chunk[i]
                            < final(self).window_start()
                    &&& final(self).carried() is None ==> final(self).source().exhausted()
                },
                None => {
                    &&& old(self).window_start() + old(self).window_length() > usize::MAX
                    &&& final(self).window_start() == old(self).window_start()
                    &&& final(self).emitted() == old(self).emitted()
                    &&& final(self).carried() == old(self).carried()
                    &&& final(self).source().history() == old(self).source().history()
                },
            },
    {
        let limit: usize = match self.base.checked_add(self.chunk_length) {
            Some(x) => x,
            None => {
                return None;
            },
        };
        let mut chunk: Vec<usize> = Vec::new();
        let ghost e0 = self.emitted@;
        match self.store {
            Some(x) => {
                if x >= limit {
                    self.base = limit;
                    assert(self.emitted@ + chunk@ =~= e0);
                    return Some(chunk);
                }
                chunk.push(x);
                self.store = None;
                assert(chunk@ =~= carried_seq(Some(x)));
            },
            None => {
                assert(chunk@ =~= carried_seq(None));
            },
        }
        loop
            invariant_except_break
                self.store is None,
                chunk.len() == 0 ==> (self.impulses.history().len() == 0 && self.base == 0)
                    || self.impulses.exhausted(),
            invariant
                self.impulses.wf(),
                self.impulses.period() == old(self).impulses.period(),
                self.chunk_length == old(self).chunk_length,
                self.base == old(self).base,
                self.emitted@ == e0,
                e0 == old(self).emitted@,
                limit == self.base + self.chunk_length,
                forall|i: int| 0 <= i < e0.len() ==> e0[i] < self.base,
                forall|i: int| 0 <= i < chunk.len() ==> self.base <= #[trigger] chunk[i] < limit,
                self.impulses.history() == e0 + chunk@ + carried_seq(self.store),
                match self.store {
                    Some(x) => x >= limit,
                    None => true,
                },
            ensures
                self.store is None ==> self.impulses.exhausted(),
            decreases reach(limit as int, self.impulses.history().len() as int, self.impulses.period()),
        {
            let ghost before = self.impulses.history();
            assert(before =~= e0 + chunk@);
            match self.impulses.next() {
                None => {
                    assert(e0 + chunk@ + carried_seq(self.store) =~= e0 + chunk@);
                    break ;
                },
                Some(x) => {
                    let ghost now = self.impulses.history();
                    let ghost n = before.len() as int;
                    let ghost td = self.impulses.period();
                    assert(now[n] == x);
                    assert(in_cell(td, n, now[n] as int));
                    proof {
                        if chunk.len() > 0 {
                            let k = n - 1;
                            assert(now[k] == chunk[chunk.len() - 1]);
                            lemma_locations_strictly_increase(td, now, k, n);
                        } else {
                            assert(n == e0.len());
                            if n > 0 {
                                assert(false);
                            }
                        }
                    }
                    assert(x >= self.base);
                    if x - self.base < self.chunk_length {
                        chunk.push(x);
                        assert(now =~= e0 + chunk@ + carried_seq(self.store));
                        proof {
                            lemma_reach_shrinks(limit as int, n, td);
                        }
                    } else {
                        self.store = Some(x);
                        assert(now =~= e0 + chunk@ + carried_seq(self.store));
                        break ;
                    }
                },
            }
        }
        self.base = limit;
        self.emitted = Ghost(e0 + chunk@);
        assert(self.impulses.history() =~= self.emitted@ + carried_seq(self.store));
        Some(chunk)
    }
}

/// The windows handed out so far, taken together, never repeat a location
/// and never go back: across every window boundary each location is
/// strictly greater than the one before it.
pub proof fn lemma_windows_strictly_increase(c: ChunkedOVNImpulseLocations, i: int, j: int)
    requires
        c.wf(),
        0 <= i < j < c.emitted().len(),
    ensures
        c.emitted()[i] < c.emitted()[j],
{
    let h = c.source().history();
    assert(h[i] == c.emitted()[i]);
    assert(h[j] == c.emitted()[j]);
    lemma_locations_strictly_increase(c.source().period(), h, i, j);
}

/// Every location that the source has produced and that lies before the next
/// window has been handed out in some window: none was dropped.
pub proof fn lemma_windows_lose_nothing(c: ChunkedOVNImpulseLocations, k: int)
    requires
        c.wf(),
        0 <= k < c.source().history().len(),
        c.source().history()[k] < c.window_start(),
    ensures
        k < c.emitted().len(),
        c.emitted()[k] == c.source().history()[k],
{
    let h = c.source().history();
    if k >= c.emitted().len() {
        assert(c.carried() is Some);
        assert(h[k] == c.carried()->0);
    }
}

} // verus!
