//! A fixed-capacity history of the most recent samples.

use crate::error::{BoundaryError, ConfigError};
use vstd::prelude::*;

verus! {

/// The place in a ring of `capacity` cells, whose next write goes to
/// `cursor`, of the sample written `offset` pushes ago.
pub open spec fn slot(cursor: int, capacity: int, offset: int) -> int {
    if offset < cursor {
        cursor - 1 - offset
    } else {
        capacity + cursor - 1 - offset
    }
}

/// A circular buffer of the last `capacity` samples pushed into it.
///
/// Its view is the history, most recent sample first: entry `k` is the
/// sample written `k` pushes ago.
pub struct DelayBuffer<T: Copy> {
    data: Vec<T>,
    cursor: usize,
}

impl<T: Copy> View for DelayBuffer<T> {
    type V = Seq<T>;

    closed spec fn view(&self) -> Seq<T> {
        Seq::new(
            self.data@.len(),
            |k: int| self.data@[slot(self.cursor as int, self.data@.len() as int, k)],
        )
    }
}

impl<T: Copy> DelayBuffer<T> {
    /// The cursor points into the ring.
    pub closed spec fn inv(&self) -> bool {
        self.cursor < self.data@.len()
    }

    /// The buffer is valid: it holds at least one sample.
    pub open spec fn wf(&self) -> bool {
        self.inv() && self@.len() > 0
    }

    /// A buffer of `capacity` samples, each of them `fill`. A capacity of
    /// zero is refused.
    pub fn new(capacity: usize, fill: T) -> (r: Result<DelayBuffer<T>, ConfigError>)
        ensures
            match r {
                Ok(b) => capacity > 0 && b.wf() && b@ == Seq::new(capacity as nat, |k: int| fill),
                Err(e) => capacity == 0 && e == ConfigError::ZeroCapacity,
            },
    {
        if capacity == 0 {
            return Err(ConfigError::ZeroCapacity);
        }
        let mut data: Vec<T> = Vec::new();
        let mut i: usize = 0;
        while i < capacity
            invariant
                i <= capacity,
                data@.len() == i,
                forall|j: int| 0 <= j < i ==> data@[j] == fill,
            decreases capacity - i,
        {
            data.push(fill);
            i += 1;
        }
        let b = DelayBuffer { data, cursor: 0 };
        assert(b@ =~= Seq::new(capacity as nat, |k: int| fill));
        Ok(b)
    }

    /// The number of samples that the buffer holds.
    pub fn capacity(&self) -> (r: usize)
        ensures
            r == self@.len(),
    {
        self.data.len()
    }

    /// Writes `x` as the most recent sample. Every other sample is now one
    /// push older, and the oldest is gone.
    pub fn push(&mut self, x: T)
        requires
            old(self).wf(),
        ensures
            final(self).wf(),
            final(self)@ == seq![x] + old(self)@.drop_last(),
    {
        let at: usize = self.cursor;
        let capacity: usize = self.data.len();
        self.data.set(at, x);
        self.cursor = if at + 1 == capacity {
            0
        } else {
            at + 1
        };
        assert(self@ =~= seq![x] + old(self)@.drop_last());
    }

    /// The sample written `offset` pushes ago; offset zero is the most
    /// recent. An offset at or beyond the capacity is a boundary error.
    pub fn get(&self, offset: usize) -> (r: Result<T, BoundaryError>)
        requires
            self.wf(),
        ensures
            match r {
                Ok(x) => offset < self@.len() && x == self@[offset as int],
                Err(e) => offset >= self@.len() && e == (BoundaryError {
                    index: offset,
                    bound: self@.len() as usize,
                }),
            },
    {
        let capacity: usize = self.data.len();
        if offset >= capacity {
            return Err(BoundaryError { index: offset, bound: capacity });
        }
        let at: usize = if offset < self.cursor {
            self.cursor - 1 - offset
        } else {
            capacity - 1 - offset + self.cursor
        };
        Ok(self.data[at])
    }

    /// The oldest sample: the one that the next push overwrites.
    pub fn oldest(&self) -> (r: T)
        requires
            self.wf(),
        ensures
            r == self@.last(),
    {
        self.data[self.cursor]
    }
}

} // verus!
