//! The idle capacity a server opens with, kept in the counting semaphore its admission reads.

use taipei::debt::DebtSemaphore;
use vstd::prelude::*;

use crate::engine::stack::CORES;

verus! {

/// A counting semaphore that can be taken below nothing: permits on hand, less those owed.
#[verifier::external_type_specification]
#[verifier::external_body]
pub struct ExDebtSemaphore(DebtSemaphore);

/// What a semaphore holds: the permits on hand, less those it owes.
pub uninterp spec fn permits(idle: DebtSemaphore) -> int;

/// As far from nothing as a capacity is ever taken, either way: no more permits than a semaphore
/// takes on the narrowest machine.
pub const MOST: i64 = 0x1fff_ffff;

/// A server's idle capacity, while nobody else holds it.
pub struct Cores {
    idle: DebtSemaphore,
}

impl Cores {
    /// How much of the machine is free to be taken; below nothing where it is owed.
    pub closed spec fn room(self) -> int {
        permits(self.idle)
    }

    /// `DebtSemaphore::new`: it holds the permits it is given, and owes none. It panics past what
    /// a semaphore can hold, which is never less than [`MOST`].
    #[verifier::external_body]
    fn holding(n: usize) -> (c: Cores)
        requires
            n <= MOST,
        ensures
            permits(c.idle) == n,
    {
        Cores { idle: DebtSemaphore::new(n) }
    }

    /// `DebtSemaphore::release`: a permit owed is repaid, or else one more is on hand; either way
    /// what it holds is one more. It panics past what a semaphore can hold.
    #[verifier::external_body]
    fn release(&mut self)
        requires
            permits(old(self).idle) < MOST,
        ensures
            permits(final(self).idle) == permits(old(self).idle) + 1,
    {
        self.idle.release();
    }

    /// `DebtSemaphore::acquire`: a permit on hand is taken, or else one more is owed; either way
    /// what it holds is one less. The count of those owed would wrap far past [`MOST`].
    #[verifier::external_body]
    fn acquire(&mut self)
        requires
            permits(old(self).idle) > -MOST,
        ensures
            permits(final(self).idle) == permits(old(self).idle) - 1,
    {
        self.idle.acquire();
    }

    /// Move capacity by `delta`, in whichever direction it points.
    fn shift(&mut self, delta: i64)
        requires
            -MOST <= old(self).room() <= MOST,
            -MOST <= old(self).room() + delta <= MOST,
        ensures
            final(self).room() == old(self).room() + delta,
    {
        let mut left: i64 = delta;
        while left != 0
            invariant
                -MOST <= old(self).room() <= MOST,
                -MOST <= old(self).room() + delta <= MOST,
                self.room() + left == old(self).room() + delta,
                delta > 0 ==> 0 <= left <= delta,
                delta <= 0 ==> delta <= left <= 0,
            decreases
                    if left < 0 {
                        -left
                    } else {
                        left as int
                    },
        {
            if left > 0 {
                self.release();
                left = left - 1;
            } else {
                self.acquire();
                left = left + 1;
            }
        }
    }

    /// Every core starts parked, so capacity opens at the cores less the reserve.
    pub fn new(reserve: i64) -> (c: Cores)
        requires
            -MOST <= CORES - reserve <= MOST,
        ensures
            c.room() == CORES - reserve,
    {
        let mut c = Cores::holding(0);
        c.shift(CORES as i64 - reserve);
        c
    }

    /// Hand the capacity over, to be shared with the admission that reads it.
    pub fn into_idle(self) -> (idle: DebtSemaphore)
        ensures
            permits(idle) == self.room(),
    {
        self.idle
    }
}

} // verus!
