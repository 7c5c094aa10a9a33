//! Senders' clocks: how often each sends, and when it next does.
//!
//! A gap is drawn by the caller at the moment it sends, because that is where the draw happens in
//! the stream: after the request's own phases.

use vstd::prelude::*;

use crate::engine::clock::{Ticks, MS, NET_MS};

verus! {

/// One sender's clock.
#[derive(Clone, Copy, PartialEq, Eq, Structural, Debug)]
pub struct Arrivals {
    /// Requests per thousand seconds.
    pub rate: u64,
    /// When it next lands a request, or `None` while the stream is held.
    pub next: Option<Ticks>,
}

impl Arrivals {
    /// The landing this clock is holding, if it is sending at all and the request would be sent by
    /// `t_end`: a request is sent a leg before it lands.
    pub open spec fn spec_due(self, t_end: Ticks) -> Option<Ticks> {
        match self.next {
            Some(at) => if self.rate > 0 && at - NET_MS * MS <= t_end {
                Some(at)
            } else {
                None
            },
            None => None,
        }
    }

    /// A clock sending at `rate`, held until its first gap is drawn.
    pub fn new(rate: u64) -> (a: Arrivals)
        ensures
            a == (Arrivals { rate, next: None }),
    {
        Arrivals { rate, next: None }
    }

    /// The landing this clock is holding, if it is due by `t_end`.
    pub fn due(&self, t_end: Ticks) -> (at: Option<Ticks>)
        ensures
            at == self.spec_due(t_end),
    {
        match self.next {
            None => None,
            Some(at) => if self.rate > 0 && at.saturating_sub(NET_MS * MS) <= t_end {
                Some(at)
            } else {
                None
            },
        }
    }

    /// The send happened: the next is a gap after the instant this one lands.
    pub fn sent(&mut self, at: Ticks, gap: Ticks)
        requires
            at + gap <= u64::MAX,
        ensures
            *final(self) == (Arrivals { next: Some((at + gap) as u64), ..*old(self) }),
    {
        self.next = Some(at + gap);
    }

    /// Retune the rate, and say whether the sender is coming back from silence. What has already
    /// been scheduled stands, but a woken sender draws a fresh gap: the send it was holding is
    /// long past.
    pub fn set_rate(&mut self, rate: u64) -> (woken: bool)
        ensures
            woken == (old(self).rate == 0 && rate > 0),
            *final(self) == (Arrivals { rate, ..*old(self) }),
    {
        let woken: bool = self.rate == 0 && rate > 0;
        self.rate = rate;
        woken
    }

    /// Hold the stream: nothing sends until it is released.
    pub fn hold(&mut self)
        ensures
            *final(self) == (Arrivals { next: None, ..*old(self) }),
    {
        self.next = None;
    }

    /// Let the stream go: its next send is a gap from now.
    pub fn release(&mut self, now: Ticks, gap: Ticks)
        requires
            now + gap <= u64::MAX,
        ensures
            *final(self) == (Arrivals { next: Some((now + gap) as u64), ..*old(self) }),
    {
        self.next = Some(now + gap);
    }
}

/// Whether clock `k` holds the earliest send due by `t_end`, at `at`. Of clocks due at one
/// instant, the first is the earliest.
pub open spec fn is_earliest(clocks: Seq<Arrivals>, t_end: Ticks, k: int, at: Ticks) -> bool {
    &&& 0 <= k < clocks.len()
    &&& clocks[k].spec_due(t_end) == Some(at)
    &&& forall|j: int|
        0 <= j < clocks.len() ==> ((#[trigger] clocks[j]).spec_due(t_end) matches Some(other)
            ==> at < other || (at == other && k <= j))
}

/// Whether no clock has a send due by `t_end`.
pub open spec fn none_due(clocks: Seq<Arrivals>, t_end: Ticks) -> bool {
    forall|j: int| 0 <= j < clocks.len() ==> (#[trigger] clocks[j]).spec_due(t_end) is None
}

impl Arrivals {
    /// The earliest send due by `t_end` among `clocks`, and whose it is. A clock sending nothing drops
    /// out of the race.
    pub fn earliest(clocks: &Vec<Arrivals>, t_end: Ticks) -> (first: Option<(usize, Ticks)>)
        ensures
            match first {
                Some((k, at)) => is_earliest(clocks@, t_end, k as int, at),
                None => none_due(clocks@, t_end),
            },
    {
        let mut best: Option<(usize, Ticks)> = None;
        let mut k: usize = 0;
        while k < clocks.len()
            invariant
                k <= clocks@.len(),
                match best {
                    Some((b, at)) => b < k && is_earliest(clocks@.take(k as int), t_end, b as int, at),
                    None => none_due(clocks@.take(k as int), t_end),
                },
            decreases clocks@.len() - k,
        {
            let ghost seen = clocks@.take(k as int);
            let ghost next = clocks@.take(k + 1);
            proof {
                assert forall|j: int| 0 <= j < next.len() implies #[trigger] next[j] == (if j < k {
                    seen[j]
                } else {
                    clocks@[k as int]
                }) by {}
            }
            if let Some(at) = clocks[k].due(t_end) {
                let sooner: bool = match best {
                    Some((_, held)) => at < held,
                    None => true,
                };
                if sooner {
                    best = Some((k, at));
                }
            }
            k += 1;
        }
        assert(clocks@.take(k as int) =~= clocks@);
        best
    }
}

/// A clock that sends nothing, and a clock that is held, are never due.
pub proof fn a_silent_clock_is_never_due(clock: Arrivals, t_end: Ticks)
    requires
        clock.rate == 0 || clock.next is None,
    ensures
        clock.spec_due(t_end) is None,
{
}

/// Sends run in order: once the earliest has gone out and its clock has drawn its next gap, no
/// send still due is earlier.
pub proof fn sends_run_in_order(
    clocks: Seq<Arrivals>,
    t_end: Ticks,
    k: int,
    at: Ticks,
    gap: Ticks,
    k2: int,
    at2: Ticks,
)
    requires
        is_earliest(clocks, t_end, k, at),
        at + gap <= u64::MAX,
        is_earliest(
            clocks.update(k, Arrivals { next: Some((at + gap) as u64), ..clocks[k] }),
            t_end,
            k2,
            at2,
        ),
    ensures
        at <= at2,
{
    let after = clocks.update(k, Arrivals { next: Some((at + gap) as u64), ..clocks[k] });
    if k2 != k {
        assert(after[k2] == clocks[k2]);
    }
}

/// A clock's send is due once its leg's length before the landing has come, while it is sending at
/// all: the landing it holds, and no other.
pub proof fn a_send_is_due_a_leg_ahead(clock: Arrivals, t_end: Ticks)
    ensures
        clock.spec_due(t_end) is Some <==> clock.rate > 0 && (clock.next matches Some(at) && at
            <= t_end + 6_000_000_000),
        clock.spec_due(t_end) is Some ==> clock.spec_due(t_end) == clock.next,
{
}

/// Of the clocks that are due, the earliest is no later than any, and of those due at one instant
/// it is the first.
pub proof fn nobody_due_is_passed_over(clocks: Seq<Arrivals>, t_end: Ticks, k: int, at: Ticks, j: int)
    requires
        is_earliest(clocks, t_end, k, at),
        0 <= j < clocks.len(),
        clocks[j].spec_due(t_end) is Some,
    ensures
        clocks[k].next == Some(at),
        at <= clocks[j].next->0,
        j < k ==> at < clocks[j].next->0,
{
    assert(clocks[j].spec_due(t_end) is Some);
}

} // verus!
