//! Virtual time, as the runtime counts it.
//!
//! One virtual millisecond is one runtime second, and the runtime counts nanoseconds, so a
//! virtual millisecond is [`MS`] ticks. Every instant and every span is a whole number of
//! them.

use vstd::prelude::*;

verus! {

/// An instant since the world opened, or a span between two instants.
pub type Ticks = u64;

/// Ticks in one virtual millisecond.
pub const MS: u64 = 1_000_000_000;

/// The queue's shed deadline, in virtual milliseconds.
pub const TIMEOUT_MS: u64 = 100;

/// The accept burst: the virtual milliseconds of CPU a worker spends on a fresh connection
/// before the request reaches the admission queue.
pub const ACCEPT_CPU_MS: u64 = 1;

/// Round trip between a client and the fleet: one region-to-region hop.
pub const RTT_MS: u64 = 12;

/// One-way travel: half the round trip.
pub const NET_MS: u64 = 6;

/// What a client pays before its first byte reaches a machine it has not met: a TCP
/// handshake and a full TLS handshake, a round trip each.
pub const HANDSHAKE_MS: u64 = 24;

/// One CPU burst of a hung handler, which runs these back to back and never frees its worker.
pub const HANG_BURST_MS: u64 = 55;

/// The trailing window the OS reading averages over.
pub const OS_CPU_WINDOW_MS: u64 = 3000;

/// How often the OS reading is taken.
pub const OS_CPU_REFRESH_MS: u64 = 100;

/// The window the rate readouts average over.
pub const RATE_WINDOW_MS: u64 = 5000;

/// A network leg is half a round trip, and a handshake is two of them.
pub proof fn the_legs_make_the_round_trip()
    ensures
        2 * NET_MS == RTT_MS,
        HANDSHAKE_MS == 2 * RTT_MS,
{
}

/// How much of something timed has passed: `done` ticks of `of`. The fraction is `done / of`,
/// and one where `of` is zero.
#[derive(Clone, Copy, PartialEq, Eq, Structural, Debug)]
pub struct Part {
    pub done: Ticks,
    pub of: Ticks,
}

/// Nothing of it has passed yet.
pub open spec fn part_none() -> Part {
    Part { done: 0, of: 1 }
}

impl Part {
    /// Never more than the whole.
    pub open spec fn wf(self) -> bool {
        self.done <= self.of
    }

    /// Nothing of it has passed yet.
    pub fn none() -> (p: Part)
        ensures
            p == part_none(),
    {
        Part { done: 0, of: 1 }
    }

    /// How much of a span of `of` ticks opened at `since` has passed by `now`.
    pub open spec fn spec_of(since: Ticks, of: Ticks, now: Ticks) -> Part {
        Part {
            done: if now <= since {
                0
            } else if now - since >= of {
                of
            } else {
                (now - since) as u64
            },
            of,
        }
    }

    /// How much of a span of `of` ticks opened at `since` has passed by `now`.
    pub fn of(since: Ticks, of: Ticks, now: Ticks) -> (p: Part)
        ensures
            p == Part::spec_of(since, of, now),
            p.wf(),
    {
        let gone: u64 = now.saturating_sub(since);
        Part { done: if gone < of { gone } else { of }, of }
    }
}

/// Where the world was last reported settled, and where the running frame ends; nowhere before the
/// first of each.
#[derive(Clone, Copy, PartialEq, Eq, Structural, Debug)]
pub struct Marks {
    pub reported: Option<Ticks>,
    pub end: Option<Ticks>,
}

impl Marks {
    /// Whether a world with nothing left to run at `now` is reported settled: at an instant not
    /// yet reported, and at the frame's end or past it always.
    pub open spec fn reports(self, now: Ticks) -> bool {
        (self.end matches Some(end) && now >= end) || self.reported != Some(now)
    }

    /// A world that has not opened.
    pub fn new() -> (m: Marks)
        ensures
            m == (Marks { reported: None, end: None }),
    {
        Marks { reported: None, end: None }
    }

    /// A frame is to run to `end`.
    pub fn run_to(&mut self, end: Ticks)
        ensures
            *final(self) == (Marks { end: Some(end), ..*old(self) }),
    {
        self.end = Some(end);
    }

    /// Nothing is left to run at `now`: whether that is reported, or the clock let move on.
    pub fn park(&mut self, now: Ticks) -> (report: bool)
        ensures
            report == old(self).reports(now),
            *final(self) == (if report {
                Marks { reported: Some(now), ..*old(self) }
            } else {
                *old(self)
            }),
    {
        let over: bool = match self.end {
            Some(end) => now >= end,
            None => false,
        };
        let seen: bool = match self.reported {
            Some(t) => t == now,
            None => false,
        };
        if over || !seen {
            self.reported = Some(now);
            true
        } else {
            false
        }
    }
}

/// An instant is reported once, however often the world settles in it; but once the end of the run
/// has come every settle is, so that nothing waits for one.
pub proof fn an_instant_is_reported_once(m: Marks, now: Ticks, later: Ticks)
    requires
        now < later,
    ensures
        ({
            let told = Marks { reported: Some(now), ..m };
            &&& m.end is None ==> !told.reports(now)
            &&& m.end matches Some(end) ==> (told.reports(now) <==> end <= now)
            &&& told.reports(later)
        }),
        m.reported is None ==> m.reports(now),
{
}

/// Nothing has been done of a part that has not begun.
pub proof fn a_part_begins_with_nothing_done()
    ensures
        part_none().done == 0,
        part_none().of > 0,
{
}

} // verus!
