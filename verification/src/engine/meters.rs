//! The trailing readings: what the rate readouts average, and what the OS would say of the
//! cores.

use std::collections::VecDeque;

use vstd::prelude::*;

use crate::engine::clock::{Ticks, MS, OS_CPU_WINDOW_MS, RATE_WINDOW_MS};
use crate::engine::sim::{Occupied, Sim, SimView};
use crate::engine::stack::CORES;

verus! {

// ----- rate windows ----------------------------------------------------------

/// Whether a stamp has fallen out of the rate window by `now`.
pub open spec fn stale(t: Ticks, now: Ticks) -> bool {
    now - t > RATE_WINDOW_MS * MS
}

/// The stamps left once every stale one at the front is dropped.
pub open spec fn trimmed(w: Seq<Ticks>, now: Ticks) -> Seq<Ticks>
    decreases w.len(),
{
    if w.len() > 0 && stale(w[0], now) {
        trimmed(w.drop_first(), now)
    } else {
        w
    }
}

/// Drop the stamps older than the window the rate readouts average over.
pub fn trim_window(w: &mut VecDeque<Ticks>, now: Ticks)
    ensures
        final(w)@ == trimmed(old(w)@, now),
{
    let ghost whole = w@;
    let window: u64 = RATE_WINDOW_MS * MS;
    loop
        invariant
            window == RATE_WINDOW_MS * MS,
            trimmed(w@, now) == trimmed(whole, now),
        ensures
            w@ == trimmed(whole, now),
        decreases w@.len(),
    {
        if w.len() == 0 || now.saturating_sub(w[0]) <= window {
            break;
        }
        let ghost before = w@;
        let _ = w.pop_front();
        assert(w@ =~= before.drop_first());
    }
}

/// Stamps in the order they were made.
pub open spec fn in_order(w: Seq<Ticks>) -> bool {
    forall|i: int, j: int| 0 <= i <= j < w.len() ==> w[i] <= w[j]
}

/// Of stamps kept in order, trimming keeps exactly the ones inside the window: it drops nothing
/// fresh, and leaves nothing stale.
pub proof fn trimming_keeps_the_window(w: Seq<Ticks>, now: Ticks)
    requires
        in_order(w),
    ensures
        exists|k: int|
            0 <= k <= w.len() && trimmed(w, now) == #[trigger] w.skip(k) && (forall|i: int|
                0 <= i < k ==> stale(w[i], now)) && (forall|i: int|
                k <= i < w.len() ==> !stale(w[i], now)),
        in_order(trimmed(w, now)),
    decreases w.len(),
{
    if w.len() > 0 && stale(w[0], now) {
        let rest = w.drop_first();
        assert forall|i: int, j: int| 0 <= i <= j < rest.len() implies rest[i] <= rest[j] by {
            assert(w[i + 1] <= w[j + 1]);
        }
        trimming_keeps_the_window(rest, now);
        let k = choose|k: int|
            0 <= k <= rest.len() && trimmed(rest, now) == #[trigger] rest.skip(k) && (forall|i: int|
                0 <= i < k ==> stale(rest[i], now)) && (forall|i: int|
                k <= i < rest.len() ==> !stale(rest[i], now));
        assert(rest.skip(k) =~= w.skip(k + 1));
        assert forall|i: int| 0 <= i < k + 1 implies stale(w[i], now) by {
            if i > 0 {
                assert(stale(rest[i - 1], now));
            }
        }
        assert forall|i: int| k + 1 <= i < w.len() implies !stale(w[i], now) by {
            assert(!stale(rest[i - 1], now));
        }
        assert(trimmed(w, now) == w.skip(k + 1));
    } else {
        assert(w.skip(0) =~= w);
        assert forall|i: int| 0 <= i < w.len() implies !stale(w[i], now) by {
            assert(w[0] <= w[i]);
        }
    }
}

// ----- core occupancy --------------------------------------------------------

/// Whether the reading at `t` was taken at or before the OS window opens, for a reading at `now`.
pub open spec fn before_window(t: Ticks, now: Ticks) -> bool {
    t <= now - OS_CPU_WINDOW_MS * MS
}

/// The readings left once the front ones are dropped, keeping one that straddles the window's
/// opening.
pub open spec fn straddled(u: Seq<Occupied>, now: Ticks) -> Seq<Occupied>
    decreases u.len(),
{
    if u.len() > 1 && before_window(u[1].t, now) {
        straddled(u.drop_first(), now)
    } else {
        u
    }
}

/// Occupancy readings, in the order they were taken and none past `now`, of cores there are.
pub open spec fn readable(u: Seq<Occupied>, now: Ticks) -> bool {
    &&& forall|i: int, j: int| 0 <= i <= j < u.len() ==> (#[trigger] u[i]).t <= (#[trigger] u[j]).t
    &&& forall|i: int| 0 <= i < u.len() ==> (#[trigger] u[i]).t <= now && u[i].busy <= CORES
}

/// When the window opens, for a reading at `now`: never before the world does.
pub open spec fn window_opens(now: Ticks) -> int {
    if now <= OS_CPU_WINDOW_MS * MS {
        0
    } else {
        now - OS_CPU_WINDOW_MS * MS
    }
}

/// When the occupancy of reading `i` ends: at the next reading, or now.
pub open spec fn reading_ends(u: Seq<Occupied>, i: int, now: Ticks) -> int {
    if i + 1 < u.len() {
        u[i + 1].t as int
    } else {
        now as int
    }
}

/// How long reading `i` held inside the window.
pub open spec fn held(u: Seq<Occupied>, i: int, now: Ticks) -> int {
    let from = if u[i].t as int >= window_opens(now) {
        u[i].t as int
    } else {
        window_opens(now)
    };
    let to = if reading_ends(u, i, now) <= now {
        reading_ends(u, i, now)
    } else {
        now as int
    };
    if to > from {
        to - from
    } else {
        0
    }
}

/// Busy core-time inside the window, over the first `n` readings.
pub open spec fn busy_time(u: Seq<Occupied>, n: int, now: Ticks) -> int
    decreases n,
{
    if n <= 0 {
        0
    } else {
        busy_time(u, n - 1, now) + u[n - 1].busy * held(u, n - 1, now)
    }
}

impl SimView {
    /// The occupancy recorded at `now`, where it changed.
    pub open spec fn sampled(self, now: Ticks) -> SimView {
        if self.util_samples.len() > 0 && self.util_samples.last().busy == self.cpu.len() {
            self
        } else {
            SimView {
                util_samples: straddled(
                    self.util_samples.push(Occupied { t: now, busy: self.cpu.len() as usize }),
                    now,
                ),
                ..self
            }
        }
    }
}

impl Sim {
    /// Record the current occupancy and trim the window. Occupancy is constant between events,
    /// so sampling at each one makes the history exact.
    pub fn util_sample(&mut self, now: Ticks)
        ensures
            final(self)@ == old(self)@.sampled(now),
    {
        let n: usize = self.util_samples.len();
        if n > 0 && self.util_samples[n - 1].busy == self.cpu.len() {
            return;
        }
        self.util_samples.push_back(Occupied { t: now, busy: self.cpu.len() });
        let ghost whole = self.util_samples@;
        let ghost rest = self@;
        let window: u64 = OS_CPU_WINDOW_MS * MS;
        loop
            invariant
                window == OS_CPU_WINDOW_MS * MS,
                straddled(self.util_samples@, now) == straddled(whole, now),
                self@ == (SimView { util_samples: self.util_samples@, ..rest }),
            ensures
                self.util_samples@ == straddled(whole, now),
                self@ == (SimView { util_samples: self.util_samples@, ..rest }),
            decreases self.util_samples@.len(),
        {
            if self.util_samples.len() <= 1 || now < window || self.util_samples[1].t > now - window {
                break;
            }
            let ghost before = self.util_samples@;
            let _ = self.util_samples.pop_front();
            assert(self.util_samples@ =~= before.drop_first());
        }
    }

    /// The trailing-window CPU reading: busy core-time over the last [`OS_CPU_WINDOW_MS`], of
    /// the [`CORES`] cores' worth there is. A history shorter than the window reads low.
    pub fn os_cpu_busy(&self, now: Ticks) -> (busy: u64)
        requires
            readable(self@.util_samples, now),
        ensures
            busy == busy_time(self@.util_samples, self@.util_samples.len() as int, now),
            busy <= CORES * OS_CPU_WINDOW_MS * MS,
    {
        let window: u64 = OS_CPU_WINDOW_MS * MS;
        let start: u64 = now.saturating_sub(window);
        let n: usize = self.util_samples.len();
        let mut busy: u64 = 0;
        let mut i: usize = 0;
        proof {
            busy_time_is_bounded(self.util_samples@, 0, now);
        }
        while i < n
            invariant
                i <= n,
                n == self.util_samples@.len(),
                start == window_opens(now),
                readable(self.util_samples@, now),
                busy == busy_time(self.util_samples@, i as int, now),
                busy <= CORES * OS_CPU_WINDOW_MS * MS,
            decreases n - i,
        {
            let at: Occupied = self.util_samples[i];
            let end: u64 = if i + 1 < n {
                self.util_samples[i + 1].t
            } else {
                now
            };
            let a: u64 = if at.t >= start {
                at.t
            } else {
                start
            };
            let b: u64 = if end <= now {
                end
            } else {
                now
            };
            let ghost u = self.util_samples@;
            proof {
                busy_time_is_bounded(u, i + 1, now);
                assert(u[i as int] == at);
                assert(busy_time(u, i + 1, now) == busy_time(u, i as int, now) + at.busy * held(
                    u,
                    i as int,
                    now,
                ));
            }
            if b > a {
                proof {
                    assert(held(u, i as int, now) == b - a);
                    assert(0 <= at.busy * (b - a) <= busy_time(u, i + 1, now)) by {
                        assert(at.busy * (b - a) >= 0) by (nonlinear_arith)
                            requires
                                at.busy >= 0,
                                b > a,
                        ;
                    }
                }
                busy = busy + (at.busy as u64) * (b - a);
            } else {
                assert(at.busy * held(u, i as int, now) == 0) by (nonlinear_arith)
                    requires
                        held(u, i as int, now) == 0,
                ;
            }
            i += 1;
        }
        busy
    }
}

/// Where reading `n`'s stretch of the window begins, or the window's end where there is none.
spec fn reached(u: Seq<Occupied>, n: int, now: Ticks) -> int {
    let t = if n < u.len() {
        u[n].t as int
    } else {
        now as int
    };
    if t >= window_opens(now) {
        t
    } else {
        window_opens(now)
    }
}

proof fn busy_time_is_bounded(u: Seq<Occupied>, n: int, now: Ticks)
    requires
        readable(u, now),
        0 <= n <= u.len(),
    ensures
        0 <= busy_time(u, n, now),
        n == 0 || busy_time(u, n, now) <= CORES * (reached(u, n, now) - window_opens(now)),
        busy_time(u, n, now) <= CORES * OS_CPU_WINDOW_MS * MS,
    decreases n,
{
    if n > 0 {
        busy_time_is_bounded(u, n - 1, now);
        let h = held(u, n - 1, now);
        let opens = window_opens(now);
        let before = reached(u, n - 1, now);
        let after = reached(u, n, now);
        assert(u[n - 1].t <= now);
        if n < u.len() {
            assert(u[n - 1].t <= u[n].t);
            assert(u[n].t <= now);
        }
        assert(h <= after - before);
        let busy = u[n - 1].busy as int;
        assert(busy <= CORES);
        assert(0 <= busy * h <= 8 * h) by (nonlinear_arith)
            requires
                0 <= busy <= 8,
                0 <= h,
        ;
        assert(after <= now);
        assert(busy_time(u, n - 1, now) <= 8 * (before - opens));
    }
}

/// Sampling keeps the history readable: in order, none of it ahead of the clock.
pub proof fn sampling_keeps_the_history_readable(s: SimView, then: Ticks, now: Ticks)
    requires
        readable(s.util_samples, then),
        then <= now,
        s.cpu.len() <= CORES,
    ensures
        readable(s.sampled(now).util_samples, now),
{
    let pushed = s.util_samples.push(Occupied { t: now, busy: s.cpu.len() as usize });
    assert forall|i: int, j: int| 0 <= i <= j < pushed.len() implies (#[trigger] pushed[i]).t
        <= (#[trigger] pushed[j]).t by {
        if j < s.util_samples.len() {
            assert(s.util_samples[i].t <= s.util_samples[j].t);
        } else if i < s.util_samples.len() {
            assert(s.util_samples[i].t <= then);
        }
    }
    straddling_keeps_the_history_readable(pushed, now);
}

proof fn straddling_keeps_the_history_readable(u: Seq<Occupied>, now: Ticks)
    requires
        readable(u, now),
    ensures
        readable(straddled(u, now), now),
    decreases u.len(),
{
    if u.len() > 1 && before_window(u[1].t, now) {
        let rest = u.drop_first();
        assert forall|i: int, j: int| 0 <= i <= j < rest.len() implies (#[trigger] rest[i]).t
            <= (#[trigger] rest[j]).t by {
            assert(u[i + 1].t <= u[j + 1].t);
        }
        assert forall|i: int| 0 <= i < rest.len() implies (#[trigger] rest[i]).t <= now
            && rest[i].busy <= CORES by {
            assert(u[i + 1].t <= now);
        }
        straddling_keeps_the_history_readable(rest, now);
    }
}

/// Dropping a reading that ended before the window opened does not change what the window says.
pub proof fn trimming_the_history_changes_no_reading(u: Seq<Occupied>, now: Ticks)
    requires
        readable(u, now),
    ensures
        busy_time(straddled(u, now), straddled(u, now).len() as int, now) == busy_time(
            u,
            u.len() as int,
            now,
        ),
    decreases u.len(),
{
    if u.len() > 1 && before_window(u[1].t, now) {
        let rest = u.drop_first();
        assert forall|i: int, j: int| 0 <= i <= j < rest.len() implies (#[trigger] rest[i]).t
            <= (#[trigger] rest[j]).t by {
            assert(u[i + 1].t <= u[j + 1].t);
        }
        assert forall|i: int| 0 <= i < rest.len() implies (#[trigger] rest[i]).t <= now
            && rest[i].busy <= CORES by {
            assert(u[i + 1].t <= now);
        }
        trimming_the_history_changes_no_reading(rest, now);
        busy_time_shifts(u, rest.len() as int, now);
        assert(held(u, 0, now) == 0);
        assert(busy_time(u, 1, now) == busy_time(u, 0, now) + u[0].busy * held(u, 0, now));
        assert(u[0].busy * held(u, 0, now) == 0) by (nonlinear_arith)
            requires
                held(u, 0, now) == 0,
        ;
    }
}

proof fn busy_time_shifts(u: Seq<Occupied>, n: int, now: Ticks)
    requires
        u.len() > 0,
        0 <= n <= u.len() - 1,
    ensures
        busy_time(u, n + 1, now) == busy_time(u, 1, now) + busy_time(u.drop_first(), n, now),
    decreases n,
{
    if n > 0 {
        busy_time_shifts(u, n - 1, now);
        let rest = u.drop_first();
        assert(rest[n - 1] == u[n]);
        assert(reading_ends(rest, n - 1, now) == reading_ends(u, n, now));
        assert(held(rest, n - 1, now) == held(u, n, now));
    }
}

/// A stamp leaves the rate readouts five seconds after it was made, and not before.
pub proof fn the_rates_are_over_five_seconds(t: Ticks, now: Ticks)
    ensures
        stale(t, now) <==> now - t > 5_000_000_000_000,
{
}

/// How many cores were busy at an instant: what the last reading at or before it found.
pub open spec fn busy_at(u: Seq<Occupied>, t: int) -> int
    decreases u.len(),
{
    if u.len() == 0 {
        0
    } else if u.last().t <= t {
        u.last().busy as int
    } else {
        busy_at(u.drop_last(), t)
    }
}

/// The cores busy at each tick from `from` up to `to`, added up.
pub open spec fn area(u: Seq<Occupied>, from: int, to: int) -> int
    decreases to - from,
{
    if to <= from {
        0
    } else {
        area(u, from, to - 1) + busy_at(u, to - 1)
    }
}

proof fn a_reading_holds_to_the_next(u: Seq<Occupied>, now: Ticks, i: int, t: int)
    requires
        readable(u, now),
        0 <= i < u.len(),
        u[i].t <= t,
        i + 1 < u.len() ==> t < u[i + 1].t,
    ensures
        busy_at(u, t) == u[i].busy,
    decreases u.len(),
{
    if i + 1 < u.len() {
        let front = u.drop_last();
        assert(u[i + 1].t <= u[u.len() - 1].t);
        assert forall|a: int, b: int| 0 <= a <= b < front.len() implies (#[trigger] front[a]).t <= (
        #[trigger] front[b]).t by {
            assert(u[a].t <= u[b].t);
        }
        assert forall|a: int| 0 <= a < front.len() implies (#[trigger] front[a]).t <= now
            && front[a].busy <= CORES by {
            assert(u[a].t <= now);
        }
        a_reading_holds_to_the_next(front, now, i, t);
    }
}

proof fn nothing_is_busy_before_the_first(u: Seq<Occupied>, now: Ticks, t: int)
    requires
        readable(u, now),
        u.len() > 0 ==> t < u[0].t,
    ensures
        busy_at(u, t) == 0,
    decreases u.len(),
{
    if u.len() > 0 {
        let front = u.drop_last();
        assert(u[0].t <= u[u.len() - 1].t);
        assert forall|a: int, b: int| 0 <= a <= b < front.len() implies (#[trigger] front[a]).t <= (
        #[trigger] front[b]).t by {
            assert(u[a].t <= u[b].t);
        }
        assert forall|a: int| 0 <= a < front.len() implies (#[trigger] front[a]).t <= now
            && front[a].busy <= CORES by {
            assert(u[a].t <= now);
        }
        nothing_is_busy_before_the_first(front, now, t);
    }
}

proof fn a_steady_stretch_adds_up(u: Seq<Occupied>, from: int, mid: int, to: int, busy: int)
    requires
        from <= mid <= to,
        forall|t: int| mid <= t < to ==> #[trigger] busy_at(u, t) == busy,
    ensures
        area(u, from, to) == area(u, from, mid) + busy * (to - mid),
    decreases to - mid,
{
    if mid < to {
        a_steady_stretch_adds_up(u, from, mid, to - 1, busy);
        assert(busy_at(u, to - 1) == busy);
        assert(busy * (to - mid) == busy * (to - 1 - mid) + busy) by (nonlinear_arith);
    } else {
        assert(busy * (to - mid) == 0) by (nonlinear_arith)
            requires
                to == mid,
        ;
    }
}

proof fn busy_time_reaches(u: Seq<Occupied>, n: int, now: Ticks)
    requires
        readable(u, now),
        0 <= n <= u.len(),
    ensures
        n > 0 || u.len() > 0 ==> busy_time(u, n, now) == area(
            u,
            window_opens(now),
            reached(u, n, now),
        ),
        u.len() == 0 ==> busy_time(u, n, now) == 0,
    decreases n,
{
    let opens = window_opens(now);
    if n == 0 {
        if u.len() > 0 {
            assert forall|t: int| opens <= t < reached(u, 0, now) implies #[trigger] busy_at(u, t)
                == 0 by {
                nothing_is_busy_before_the_first(u, now, t);
            }
            a_steady_stretch_adds_up(u, opens, opens, reached(u, 0, now), 0);
        }
    } else {
        busy_time_reaches(u, n - 1, now);
        let (a, b) = (reached(u, n - 1, now), reached(u, n, now));
        let busy = u[n - 1].busy as int;
        assert(u[n - 1].t <= now);
        if n < u.len() {
            assert(u[n - 1].t <= u[n].t);
            assert(u[n].t <= now);
        }
        assert forall|t: int| a <= t < b implies #[trigger] busy_at(u, t) == busy by {
            a_reading_holds_to_the_next(u, now, n - 1, t);
        }
        assert(held(u, n - 1, now) == b - a);
        a_steady_stretch_adds_up(u, opens, a, b, busy);
    }
}

/// What the OS would say of the cores is how many were busy at every instant of the last three
/// seconds, added up: the reading is the area under the occupancy.
pub proof fn the_os_reading_is_the_area_under_the_occupancy(u: Seq<Occupied>, now: Ticks)
    requires
        readable(u, now),
    ensures
        busy_time(u, u.len() as int, now) == area(
            u,
            if now <= 3_000_000_000_000 {
                0
            } else {
                now - 3_000_000_000_000
            },
            now as int,
        ),
{
    busy_time_reaches(u, u.len() as int, now);
    if u.len() == 0 {
        assert forall|t: int| window_opens(now) <= t < now implies #[trigger] busy_at(u, t) == 0 by {
        }
        a_steady_stretch_adds_up(u, window_opens(now), window_opens(now), now as int, 0);
    }
}

proof fn the_front_reading_is_past(u: Seq<Occupied>, t: int)
    requires
        u.len() > 1,
        u[1].t <= t,
        forall|i: int, j: int|
            0 <= i <= j < u.len() ==> (#[trigger] u[i]).t <= (#[trigger] u[j]).t,
    ensures
        busy_at(u.drop_first(), t) == busy_at(u, t),
    decreases u.len(),
{
    let rest = u.drop_first();
    if u.last().t <= t {
        assert(rest.last() == u.last());
    } else {
        assert(u.len() > 2);
        let front = u.drop_last();
        assert forall|i: int, j: int| 0 <= i <= j < front.len() implies (#[trigger] front[i]).t <= (
        #[trigger] front[j]).t by {
            assert(u[i].t <= u[j].t);
        }
        the_front_reading_is_past(front, t);
        assert(rest.drop_last() =~= front.drop_first());
        assert(rest.last() == u.last());
    }
}

proof fn straddling_loses_nothing(u: Seq<Occupied>, now: Ticks, t: int)
    requires
        now - 3_000_000_000_000 <= t,
        forall|i: int, j: int|
            0 <= i <= j < u.len() ==> (#[trigger] u[i]).t <= (#[trigger] u[j]).t,
    ensures
        busy_at(straddled(u, now), t) == busy_at(u, t),
        u.len() > 0 ==> straddled(u, now).len() > 0 && straddled(u, now).last() == u.last(),
    decreases u.len(),
{
    if u.len() > 1 && before_window(u[1].t, now) {
        let rest = u.drop_first();
        assert forall|i: int, j: int| 0 <= i <= j < rest.len() implies (#[trigger] rest[i]).t <= (
        #[trigger] rest[j]).t by {
            assert(u[i + 1].t <= u[j + 1].t);
        }
        the_front_reading_is_past(u, t);
        straddling_loses_nothing(rest, now, t);
    }
}

/// A reading taken is the occupancy from then on, and changes nothing of what was known of the
/// window before it: what is dropped is only what the window has left behind.
pub proof fn a_reading_is_the_occupancy_from_then_on(v: SimView, now: Ticks, t: int)
    requires
        readable(v.util_samples, now),
        now - 3_000_000_000_000 <= t,
        v.cpu.len() <= CORES,
    ensures
        t < now ==> busy_at(v.sampled(now).util_samples, t) == busy_at(v.util_samples, t),
        t >= now ==> busy_at(v.sampled(now).util_samples, t) == v.cpu.len(),
        v.sampled(now).cpu == v.cpu && v.sampled(now).stats == v.stats && v.sampled(now).hops
            == v.hops,
{
    let u = v.util_samples;
    if u.len() > 0 && u.last().busy == v.cpu.len() {
        if t >= now {
            assert(u[u.len() - 1].t <= now);
        }
    } else {
        let more = u.push(Occupied { t: now, busy: v.cpu.len() as usize });
        assert forall|i: int, j: int| 0 <= i <= j < more.len() implies (#[trigger] more[i]).t <= (
        #[trigger] more[j]).t by {
            if j < u.len() {
                assert(u[i].t <= u[j].t);
            } else if i < u.len() {
                assert(u[i].t <= now);
            }
        }
        straddling_loses_nothing(more, now, t);
        assert(more.drop_last() =~= u);
    }
}

} // verus!
