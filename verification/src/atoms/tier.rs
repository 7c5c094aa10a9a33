//! One tier of lanes: every wire of one leg family, seated as traffic arrives.

use vstd::prelude::*;

use crate::atoms::lanes::{
    a_frame_merges_one_way, merged, merges, seat, seat_of, Bucket, Ink, Key, Launch, AFTERGLOW,
    LONGEST_LEG, QUIET, SLOTS, STAT, WAVE,
};

verus! {

/// One launched pulse: what it carries, how many rode it, when it left, and its two edges'
/// lengths, all in wall microseconds.
#[derive(Clone, Copy, PartialEq, Eq, Structural, Debug)]
pub struct Slot {
    pub ink: Ink,
    pub count: usize,
    pub at: u64,
    pub front: u64,
    pub back: u64,
}

impl Slot {
    /// When the back edge clears the far end, in twenty-fifths of a microsecond: the tail is a
    /// twenty-fifth of the wire.
    pub open spec fn ends(self) -> int {
        25 * self.at + 26 * self.back
    }

    /// Whether the pulse is still to be seen.
    pub open spec fn lit(self, wall: u64) -> bool {
        self.ends() > 25 * wall
    }

    fn ends_at(&self) -> (t: u128)
        ensures
            t == self.ends(),
    {
        25u128 * self.at as u128 + 26u128 * self.back as u128
    }

    fn is_lit(&self, wall: u64) -> (b: bool)
        ensures
            b == self.lit(wall),
    {
        self.ends_at() > 25u128 * wall as u128
    }
}

/// One wire's traffic: the pulses each way, and the carrier wave's phase and the smoothed rate
/// that drives it.
pub struct SeatState {
    pub out: Vec<Option<Slot>>,
    pub home: Vec<Option<Slot>>,
    /// How far the wave has run into its length, in millionths of a pixel.
    pub wave: u128,
    /// Millionths of a request a second.
    pub rate: u128,
    pub sends: u64,
}

#[verifier::ext_equal]
pub struct SeatView {
    pub out: Seq<Option<Slot>>,
    pub home: Seq<Option<Slot>>,
    pub wave: u128,
    pub rate: u128,
    pub sends: u64,
}

impl View for SeatState {
    type V = SeatView;

    open spec fn view(&self) -> SeatView {
        SeatView {
            out: self.out@,
            home: self.home@,
            wave: self.wave,
            rate: self.rate,
            sends: self.sends,
        }
    }
}

/// The fastest a wire's rate can read: every send there could be, over the shortest stretch.
pub const TOP_RATE: u128 = 0x1E_8480_0000_0000_0000_0000;

impl SeatView {
    pub open spec fn wf(self) -> bool {
        &&& self.out.len() == SLOTS
        &&& self.home.len() == SLOTS
        &&& self.wave < WAVE
        &&& self.rate <= TOP_RATE
    }

    /// Whether anything is still in the air on this wire.
    pub open spec fn carrying(self, wall: u64) -> bool {
        ||| exists|i: int|
            0 <= i < self.out.len() && ((#[trigger] self.out[i]) matches Some(s) && s.lit(wall))
        ||| exists|i: int|
            0 <= i < self.home.len() && ((#[trigger] self.home[i]) matches Some(s) && s.lit(wall))
    }
}

/// Whether a slot is free: never used, or no longer to be seen.
pub open spec fn is_free(slot: Option<Slot>, wall: u64) -> bool {
    slot matches Some(s) ==> !s.lit(wall)
}

/// The first free slot from place `k` on.
pub open spec fn free_at(slots: Seq<Option<Slot>>, wall: u64, k: int) -> Option<int>
    decreases slots.len() - k,
{
    if k >= slots.len() {
        None
    } else if is_free(slots[k], wall) {
        Some(k)
    } else {
        free_at(slots, wall, k + 1)
    }
}

/// When a slot is over; an unused one always was.
pub open spec fn over(slot: Option<Slot>) -> int {
    match slot {
        Some(s) => s.ends(),
        None => -1,
    }
}

/// The slot among the first `n` whose afterglow is furthest gone, the first of them where two are
/// level.
pub open spec fn oldest_of(slots: Seq<Option<Slot>>, n: int) -> int
    decreases n,
{
    if n <= 1 {
        0
    } else {
        let best = oldest_of(slots, n - 1);
        if over(slots[n - 1]) < over(slots[best]) {
            n - 1
        } else {
            best
        }
    }
}

/// The slot a new pulse takes: a free one, or the one furthest gone.
pub open spec fn slot_for(slots: Seq<Option<Slot>>, wall: u64) -> int {
    match free_at(slots, wall, 0) {
        Some(k) => k,
        None => oldest_of(slots, slots.len() as int),
    }
}

/// The slot whose afterglow is furthest gone.
fn oldest(slots: &Vec<Option<Slot>>) -> (at: usize)
    requires
        slots@.len() > 0,
    ensures
        at == oldest_of(slots@, slots@.len() as int),
        at < slots@.len(),
{
    let mut at: usize = 0;
    let mut i: usize = 1;
    while i < slots.len()
        invariant
            1 <= i <= slots@.len(),
            at == oldest_of(slots@, i as int),
            at < i,
        decreases slots@.len() - i,
    {
        let sooner: bool = match (slots[i], slots[at]) {
            (Some(a), Some(b)) => a.ends_at() < b.ends_at(),
            (None, Some(_)) => true,
            (_, None) => false,
        };
        if sooner {
            at = i;
        }
        i += 1;
    }
    at
}

/// The slot a new pulse takes.
fn slot_in(slots: &Vec<Option<Slot>>, wall: u64) -> (at: usize)
    requires
        slots@.len() > 0,
    ensures
        at == slot_for(slots@, wall),
        at < slots@.len(),
{
    let mut i: usize = 0;
    while i < slots.len()
        invariant
            i <= slots@.len(),
            free_at(slots@, wall, 0) == free_at(slots@, wall, i as int),
        decreases slots@.len() - i,
    {
        let free: bool = match slots[i] {
            Some(s) => !s.is_lit(wall),
            None => true,
        };
        if free {
            return i;
        }
        i += 1;
    }
    oldest(slots)
}

/// Whether any of a lane's pulses is still to be seen.
fn any_lit(slots: &Vec<Option<Slot>>, wall: u64) -> (b: bool)
    ensures
        b == exists|i: int|
            0 <= i < slots@.len() && ((#[trigger] slots@[i]) matches Some(s) && s.lit(wall)),
{
    let mut i: usize = 0;
    while i < slots.len()
        invariant
            i <= slots@.len(),
            forall|j: int|
                0 <= j < i ==> !((#[trigger] slots@[j]) matches Some(s) && s.lit(wall)),
        decreases slots@.len() - i,
    {
        if let Some(s) = slots[i] {
            if s.is_lit(wall) {
                assert(slots@[i as int] matches Some(s) && s.lit(wall));
                return true;
            }
        }
        i += 1;
    }
    false
}

impl SeatState {
    fn is_carrying(&self, wall: u64) -> (b: bool)
        ensures
            b == self@.carrying(wall),
    {
        any_lit(&self.out, wall) || any_lit(&self.home, wall)
    }
}

pub struct LaneTier {
    /// The front edge's length on the engine's clock, in microseconds.
    pub leg: u64,
    pub seats: Vec<Option<Key>>,
    pub state: Vec<SeatState>,
    pub wall: u64,
    pub since_stat: u64,
    /// The engine's clock against the reader's, in millionths.
    pub speed: u64,
}

#[verifier::ext_equal]
pub struct TierView {
    pub leg: u64,
    pub seats: Seq<Option<Key>>,
    pub state: Seq<SeatView>,
    pub wall: u64,
    pub since_stat: u64,
    pub speed: u64,
}

impl View for LaneTier {
    type V = TierView;

    open spec fn view(&self) -> TierView {
        TierView {
            leg: self.leg,
            seats: self.seats@,
            state: self.state@.map_values(|s: SeatState| s@),
            wall: self.wall,
            since_stat: self.since_stat,
            speed: self.speed,
        }
    }
}

impl TierView {
    pub open spec fn wf(self) -> bool {
        &&& self.seats.len() == self.state.len()
        &&& self.leg <= LONGEST_LEG
        &&& self.since_stat < STAT
        &&& forall|i: int| 0 <= i < self.state.len() ==> (#[trigger] self.state[i]).wf()
    }

    /// Whether anything is still in the air.
    pub open spec fn airborne(self) -> bool {
        exists|i: int| 0 <= i < self.state.len() && (#[trigger] self.state[i]).carrying(self.wall)
    }
}

/// The front edge's length on the reader's clock: never no time at all.
pub open spec fn front_of(leg: u64, speed: u64) -> int {
    let whole = leg * 1_000_000 / if speed == 0 {
        1
    } else {
        speed as int
    };
    if whole > 0 {
        whole
    } else {
        1
    }
}

/// The back edge's length: the afterglow, or the front where slow motion makes that longer.
pub open spec fn back_of(leg: u64, speed: u64) -> int {
    if front_of(leg, speed) > AFTERGLOW {
        front_of(leg, speed)
    } else {
        AFTERGLOW as int
    }
}

/// What there is room to count.
pub open spec fn saturating(a: u64, b: int) -> u64 {
    if a + b <= u64::MAX {
        (a + b) as u64
    } else {
        u64::MAX
    }
}

/// One bucket launched: its wire seated where there is a seat, and one pulse more on it.
pub open spec fn launched_one(t: TierView, b: Bucket) -> TierView {
    let key = (b.launch.from, b.launch.to);
    match seat_of(t.seats, key) {
        None => t,
        Some(at) => {
            let s = t.state[at];
            let pulse = Some(
                Slot {
                    ink: b.launch.ink,
                    count: b.count,
                    at: t.wall,
                    front: front_of(t.leg, t.speed) as u64,
                    back: back_of(t.leg, t.speed) as u64,
                },
            );
            TierView {
                seats: t.seats.update(at, Some(key)),
                state: t.state.update(
                    at,
                    SeatView {
                        out: if b.launch.homeward {
                            s.out
                        } else {
                            s.out.update(slot_for(s.out, t.wall), pulse)
                        },
                        home: if b.launch.homeward {
                            s.home.update(slot_for(s.home, t.wall), pulse)
                        } else {
                            s.home
                        },
                        sends: saturating(s.sends, b.count as int),
                        ..s
                    },
                ),
                ..t
            }
        },
    }
}

/// The first `n` buckets launched.
pub open spec fn launched(t: TierView, buckets: Seq<Bucket>, n: int) -> TierView
    decreases n,
{
    if n <= 0 {
        t
    } else {
        launched_one(launched(t, buckets, n - 1), buckets[n - 1])
    }
}

/// A wire's rate after a stretch of `since` microseconds: half way from where it was to what it
/// sent, and none at all once it is quiet.
pub open spec fn smoothed(rate: u128, sends: u64, since: u64) -> u128 {
    let fresh = sends * 1_000_000_000_000 / since as int;
    let next = (rate + fresh) / 2;
    if next < QUIET {
        0
    } else {
        next as u128
    }
}

/// How far a wave at this rate runs in `dt`: a crest to ninety requests.
pub open spec fn runs(rate: u128, dt: u64) -> int {
    rate * dt * 16 / 9_000_000
}

/// One wire at a frame's end: its rate re-smoothed where that is due, and its wave moved on.
pub open spec fn aged(s: SeatView, cut: bool, since: u64, dt: u64, wall: u64) -> SeatView {
    let s = if cut {
        SeatView { rate: smoothed(s.rate, s.sends, since), sends: 0, ..s }
    } else {
        s
    };
    if s.rate == 0 && !s.carrying(wall) {
        s
    } else {
        SeatView { wave: ((s.wave + runs(s.rate, dt)) % (WAVE as int)) as u128, ..s }
    }
}

/// Whether a wire has gone quiet and its last afterglow decayed.
pub open spec fn done(s: SeatView, cut: bool, since: u64, wall: u64) -> bool {
    let rate = if cut {
        smoothed(s.rate, s.sends, since)
    } else {
        s.rate
    };
    rate == 0 && !s.carrying(wall)
}

/// Every seated wire at a frame's end; one that has gone quiet gives up its seat.
pub open spec fn settled(t: TierView, dt: u64) -> TierView {
    let since = (t.since_stat + dt) as u64;
    let cut = t.since_stat + dt >= STAT;
    TierView {
        seats: Seq::new(
            t.seats.len(),
            |i: int|
                if t.seats[i] is Some && done(t.state[i], cut, since, t.wall) {
                    None
                } else {
                    t.seats[i]
                },
        ),
        state: Seq::new(
            t.state.len(),
            |i: int|
                if t.seats[i] is Some {
                    aged(t.state[i], cut, since, dt, t.wall)
                } else {
                    t.state[i]
                },
        ),
        since_stat: if cut {
            0
        } else {
            since
        },
        ..t
    }
}

/// A frame: the clock moved on, the departures launched, and everything settled.
pub open spec fn framed(t: TierView, buckets: Seq<Bucket>, dt: u64, speed: u64) -> TierView {
    settled(
        launched(
            TierView { wall: (t.wall + dt) as u64, speed, ..t },
            buckets,
            buckets.len() as int,
        ),
        dt,
    )
}

/// Whether a frame is these departures merged and launched.
pub open spec fn frames(t: TierView, launches: Seq<Launch>, dt: u64, speed: u64, after: TierView) -> bool {
    exists|buckets: Seq<Bucket>| #[trigger]
        merges(launches, buckets) && after == framed(t, buckets, dt, speed)
}

/// A frame comes out one way: the same tier and the same departures leave the same tier, however
/// the departures were merged.
pub proof fn a_frame_comes_out_one_way(
    t: TierView,
    launches: Seq<Launch>,
    dt: u64,
    speed: u64,
    a: TierView,
    b: TierView,
)
    requires
        frames(t, launches, dt, speed, a),
        frames(t, launches, dt, speed, b),
    ensures
        a == b,
{
    let x = choose|x: Seq<Bucket>| #[trigger]
        merges(launches, x) && a == framed(t, x, dt, speed);
    let y = choose|y: Seq<Bucket>| #[trigger]
        merges(launches, y) && b == framed(t, y, dt, speed);
    a_frame_merges_one_way(launches, x, y);
}

proof fn fronts_fit(leg: u64, speed: u64)
    requires
        leg <= LONGEST_LEG,
    ensures
        0 < front_of(leg, speed) <= u64::MAX,
        0 < back_of(leg, speed) <= u64::MAX,
        front_of(leg, speed) <= back_of(leg, speed),
{
    let of = if speed == 0 {
        1
    } else {
        speed as int
    };
    assert(0 <= leg * 1_000_000 / of <= leg * 1_000_000) by (nonlinear_arith)
        requires
            of >= 1,
            leg >= 0,
    ;
}

proof fn rates_fit(rate: u128, sends: u64, since: u64)
    requires
        rate <= TOP_RATE,
        since >= STAT,
    ensures
        smoothed(rate, sends, since) <= TOP_RATE,
        (rate + sends * 1_000_000_000_000 / since as int) / 2 <= TOP_RATE,
{
    let x = sends * 1_000_000_000_000;
    assert(0 <= x / since as int <= x / 500_000) by (nonlinear_arith)
        requires
            x >= 0,
            since >= 500_000,
    ;
}

proof fn slots_are_places(slots: Seq<Option<Slot>>, wall: u64, k: int)
    requires
        0 <= k <= slots.len(),
    ensures
        free_at(slots, wall, k) matches Some(at) ==> k <= at < slots.len(),
    decreases slots.len() - k,
{
    if k < slots.len() {
        slots_are_places(slots, wall, k + 1);
    }
}

fn no_slots() -> (v: Vec<Option<Slot>>)
    ensures
        v@ == Seq::new(SLOTS as nat, |i: int| None::<Slot>),
{
    let v: Vec<Option<Slot>> = vec![None, None, None, None];
    assert(v@ =~= Seq::new(SLOTS as nat, |i: int| None::<Slot>));
    v
}

/// A wire with nothing on it.
pub open spec fn idle_seat() -> SeatView {
    SeatView {
        out: Seq::new(SLOTS as nat, |i: int| None),
        home: Seq::new(SLOTS as nat, |i: int| None),
        wave: 0,
        rate: 0,
        sends: 0,
    }
}

impl LaneTier {
    pub open spec fn wf(self) -> bool {
        self@.wf()
    }

    /// A tier of `wires` seats, with nothing on any of them.
    pub fn new(wires: usize, leg: u64) -> (t: LaneTier)
        requires
            leg <= LONGEST_LEG,
        ensures
            t.wf(),
            t@ == (TierView {
                leg,
                seats: Seq::new(wires as nat, |i: int| None),
                state: Seq::new(wires as nat, |i: int| idle_seat()),
                wall: 0,
                since_stat: 0,
                speed: 1_000_000,
            }),
    {
        let mut seats: Vec<Option<Key>> = Vec::new();
        let mut state: Vec<SeatState> = Vec::new();
        let mut i: usize = 0;
        while i < wires
            invariant
                i <= wires,
                seats@.len() == i,
                state@.len() == i,
                forall|j: int| 0 <= j < i ==> #[trigger] seats@[j] is None,
                forall|j: int| 0 <= j < i ==> (#[trigger] state@[j])@ == idle_seat(),
            decreases wires - i,
        {
            seats.push(None);
            let one = SeatState { out: no_slots(), home: no_slots(), wave: 0, rate: 0, sends: 0 };
            assert(one@ =~= idle_seat());
            state.push(one);
            i += 1;
        }
        let t = LaneTier { leg, seats, state, wall: 0, since_stat: 0, speed: 1_000_000 };
        assert(t@.seats =~= Seq::new(wires as nat, |i: int| None));
        assert(t@.state =~= Seq::new(wires as nat, |i: int| idle_seat()));
        t
    }

    /// Launch one bucket.
    fn launch(&mut self, b: &Bucket)
        requires
            old(self).wf(),
        ensures
            final(self).wf(),
            final(self)@ == launched_one(old(self)@, *b),
    {
        let ghost before = self@;
        let key: Key = (b.launch.from, b.launch.to);
        let at: usize = match seat(&mut self.seats, key) {
            Some(at) => at,
            None => {
                return;
            },
        };
        proof {
            fronts_fit(self.leg, self.speed);
            assert(before.state[at as int] == self.state@[at as int]@);
            assert(before.state[at as int].wf());
            slots_are_places(before.state[at as int].out, self.wall, 0);
            slots_are_places(before.state[at as int].home, self.wall, 0);
        }
        let clock: u64 = if self.speed == 0 {
            1
        } else {
            self.speed
        };
        let whole: u128 = self.leg as u128 * 1_000_000 / clock as u128;
        let front: u64 = if whole > 0 {
            whole as u64
        } else {
            1
        };
        let back: u64 = if front > AFTERGLOW {
            front
        } else {
            AFTERGLOW
        };
        let pulse = Some(Slot { ink: b.launch.ink, count: b.count, at: self.wall, front, back });
        let ghost whole = self.state@;
        let mut s: SeatState = self.state.remove(at);
        s.sends = if u64::MAX - s.sends >= b.count as u64 {
            s.sends + b.count as u64
        } else {
            u64::MAX
        };
        if b.launch.homeward {
            let k: usize = slot_in(&s.home, self.wall);
            s.home.set(k, pulse);
        } else {
            let k: usize = slot_in(&s.out, self.wall);
            s.out.set(k, pulse);
        }
        self.state.insert(at, s);
        proof {
            let after = launched_one(before, *b);
            assert(self.state@ =~= whole.update(at as int, s));
            assert(s@ =~= after.state[at as int]);
            assert(self@.state =~= after.state);
            assert(self@ =~= after);
            assert forall|i: int| 0 <= i < self@.state.len() implies (
            #[trigger] self@.state[i]).wf() by {
                if i != at {
                    assert(self@.state[i] == before.state[i]);
                }
            }
        }
    }

    /// Settle one seat at a frame's end.
    fn settle(&mut self, i: usize, cut: bool, since: u64, dt: u64)
        requires
            old(self).wf(),
            i < old(self).seats@.len(),
            cut ==> since >= STAT,
            dt <= u32::MAX,
        ensures
            final(self).wf(),
            ({
                let t = old(self)@;
                let s = t.state[i as int];
                final(self)@ == (if t.seats[i as int] is None {
                    t
                } else {
                    TierView {
                        seats: if done(s, cut, since, t.wall) {
                            t.seats.update(i as int, None)
                        } else {
                            t.seats
                        },
                        state: t.state.update(i as int, aged(s, cut, since, dt, t.wall)),
                        ..t
                    }
                })
            }),
    {
        let ghost before = self@;
        if self.seats[i].is_none() {
            return;
        }
        assert(before.state[i as int] == self.state@[i as int]@);
        assert(before.state[i as int].wf());
        let ghost whole = self.state@;
        let mut s: SeatState = self.state.remove(i);
        let ghost was = s@;
        if cut {
            proof {
                rates_fit(s.rate, s.sends, since);
            }
            let fresh: u128 = s.sends as u128 * 1_000_000_000_000 / since as u128;
            let next: u128 = (s.rate + fresh) / 2;
            s.rate = if next < QUIET {
                0
            } else {
                next
            };
            s.sends = 0;
        }
        let quiet: bool = s.rate == 0 && !s.is_carrying(self.wall);
        proof {
            assert(s@.carrying(self.wall) == was.carrying(self.wall)) by {
                assert(s@.out == was.out && s@.home == was.home);
            }
            assert(quiet == done(was, cut, since, self.wall));
        }
        if quiet {
            self.seats.set(i, None);
        } else {
            assert(s.rate * dt * 16 <= TOP_RATE * 0x1_0000_0000 * 16) by (nonlinear_arith)
                requires
                    s.rate <= TOP_RATE,
                    dt <= 0x1_0000_0000,
            ;
            assert(s.rate as u128 * dt as u128 == s.rate * dt) by (nonlinear_arith);
            assert(s.rate * dt <= s.rate * dt * 16) by (nonlinear_arith);
            let moved: u128 = s.rate * dt as u128 * 16 / 9_000_000;
            s.wave = (s.wave + moved) % WAVE;
        }
        self.state.insert(i, s);
        proof {
            assert(self.state@ =~= whole.update(i as int, s));
            assert(s@ =~= aged(was, cut, since, dt, before.wall));
            assert(self@.state =~= before.state.update(i as int, s@));
            assert forall|j: int| 0 <= j < self@.state.len() implies (
            #[trigger] self@.state[j]).wf() by {
                if j != i {
                    assert(self@.state[j] == before.state[j]);
                }
            }
        }
    }

    /// One frame: launch the departures' pulses, move the waves on, retire the quiet. The clock is
    /// the reader's own, so a paused engine still lands what it has in the air; the speed is the
    /// engine's against it, and stretches fronts but never afterglow.
    pub fn frame(&mut self, launches: &Vec<Launch>, dt: u64, speed: u64)
        requires
            old(self).wf(),
            dt <= u32::MAX,
            old(self).wall + dt <= u64::MAX,
        ensures
            final(self).wf(),
            frames(old(self)@, launches@, dt, speed, final(self)@),
    {
        let ghost start = self@;
        self.wall = self.wall + dt;
        self.speed = speed;
        let buckets = merged(launches);
        let ghost from = self@;
        let mut i: usize = 0;
        while i < buckets.len()
            invariant
                i <= buckets@.len(),
                self.wf(),
                self@ == launched(from, buckets@, i as int),
            decreases buckets@.len() - i,
        {
            self.launch(&buckets[i]);
            i += 1;
        }
        let ghost flying = self@;
        proof {
            launching_keeps_the_clock(from, buckets@, buckets@.len() as int);
        }
        let since: u64 = self.since_stat + dt;
        let cut: bool = since >= STAT;
        let ghost after = settled(flying, dt);
        let mut i: usize = 0;
        while i < self.seats.len()
            invariant
                i <= self.seats@.len(),
                self.wf(),
                flying.wf(),
                after == settled(flying, dt),
                since == flying.since_stat + dt,
                cut == (since >= STAT),
                dt <= u32::MAX,
                self@.seats.len() == flying.seats.len(),
                self@.state.len() == flying.state.len(),
                self@ == (TierView { seats: self@.seats, state: self@.state, ..flying }),
                forall|j: int| 0 <= j < i ==> #[trigger] self@.seats[j] == after.seats[j],
                forall|j: int| 0 <= j < i ==> #[trigger] self@.state[j] == after.state[j],
                forall|j: int|
                    i <= j < flying.seats.len() ==> #[trigger] self@.seats[j] == flying.seats[j],
                forall|j: int|
                    i <= j < flying.state.len() ==> #[trigger] self@.state[j] == flying.state[j],
            decreases self.seats@.len() - i,
        {
            assert(self@.seats[i as int] == flying.seats[i as int]);
            assert(self@.state[i as int] == flying.state[i as int]);
            self.settle(i, cut, since, dt);
            i += 1;
        }
        self.since_stat = if cut {
            0
        } else {
            since
        };
        proof {
            assert(self@.seats =~= after.seats);
            assert(self@.state =~= after.state);
            assert(self@ =~= after);
            assert(self@ == framed(start, buckets@, dt, speed));
            assert(merges(launches@, buckets@));
            assert forall|j: int| 0 <= j < self@.state.len() implies (
            #[trigger] self@.state[j]).wf() by {}
        }
    }

    /// Whether anything is still in the air. A pause stops departures, never travel already
    /// launched, so the frame loop runs until this is false.
    pub fn airborne(&self) -> (b: bool)
        ensures
            b == self@.airborne(),
    {
        let mut i: usize = 0;
        while i < self.state.len()
            invariant
                i <= self.state@.len(),
                forall|j: int| 0 <= j < i ==> !(#[trigger] self@.state[j]).carrying(self.wall),
            decreases self.state@.len() - i,
        {
            assert(self@.state[i as int] == self.state@[i as int]@);
            if self.state[i].is_carrying(self.wall) {
                assert(self@.state[i as int].carrying(self.wall));
                return true;
            }
            i += 1;
        }
        false
    }
}

/// Launching touches neither the clock nor how long ago the rates were smoothed.
proof fn launching_keeps_the_clock(t: TierView, buckets: Seq<Bucket>, n: int)
    ensures
        ({
            let after = launched(t, buckets, n);
            &&& after.leg == t.leg
            &&& after.wall == t.wall
            &&& after.since_stat == t.since_stat
            &&& after.speed == t.speed
        }),
    decreases n,
{
    if n > 0 {
        launching_keeps_the_clock(t, buckets, n - 1);
    }
}

/// A place along a wire, as a fraction of it.
#[derive(Clone, Copy, PartialEq, Eq, Structural, Debug)]
pub struct Place {
    pub num: u128,
    pub den: u128,
}

/// A lit stretch of a wire.
#[derive(Clone, Copy, PartialEq, Eq, Structural, Debug)]
pub struct Span {
    pub from: Place,
    pub to: Place,
}

impl Slot {
    /// A pulse that has left and has edges to draw.
    pub open spec fn flown(self, wall: u64) -> bool {
        self.at <= wall && 0 < self.front <= self.back
    }

    /// Where the head stands at `wall`, over the front edge's length.
    pub open spec fn head(self, wall: u64) -> int {
        wall - self.at
    }

    /// Where the tail stands, over twenty-five of the back edge's lengths.
    pub open spec fn tail(self, wall: u64) -> int {
        25 * (wall - self.at) - self.back
    }

    /// The lit stretch of the wire, clipped to the wire itself: from the tail to the head, and the
    /// other way round coming home. Nothing once the tail has left the far end.
    pub open spec fn spec_span(self, wall: u64, homeward: bool) -> Option<Span> {
        let far = 25 * self.back;
        let head = Place {
            num: if self.head(wall) < self.front {
                self.head(wall) as u128
            } else {
                self.front as u128
            },
            den: self.front as u128,
        };
        let tail = Place {
            num: if self.tail(wall) > 0 {
                self.tail(wall) as u128
            } else {
                0
            },
            den: far as u128,
        };
        if self.tail(wall) >= far || self.head(wall) == 0 {
            None
        } else if homeward {
            Some(
                Span {
                    from: Place { num: (head.den - head.num) as u128, den: head.den },
                    to: Place { num: (tail.den - tail.num) as u128, den: tail.den },
                },
            )
        } else {
            Some(Span { from: tail, to: head })
        }
    }

    /// The lit stretch of the wire.
    pub fn span(&self, wall: u64, homeward: bool) -> (span: Option<Span>)
        requires
            self.flown(wall),
        ensures
            span == self.spec_span(wall, homeward),
    {
        let since: u64 = wall - self.at;
        let far: u128 = 25u128 * self.back as u128;
        let run: u128 = 25u128 * since as u128;
        if since == 0 || run >= far + self.back as u128 {
            return None;
        }
        let head: u128 = if since < self.front {
            since as u128
        } else {
            self.front as u128
        };
        let tail: u128 = if run > self.back as u128 {
            run - self.back as u128
        } else {
            0
        };
        let front: u128 = self.front as u128;
        if homeward {
            Some(
                Span {
                    from: Place { num: front - head, den: front },
                    to: Place { num: far - tail, den: far },
                },
            )
        } else {
            Some(
                Span { from: Place { num: tail, den: far }, to: Place { num: head, den: front } },
            )
        }
    }
}

/// However slow the motion, the afterglow never outruns the front: the tail is behind the head,
/// the stretch between them has a length, and it stays on the wire.
pub proof fn the_afterglow_never_outruns_the_front(s: Slot, wall: u64, homeward: bool)
    requires
        s.flown(wall),
    ensures
        s.tail(wall) * s.front < s.head(wall) * (25 * s.back),
        s.spec_span(wall, homeward) matches Some(span) ==> {
            &&& span.from.num * span.to.den < span.to.num * span.from.den
            &&& span.from.num <= span.from.den
            &&& span.to.num <= span.to.den
        },
{
    let (h, t, f, b) = (s.head(wall), s.tail(wall), s.front as int, s.back as int);
    assert(t * f < h * (25 * b)) by (nonlinear_arith)
        requires
            t == 25 * h - b,
            0 <= h,
            0 < f <= b,
    ;
    if s.spec_span(wall, homeward) is Some {
        let far = 25 * b;
        let head = if h < f {
            h
        } else {
            f
        };
        let tail = if t > 0 {
            t
        } else {
            0
        };
        assert(tail * f < head * far) by (nonlinear_arith)
            requires
                t * f < h * far,
                0 < h,
                0 < f,
                0 < far,
                t < far,
                head == h || head == f,
                tail == t || tail == 0,
        ;
        assert((f - head) * far < (far - tail) * f) by (nonlinear_arith)
            requires
                tail * f < head * far,
        ;
    }
}

/// Travel lands: a pulse is over a twenty-fifth past its back edge's length after it left, and
/// once over it stays over.
pub proof fn travel_lands(s: Slot, wall: u64, later: u64)
    requires
        wall <= later,
    ensures
        25 * (wall - s.at) >= 26 * s.back ==> !s.lit(wall),
        !s.lit(wall) ==> !s.lit(later),
{
}

/// A frame in which nothing departs puts nothing in the air.
pub proof fn nothing_departs_from_a_quiet_tier(t: TierView, dt: u64, speed: u64, after: TierView)
    requires
        t.wf(),
        t.wall + dt <= u64::MAX,
        !t.airborne(),
        frames(t, Seq::empty(), dt, speed, after),
    ensures
        !after.airborne(),
{
    broadcast use vstd::seq_lib::group_to_multiset_ensures;

    let buckets = choose|buckets: Seq<Bucket>| #[trigger]
        merges(Seq::empty(), buckets) && after == framed(t, buckets, dt, speed);
    if buckets.len() > 0 {
        vstd::seq_lib::to_multiset_contains(Seq::<Launch>::empty(), buckets[0].launch);
        assert(buckets[0].count > 0);
    }
    let now = (t.wall + dt) as u64;
    assert forall|i: int| 0 <= i < after.state.len() implies !(
    #[trigger] after.state[i]).carrying(after.wall) by {
        let was = t.state[i];
        assert(!was.carrying(t.wall));
        assert(after.state[i].out == was.out && after.state[i].home == was.home);
        assert forall|k: int| 0 <= k < was.out.len() implies !((#[trigger] was.out[k]) matches Some(
            s,
        ) && s.lit(now)) by {
            if let Some(s) = was.out[k] {
                travel_lands(s, t.wall, now);
            }
        }
        assert forall|k: int| 0 <= k < was.home.len() implies !(
        (#[trigger] was.home[k]) matches Some(s) && s.lit(now)) by {
            if let Some(s) = was.home[k] {
                travel_lands(s, t.wall, now);
            }
        }
    }
}

/// One pulse in the air: the wire it is on, which way it runs, and what it is.
#[derive(Clone, Copy, PartialEq, Eq, Structural, Debug)]
pub struct Flying {
    pub from: usize,
    pub to: usize,
    pub homeward: bool,
    pub slot: Slot,
}

/// The pulses to be seen among a lane's first `n` slots.
pub open spec fn lane_flying(
    key: Key,
    homeward: bool,
    slots: Seq<Option<Slot>>,
    wall: u64,
    n: int,
) -> Seq<Flying>
    decreases n,
{
    if n <= 0 {
        Seq::empty()
    } else {
        let before = lane_flying(key, homeward, slots, wall, n - 1);
        match slots[n - 1] {
            Some(slot) if slot.lit(wall) => before.push(
                Flying { from: key.0, to: key.1, homeward, slot },
            ),
            _ => before,
        }
    }
}

/// The pulses to be seen on a tier's first `n` wires: on each, those going out and then those
/// coming home.
pub open spec fn tier_flying(t: TierView, n: int) -> Seq<Flying>
    decreases n,
{
    if n <= 0 {
        Seq::empty()
    } else {
        let before = tier_flying(t, n - 1);
        match t.seats[n - 1] {
            None => before,
            Some(key) => before + lane_flying(
                key,
                false,
                t.state[n - 1].out,
                t.wall,
                t.state[n - 1].out.len() as int,
            ) + lane_flying(
                key,
                true,
                t.state[n - 1].home,
                t.wall,
                t.state[n - 1].home.len() as int,
            ),
        }
    }
}

/// Add a lane's pulses to the list.
fn add_lane(all: &mut Vec<Flying>, key: Key, homeward: bool, slots: &Vec<Option<Slot>>, wall: u64)
    ensures
        final(all)@ == old(all)@ + lane_flying(key, homeward, slots@, wall, slots@.len() as int),
{
    let ghost before = all@;
    let mut i: usize = 0;
    assert(before + lane_flying(key, homeward, slots@, wall, 0) =~= before);
    while i < slots.len()
        invariant
            i <= slots@.len(),
            all@ == before + lane_flying(key, homeward, slots@, wall, i as int),
        decreases slots@.len() - i,
    {
        if let Some(slot) = slots[i] {
            if slot.is_lit(wall) {
                all.push(Flying { from: key.0, to: key.1, homeward, slot });
            }
        }
        i += 1;
        assert(all@ =~= before + lane_flying(key, homeward, slots@, wall, i as int));
    }
}

/// Whether a wire's wave is deep enough to draw: under this its pulses alone are the picture.
pub fn waving(rate: u128, speed: u64) -> (b: bool)
    requires
        rate <= TOP_RATE,
    ensures
        b == (7 * rate >= 45 * if speed == 0 {
            1
        } else {
            speed as int
        }),
{
    let clock: u128 = if speed == 0 {
        1
    } else {
        speed as u128
    };
    7 * rate >= 45 * clock
}

impl LaneTier {
    /// Every pulse to be seen, wire by wire.
    pub fn flying(&self) -> (all: Vec<Flying>)
        requires
            self.wf(),
        ensures
            all@ == tier_flying(self@, self.seats@.len() as int),
    {
        let mut all: Vec<Flying> = Vec::new();
        let mut i: usize = 0;
        while i < self.seats.len()
            invariant
                i <= self.seats@.len(),
                self.wf(),
                all@ == tier_flying(self@, i as int),
            decreases self.seats@.len() - i,
        {
            assert(self@.state[i as int] == self.state@[i as int]@);
            if let Some(key) = self.seats[i] {
                add_lane(&mut all, key, false, &self.state[i].out, self.wall);
                add_lane(&mut all, key, true, &self.state[i].home, self.wall);
            }
            i += 1;
        }
        all
    }
}

/// A pulse is lit for as long as its glow takes to cross, and a twenty-fifth longer.
pub proof fn a_pulse_is_lit_while_its_glow_crosses(s: Slot, wall: u64)
    requires
        s.at <= wall,
    ensures
        s.lit(wall) <==> 25 * (wall - s.at) < 26 * s.back,
{
}

proof fn the_first_free(slots: Seq<Option<Slot>>, wall: u64, k: int)
    requires
        0 <= k,
    ensures
        free_at(slots, wall, k) matches Some(at) ==> {
            &&& k <= at < slots.len()
            &&& slots[at] is None || !slots[at]->0.lit(wall)
            &&& forall|i: int|
                k <= i < at ==> (#[trigger] slots[i]) is Some && slots[i]->0.lit(wall)
        },
        free_at(slots, wall, k) is None ==> forall|i: int|
            k <= i < slots.len() ==> (#[trigger] slots[i]) is Some && slots[i]->0.lit(wall),
    decreases slots.len() - k,
{
    if k < slots.len() {
        the_first_free(slots, wall, k + 1);
    }
}

proof fn the_oldest_ends_first(slots: Seq<Option<Slot>>, n: int, i: int)
    requires
        1 <= n <= slots.len(),
        0 <= i < n,
    ensures
        0 <= oldest_of(slots, n) < n,
        over(slots[oldest_of(slots, n)]) <= over(slots[i]),
    decreases n,
{
    if n > 1 {
        if i < n - 1 {
            the_oldest_ends_first(slots, n - 1, i);
        } else {
            the_oldest_ends_first(slots, n - 1, 0);
        }
    }
}

/// A pulse takes the first slot that nothing lit is in; with none such, it takes over the one whose
/// light would have gone out first.
pub proof fn a_pulse_takes_a_dark_slot_first(slots: Seq<Option<Slot>>, wall: u64, i: int)
    requires
        0 <= i < slots.len(),
    ensures
        ({
            let at = slot_for(slots, wall);
            let dark = |k: int| slots[k] is None || !slots[k]->0.lit(wall);
            &&& 0 <= at < slots.len()
            &&& i < at && dark(at) ==> !dark(i)
            &&& dark(i) ==> dark(at)
            &&& !dark(at) ==> slots[at]->0.ends() <= slots[i]->0.ends()
        }),
{
    the_first_free(slots, wall, 0);
    the_oldest_ends_first(slots, slots.len() as int, i);
}

/// A pulse crosses in its leg's time at the speed it is played, to the tick below and a tick at
/// least; and its glow takes as long, or a quarter of a second where that is longer.
pub proof fn a_pulse_crosses_at_the_speed_it_is_played(leg: u64, speed: u64)
    requires
        speed > 0,
    ensures
        front_of(leg, speed) >= 1,
        front_of(leg, speed) > 1 ==> front_of(leg, speed) * speed <= leg * 1_000_000,
        leg * 1_000_000 < (front_of(leg, speed) + 1) * speed,
        back_of(leg, speed) >= front_of(leg, speed) && back_of(leg, speed) >= 250_000,
        back_of(leg, speed) == front_of(leg, speed) || back_of(leg, speed) == 250_000,
{
    let (x, q) = (leg * 1_000_000, leg * 1_000_000 / speed as int);
    vstd::arithmetic::div_mod::lemma_fundamental_div_mod(x, speed as int);
    assert(speed * q == q * speed) by (nonlinear_arith);
    assert((q + 1) * speed == q * speed + speed) by (nonlinear_arith);
    assert(q == 0 ==> x < 2 * speed);
}

/// Whether all that happened on a side is that one slot was lit: from now, in the departure's ink,
/// for as many as departed.
pub open spec fn lights_one(
    was: Seq<Option<Slot>>,
    now: Seq<Option<Slot>>,
    b: Bucket,
    wall: u64,
) -> bool {
    exists|k: int|
        {
            &&& 0 <= k < was.len()
            &&& now == was.update(k, #[trigger] now[k])
            &&& now[k] matches Some(s) && s.ink == b.launch.ink && s.count == b.count && s.at == wall
        }
}

/// A departure lights one slot of its own wire, on the side it travels, with its own ink and its own
/// count, from now; the other side, the wire's other slots and every other wire are as they were;
/// and the wire counts as many sends more.
pub proof fn a_departure_lights_its_own_wire(t: TierView, b: Bucket, at: int, i: int)
    requires
        seat_of(t.seats, (b.launch.from, b.launch.to)) == Some(at),
        0 <= at < t.seats.len(),
        t.seats.len() == t.state.len(),
        0 <= i < t.state.len(),
        t.state[at].sends + b.count <= u64::MAX,
        t.state[at].out.len() > 0 && t.state[at].home.len() > 0,
    ensures
        ({
            let (after, was) = (launched_one(t, b), t.state[at]);
            let now = after.state[at];
            &&& after.seats[at] == Some((b.launch.from, b.launch.to))
            &&& i != at ==> after.state[i] == t.state[i] && after.seats[i] == t.seats[i]
            &&& now.sends - was.sends == b.count
            &&& now.wave == was.wave && now.rate == was.rate
            &&& b.launch.homeward ==> now.out == was.out
            &&& !b.launch.homeward ==> now.home == was.home
            &&& b.launch.homeward ==> lights_one(was.home, now.home, b, t.wall)
            &&& !b.launch.homeward ==> lights_one(was.out, now.out, b, t.wall)
        }),
{
    let (after, was) = (launched_one(t, b), t.state[at]);
    let now = after.state[at];
    a_pulse_takes_a_dark_slot_first(was.out, t.wall, 0);
    a_pulse_takes_a_dark_slot_first(was.home, t.wall, 0);
    if b.launch.homeward {
        let k = slot_for(was.home, t.wall);
        assert(now.home =~= was.home.update(k, now.home[k]));
        assert(lights_one(was.home, now.home, b, t.wall));
    } else {
        let k = slot_for(was.out, t.wall);
        assert(now.out =~= was.out.update(k, now.out[k]));
        assert(lights_one(was.out, now.out, b, t.wall));
    }
}

/// A wire with no seat to take departs from nowhere.
pub proof fn a_full_tier_lights_nothing(t: TierView, b: Bucket)
    requires
        seat_of(t.seats, (b.launch.from, b.launch.to)) is None,
    ensures
        launched_one(t, b) == t,
{
}

/// A wire's rate is halfway between what it was and what departed since, each to the unit below;
/// and too slow a rate is none.
pub proof fn a_rate_is_halfway_to_what_departed(rate: u128, sends: u64, since: u64)
    requires
        since > 0,
        rate <= TOP_RATE,
    ensures
        ({
            let next = smoothed(rate, sends, since);
            &&& next == 0 || next >= 10_000
            &&& exists|fresh: int|
                {
                    &&& #[trigger] (since * fresh) <= sends * 1_000_000_000_000
                    &&& sends * 1_000_000_000_000 < since * fresh + since
                    &&& next > 0 ==> 2 * next <= rate + fresh < 2 * next + 2
                    &&& next == 0 ==> rate + fresh < 20_000
                }
        }),
{
    let x = sends * 1_000_000_000_000;
    let fresh = x / since as int;
    vstd::arithmetic::div_mod::lemma_fundamental_div_mod(x, since as int);
    assert(since * fresh <= x && x < since * fresh + since);
    assert(0 <= fresh <= x) by (nonlinear_arith)
        requires
            fresh == x / since as int,
            since > 0,
            0 <= x,
    ;
    let next = (rate + fresh) / 2;
    assert(next <= u128::MAX);
}

/// A wave runs sixteen units for every nine million of rate and time, to the unit below.
pub proof fn a_wave_runs_with_its_rate(rate: u128, dt: u64)
    ensures
        9_000_000 * runs(rate, dt) <= 16 * (rate * dt) < 9_000_000 * runs(rate, dt) + 9_000_000,
{
    assert(rate * dt * 16 == 16 * (rate * dt)) by (nonlinear_arith);
}

/// A seat that carries nothing and has no rate stands still; any other's wave runs on, around its
/// length. At a cut its sends become its rate and start over; its slots are never touched.
pub proof fn a_quiet_seat_stands_still(s: SeatView, cut: bool, since: u64, dt: u64, wall: u64)
    requires
        s.wf(),
    ensures
        ({
            let after = aged(s, cut, since, dt, wall);
            &&& after.out == s.out && after.home == s.home
            &&& after.rate == if cut {
                smoothed(s.rate, s.sends, since)
            } else {
                s.rate
            }
            &&& after.sends == if cut {
                0
            } else {
                s.sends
            }
            &&& after.rate == 0 && !s.carrying(wall) ==> after.wave == s.wave
            &&& after.rate != 0 || s.carrying(wall) ==> after.wave == (s.wave + runs(after.rate, dt))
                % 160_000_000
            &&& done(s, cut, since, wall) <==> after.rate == 0 && !s.carrying(wall)
        }),
{
    let rate = if cut {
        smoothed(s.rate, s.sends, since)
    } else {
        s.rate
    };
    let mid = SeatView {
        rate,
        sends: if cut {
            0
        } else {
            s.sends
        },
        ..s
    };
    assert(mid.carrying(wall) == s.carrying(wall));
}

/// A tier cuts its rates every half second, and gives up a seat where its wire has gone quiet and
/// carries nothing: a seat is never given up under something lit.
pub proof fn a_seat_is_given_up_when_its_wire_is_quiet(t: TierView, dt: u64, i: int)
    requires
        t.wf(),
        t.since_stat + dt <= u64::MAX,
        0 <= i < t.seats.len(),
    ensures
        ({
            let after = settled(t, dt);
            &&& t.since_stat + dt >= 500_000 ==> after.since_stat == 0
            &&& t.since_stat + dt < 500_000 ==> after.since_stat == t.since_stat + dt
            &&& after.wall == t.wall && after.leg == t.leg && after.speed == t.speed
            &&& t.seats[i] is None ==> after.seats[i] is None && after.state[i] == t.state[i]
            &&& t.seats[i] is Some && t.state[i].carrying(t.wall) ==> after.seats[i] == t.seats[i]
            &&& t.seats[i] is Some && after.state[i].rate > 0 ==> after.seats[i] == t.seats[i]
            &&& t.seats[i] is Some && !t.state[i].carrying(t.wall) && after.state[i].rate == 0
                ==> after.seats[i] is None
        }),
{
    let since = (t.since_stat + dt) as u64;
    assert(t.state[i].wf());
    a_quiet_seat_stands_still(t.state[i], t.since_stat + dt >= STAT, since, dt, t.wall);
}

/// What comes home is the mirror of what goes out, and nothing is drawn of a pulse that has not
/// begun or has gone dark. Its head is as far along as its time is, until it is there.
pub proof fn what_comes_home_mirrors_what_goes_out(s: Slot, wall: u64)
    requires
        s.flown(wall),
    ensures
        s.spec_span(wall, false) is None <==> wall == s.at || !s.lit(wall),
        s.spec_span(wall, true) is Some <==> s.spec_span(wall, false) is Some,
        s.spec_span(wall, false) matches Some(out) ==> (s.spec_span(wall, true) matches Some(home)
            && {
            &&& home.from.den == out.to.den && home.from.num + out.to.num == out.to.den
            &&& home.to.den == out.from.den && home.to.num + out.from.num == out.from.den
            &&& out.to.den == s.front
            &&& wall - s.at <= s.front ==> out.to.num == wall - s.at
            &&& wall - s.at >= s.front ==> out.to.num == s.front
            &&& out.from.den == 25 * s.back
            &&& 25 * (wall - s.at) >= s.back ==> out.from.num == 25 * (wall - s.at) - s.back
            &&& 25 * (wall - s.at) <= s.back ==> out.from.num == 0
        }),
{
}

/// What flies on a lane is what is lit on it, and all of it.
pub proof fn what_flies_is_what_is_lit(
    key: Key,
    homeward: bool,
    slots: Seq<Option<Slot>>,
    wall: u64,
    n: int,
    s: Slot,
)
    requires
        0 <= n <= slots.len(),
    ensures
        lane_flying(key, homeward, slots, wall, n).contains(
            (Flying { from: key.0, to: key.1, homeward, slot: s }),
        ) <==> exists|i: int| 0 <= i < n && #[trigger] slots[i] == Some(s) && s.lit(wall),
        forall|j: int|
            0 <= j < lane_flying(key, homeward, slots, wall, n).len() ==> {
                let f = #[trigger] lane_flying(key, homeward, slots, wall, n)[j];
                f.from == key.0 && f.to == key.1 && f.homeward == homeward && f.slot.lit(wall)
            },
    decreases n,
{
    if n > 0 {
        what_flies_is_what_is_lit(key, homeward, slots, wall, n - 1, s);
        let f = Flying { from: key.0, to: key.1, homeward, slot: s };
        let (before, after) = (
            lane_flying(key, homeward, slots, wall, n - 1),
            lane_flying(key, homeward, slots, wall, n),
        );
        if after.len() > before.len() {
            assert(after[before.len() as int].slot == slots[n - 1]->0);
            if before.contains(f) {
                let i = choose|i: int| 0 <= i < before.len() && before[i] == f;
                assert(after[i] == f);
            }
            if slots[n - 1] == Some(s) {
                assert(after[before.len() as int] == f);
            } else if after.contains(f) {
                let i = choose|i: int| 0 <= i < after.len() && after[i] == f;
                assert(before[i] == f);
            }
        }
        if before.contains(f) {
            let i = choose|i: int| 0 <= i < n - 1 && #[trigger] slots[i] == Some(s) && s.lit(wall);
            assert(0 <= i < n);
        }
        if exists|i: int| 0 <= i < n && #[trigger] slots[i] == Some(s) && s.lit(wall) {
            let i = choose|i: int| 0 <= i < n && #[trigger] slots[i] == Some(s) && s.lit(wall);
            assert(i == n - 1 || 0 <= i < n - 1);
        }
    }
}

/// A tier flies its wires in seat order, what goes out on each before what comes home on it, and
/// nothing from a seat that no wire holds.
pub proof fn a_tier_flies_wire_by_wire(t: TierView, n: int)
    requires
        0 < n <= t.seats.len(),
    ensures
        t.seats[n - 1] is None ==> tier_flying(t, n) == tier_flying(t, n - 1),
        t.seats[n - 1] matches Some(key) ==> {
            let (out, home) = (t.state[n - 1].out, t.state[n - 1].home);
            let flying = tier_flying(t, n).skip(tier_flying(t, n - 1).len() as int);
            &&& tier_flying(t, n).take(tier_flying(t, n - 1).len() as int) == tier_flying(t, n - 1)
            &&& flying == lane_flying(key, false, out, t.wall, out.len() as int) + lane_flying(
                key,
                true,
                home,
                t.wall,
                home.len() as int,
            )
        },
{
    if let Some(key) = t.seats[n - 1] {
        let before = tier_flying(t, n - 1);
        let (out, home) = (t.state[n - 1].out, t.state[n - 1].home);
        let a = lane_flying(key, false, out, t.wall, out.len() as int);
        let b = lane_flying(key, true, home, t.wall, home.len() as int);
        assert(tier_flying(t, n) == before + a + b);
        assert((before + a + b).take(before.len() as int) =~= before);
        assert((before + a + b).skip(before.len() as int) =~= a + b);
    }
}

/// A seat carries something while any slot of it is lit, on either side, and nothing otherwise; and
/// a fresh one carries nothing, at rest.
pub proof fn a_seat_carries_what_is_lit_on_it(s: SeatView, wall: u64, i: int)
    ensures
        0 <= i < s.out.len() && s.out[i] is Some && s.out[i]->0.lit(wall) ==> s.carrying(wall),
        0 <= i < s.home.len() && s.home[i] is Some && s.home[i]->0.lit(wall) ==> s.carrying(wall),
        (forall|k: int|
            0 <= k < s.out.len() ==> ((#[trigger] s.out[k]) is None || !s.out[k]->0.lit(wall)))
            && (forall|k: int|
            0 <= k < s.home.len() ==> ((#[trigger] s.home[k]) is None || !s.home[k]->0.lit(wall)))
            ==> !s.carrying(wall),
        !idle_seat().carrying(wall) && idle_seat().wave == 0 && idle_seat().rate == 0
            && idle_seat().sends == 0,
{
}

} // verus!
