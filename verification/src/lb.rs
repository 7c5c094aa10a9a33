//! The balancer tier: five percentiles of two readings, scrolling as the reader turns the knobs.

use std::collections::VecDeque;

use vstd::prelude::*;

use crate::atoms::cut::{ramp, ramp_rgb, rgb_text};
use crate::atoms::lanes::{Ink, Launch};
use crate::atoms::strips::{draws, expire, note, row, spec_expired, StripRow, POINTS};
use crate::engine::clock::{Part, Ticks, MS};
use crate::engine::outcome::Outcome;
use crate::flow::band::{a_rank_is_near, rank, ranks_run_in_order};
use crate::flow::card::launch_ink;
use crate::flow::columns::toward;
use crate::order::{
    a_place_splits_its_readings, at_least, at_most, order_keeps_the_readings, put_in_order,
    puts_in_order, smaller_readings_rank_no_higher, Keyed,
};
use crate::text::{digits, nearest_even, push_text, tenths, tenths_text, to_nearest_even};

verus! {

/// How many answered trips a sample is cut from.
pub const WINDOW: usize = 2000;

/// Microseconds between samples.
pub const SAMPLE: u64 = 250_000;

/// How many cuts a sample is read at.
pub const CUTS: usize = 5;

/// The percentiles the rows read, highest last so the tail sits nearest the axis.
pub open spec fn spec_cut(row: int) -> (u32, Seq<char>) {
    if row == 0 {
        (25, "p25"@)
    } else if row == 1 {
        (50, "p50"@)
    } else if row == 2 {
        (75, "p75"@)
    } else if row == 3 {
        (90, "p90"@)
    } else {
        (99, "p99"@)
    }
}

/// A row's percentile and its name.
fn cut_of(row: usize) -> (c: (u32, &'static str))
    ensures
        c.0 == spec_cut(row as int).0,
        c.1@ == spec_cut(row as int).1,
{
    match row {
        0 => (25, "p25"),
        1 => (50, "p50"),
        2 => (75, "p75"),
        3 => (90, "p90"),
        _ => (99, "p99"),
    }
}

/// One answered trip: how long it took, and how much of that was waiting.
#[derive(Clone, Copy, PartialEq, Eq, Structural, Debug)]
pub struct Trip {
    pub total: Ticks,
    pub wait: Ticks,
}

/// One sample: the five cuts of both readings, taken together from one window so that switching
/// reading rereads history instead of restarting it.
#[derive(Clone, Copy)]
pub struct Sample {
    pub total: [Ticks; 5],
    pub wait: [Ticks; 5],
}

impl Sample {
    pub open spec fn spec_of(self, metric: usize) -> Seq<Ticks> {
        if metric == 0 {
            self.total@
        } else {
            self.wait@
        }
    }

    /// One cut of one reading.
    pub fn of(&self, metric: usize, row: usize) -> (v: Ticks)
        requires
            row < CUTS,
        ensures
            v == self.spec_of(metric)[row as int],
    {
        if metric == 0 {
            self.total[row]
        } else {
            self.wait[row]
        }
    }
}

/// What the trips of a window took, or waited.
pub open spec fn totals(window: Seq<Trip>) -> Seq<u64> {
    window.map_values(|t: Trip| t.total)
}

pub open spec fn waits(window: Seq<Trip>) -> Seq<u64> {
    window.map_values(|t: Trip| t.wait)
}

/// Whether these are the five cuts of some readings, each the one nearest its rank.
pub open spec fn cuts_by(cuts: Seq<Ticks>, values: Seq<u64>, sorted: Seq<u64>) -> bool {
    &&& puts_in_order(values, sorted)
    &&& cuts.len() == CUTS
    &&& forall|k: int|
        0 <= k < CUTS ==> #[trigger] cuts[k] == sorted[rank(
            spec_cut(k).0 as int,
            (values.len() - 1) as nat,
        ) as int]
}

/// Whether these are the five cuts of some readings.
pub open spec fn cuts(c: Seq<Ticks>, values: Seq<u64>) -> bool {
    exists|sorted: Seq<u64>| #[trigger] cuts_by(c, values, sorted)
}

/// The reading nearest a rank.
fn at(sorted: &Vec<u64>, pc: u32) -> (v: u64)
    requires
        sorted@.len() > 0,
        pc <= 100,
    ensures
        v == sorted@[rank(pc as int, (sorted@.len() - 1) as nat) as int],
        0 <= rank(pc as int, (sorted@.len() - 1) as nat) < sorted@.len(),
{
    let last: usize = sorted.len() - 1;
    let k: usize = crate::flow::band::place(pc, last);
    proof {
        ranks_run_in_order(pc as int, pc as int, last as nat);
    }
    sorted[k]
}

fn five(sorted: &Vec<u64>) -> (c: [Ticks; 5])
    requires
        sorted@.len() > 0,
    ensures
        forall|k: int|
            0 <= k < CUTS ==> #[trigger] c@[k] == sorted@[rank(
                spec_cut(k).0 as int,
                (sorted@.len() - 1) as nat,
            ) as int],
{
    [at(sorted, 25), at(sorted, 50), at(sorted, 75), at(sorted, 90), at(sorted, 99)]
}

/// The five cuts of the window, both readings at once, each the one nearest its rank.
pub fn cut_sample(window: &VecDeque<Trip>) -> (s: Sample)
    requires
        window@.len() > 0,
    ensures
        cuts(s.total@, totals(window@)),
        cuts(s.wait@, waits(window@)),
{
    let mut took: Vec<u64> = Vec::new();
    let mut waited: Vec<u64> = Vec::new();
    let mut i: usize = 0;
    while i < window.len()
        invariant
            i <= window@.len(),
            took@.len() == i,
            waited@.len() == i,
            forall|j: int| 0 <= j < i ==> #[trigger] took@[j] == totals(window@)[j],
            forall|j: int| 0 <= j < i ==> #[trigger] waited@[j] == waits(window@)[j],
        decreases window@.len() - i,
    {
        let t: Trip = window[i];
        took.push(t.total);
        waited.push(t.wait);
        i += 1;
    }
    assert(took@ =~= totals(window@));
    assert(waited@ =~= waits(window@));
    let took_in_order = put_in_order(&took);
    let waited_in_order = put_in_order(&waited);
    let s = Sample { total: five(&took_in_order), wait: five(&waited_in_order) };
    proof {
        assert(cuts_by(s.total@, totals(window@), took_in_order@));
        assert(cuts_by(s.wait@, waits(window@), waited_in_order@));
    }
    s
}

/// The cuts of one reading cannot cross: a higher percentile is never a smaller reading.
pub proof fn cuts_run_in_order(c: Seq<Ticks>, values: Seq<u64>, i: int, j: int)
    requires
        cuts(c, values),
        values.len() > 0,
        0 <= i <= j < CUTS,
    ensures
        c[i] <= c[j],
{
    let sorted = choose|sorted: Seq<u64>| #[trigger] cuts_by(c, values, sorted);
    order_keeps_the_readings(values, sorted);
    let last = (values.len() - 1) as nat;
    let (p, q) = (spec_cut(i).0 as int, spec_cut(j).0 as int);
    ranks_run_in_order(p, q, last);
    assert(sorted[rank(p, last) as int].key() <= sorted[rank(q, last) as int].key());
    assert(c[i] == sorted[rank(p, last) as int]);
    assert(c[j] == sorted[rank(q, last) as int]);
}

/// Waiting is part of the trip, at every cut: where no trip waited longer than it took, no cut of
/// the waiting is longer than the same cut of the trips.
pub proof fn waiting_is_part_of_the_trip(s: Sample, window: Seq<Trip>, k: int)
    requires
        cuts(s.total@, totals(window)),
        cuts(s.wait@, waits(window)),
        window.len() > 0,
        forall|i: int| 0 <= i < window.len() ==> (#[trigger] window[i]).wait <= window[i].total,
        0 <= k < CUTS,
    ensures
        s.wait@[k] <= s.total@[k],
{
    let (a, b) = (waits(window), totals(window));
    let in_a = choose|sorted: Seq<u64>| #[trigger] cuts_by(s.wait@, a, sorted);
    let in_b = choose|sorted: Seq<u64>| #[trigger] cuts_by(s.total@, b, sorted);
    let last = (window.len() - 1) as nat;
    let pc = spec_cut(k).0 as int;
    ranks_run_in_order(pc, pc, last);
    assert forall|i: int| 0 <= i < a.len() implies #[trigger] a[i] <= b[i] by {
        assert(window[i].wait <= window[i].total);
    }
    smaller_readings_rank_no_higher(a, b, in_a, in_b, rank(pc, last) as int);
    assert(s.wait@[k] == in_a[rank(pc, last) as int]);
    assert(s.total@[k] == in_b[rank(pc, last) as int]);
}

/// The tallest reading in view among the first `n` samples, and never less than a millisecond.
pub open spec fn tallest(samples: Seq<Sample>, metric: usize, n: int) -> int
    decreases n,
{
    if n <= 0 {
        MS as int
    } else {
        let before = tallest(samples, metric, n - 1);
        let here = samples[n - 1].spec_of(metric)[CUTS - 1] as int;
        if here > before {
            here
        } else {
            before
        }
    }
}

/// The axis the rows share: the tallest reading in view, with headroom.
pub open spec fn spec_axis_for(samples: Seq<Sample>, metric: usize) -> u64 {
    let scaled = tallest(samples, metric, samples.len() as int) * 21 / 20;
    if scaled < u64::MAX {
        scaled as u64
    } else {
        u64::MAX
    }
}

/// The axis the rows share.
pub fn axis_for(samples: &VecDeque<Sample>, metric: usize) -> (axis: u64)
    ensures
        axis == spec_axis_for(samples@, metric),
{
    let mut tall: u64 = MS;
    let mut i: usize = 0;
    while i < samples.len()
        invariant
            i <= samples@.len(),
            tall == tallest(samples@, metric, i as int),
        decreases samples@.len() - i,
    {
        let here: u64 = samples[i].of(metric, CUTS - 1);
        if here > tall {
            tall = here;
        }
        i += 1;
    }
    let scaled: u128 = tall as u128 * 21 / 20;
    if scaled < u64::MAX as u128 {
        scaled as u64
    } else {
        u64::MAX
    }
}

/// One row's readings.
pub open spec fn line_of(samples: Seq<Sample>, metric: usize, row: int) -> Seq<u64> {
    samples.map_values(|s: Sample| s.spec_of(metric)[row])
}

/// The rows as drawn: each percentile's line over every stored sample, in the colour its
/// percentile wears on a dial.
pub fn strip_rows(samples: &VecDeque<Sample>, metric: usize, axis: u64) -> (rows: Vec<StripRow>)
    ensures
        rows@.len() == CUTS,
        forall|k: int|
            0 <= k < CUTS ==> draws(
                #[trigger] rows@[k],
                spec_cut(k).1,
                line_of(samples@, metric, k),
                axis,
                MS,
                " ms"@,
                rgb_text(ramp_rgb(spec_cut(k).0)),
            ),
{
    let mut rows: Vec<StripRow> = Vec::new();
    let mut k: usize = 0;
    while k < CUTS
        invariant
            k <= CUTS,
            rows@.len() == k,
            forall|j: int|
                0 <= j < k ==> draws(
                    #[trigger] rows@[j],
                    spec_cut(j).1,
                    line_of(samples@, metric, j),
                    axis,
                    MS,
                    " ms"@,
                    rgb_text(ramp_rgb(spec_cut(j).0)),
                ),
        decreases CUTS - k,
    {
        let mut values: Vec<u64> = Vec::new();
        let mut i: usize = 0;
        while i < samples.len()
            invariant
                i <= samples@.len(),
                k < CUTS,
                values@.len() == i,
                forall|j: int|
                    0 <= j < i ==> #[trigger] values@[j] == line_of(samples@, metric, k as int)[j],
            decreases samples@.len() - i,
        {
            let s: Sample = samples[i];
            values.push(s.of(metric, k));
            i += 1;
        }
        assert(values@ =~= line_of(samples@, metric, k as int));
        let (pc, label): (u32, &'static str) = cut_of(k);
        rows.push(row(label, &values, axis, MS, " ms", ramp(pc)));
        k += 1;
    }
    rows
}

/// A window with one thing more: a full one forgets its oldest.
pub open spec fn rolled<A>(window: Seq<A>, cap: nat, x: A) -> Seq<A> {
    if window.len() >= cap {
        window.drop_first().push(x)
    } else {
        window.push(x)
    }
}

/// A window with the trips from `from` up to `n` added, oldest first.
pub open spec fn rolled_all(window: Seq<Trip>, trips: Seq<Trip>, from: int, n: int) -> Seq<Trip>
    decreases n - from,
{
    if n <= from {
        window
    } else {
        rolled(rolled_all(window, trips, from, n - 1), WINDOW as nat, trips[n - 1])
    }
}

/// The timeline: the trips a sample is cut from, the samples the rows draw, and the changes marked
/// under them.
pub struct Timeline {
    pub window: VecDeque<Trip>,
    pub samples: VecDeque<Sample>,
    /// How many samples have ever been taken: the timeline's own clock.
    pub sampled: u64,
    pub marked: VecDeque<u64>,
    pub since: u64,
    pub axis: u64,
    /// Which reading the rows show.
    pub showing: usize,
    pub credited: usize,
}

/// Whether a sample is taken after `dt` more: due, and something to cut it from.
pub open spec fn sample_taken(since: u64, dt: u64, window: Seq<Trip>) -> bool {
    since + dt >= SAMPLE && window.len() > 0
}

/// Three tenths of the way: how far the axis follows the tallest reading each sample.
pub open spec fn follow_share() -> Part {
    Part { done: 3, of: 10 }
}

impl Timeline {
    pub open spec fn wf(self) -> bool {
        &&& self.window@.len() <= WINDOW
        &&& self.samples@.len() <= POINTS
        &&& self.samples@.len() <= self.sampled
    }

    /// Nothing seen yet.
    pub fn new() -> (t: Timeline)
        ensures
            t.wf(),
            t.window@ == Seq::<Trip>::empty(),
            t.samples@ == Seq::<Sample>::empty(),
            t.marked@ == Seq::<u64>::empty(),
            t.sampled == 0 && t.since == 0 && t.axis == MS && t.showing == 0 && t.credited == 0,
    {
        Timeline {
            window: VecDeque::new(),
            samples: VecDeque::new(),
            sampled: 0,
            marked: VecDeque::new(),
            since: 0,
            axis: MS,
            showing: 0,
            credited: 0,
        }
    }

    /// Add the trips answered since the last frame. `answered` is the fleet's own tally.
    pub fn land(&mut self, trips: &VecDeque<Trip>, answered: usize)
        requires
            old(self).wf(),
            answered >= old(self).credited,
        ensures
            final(self).wf(),
            ({
                let n = trips@.len() as int;
                let landed = answered - old(self).credited;
                let from = if landed < n {
                    n - landed
                } else {
                    0
                };
                final(self).window@ == rolled_all(old(self).window@, trips@, from, n)
            }),
            final(self).credited == answered,
            final(self).samples@ == old(self).samples@,
            final(self).marked@ == old(self).marked@,
            final(self).sampled == old(self).sampled,
            final(self).since == old(self).since,
            final(self).axis == old(self).axis,
            final(self).showing == old(self).showing,
    {
        let n: usize = trips.len();
        let landed: usize = answered - self.credited;
        self.credited = answered;
        let from: usize = if landed < n {
            n - landed
        } else {
            0
        };
        let mut i: usize = from;
        while i < n
            invariant
                from <= i <= n,
                n == trips@.len(),
                self.wf(),
                self.window@ == rolled_all(old(self).window@, trips@, from as int, i as int),
                self.credited == answered,
                self.samples@ == old(self).samples@,
                self.marked@ == old(self).marked@,
                self.sampled == old(self).sampled,
                self.since == old(self).since,
                self.axis == old(self).axis,
                self.showing == old(self).showing,
            decreases n - i,
        {
            let ghost was = self.window@;
            if self.window.len() >= WINDOW {
                let gone = self.window.pop_front();
                assert(self.window@ =~= was.drop_first());
            }
            self.window.push_back(trips[i]);
            i += 1;
        }
    }

    /// A frame of `dt`: take a sample where one is due and there is anything to cut it from.
    pub fn sample(&mut self, dt: u64) -> (taken: bool)
        requires
            old(self).wf(),
            old(self).since + dt <= u64::MAX,
            old(self).sampled < u64::MAX,
        ensures
            final(self).wf(),
            taken == sample_taken(old(self).since, dt, old(self).window@),
            final(self).window@ == old(self).window@,
            final(self).showing == old(self).showing,
            final(self).credited == old(self).credited,
            final(self).since == (if taken {
                0
            } else {
                (old(self).since + dt) as u64
            }),
            !taken ==> final(self).samples@ == old(self).samples@ && final(self).marked@ == old(self).marked@ && final(self).sampled == old(self).sampled && final(self).axis == old(self).axis,
            taken ==> {
                &&& final(self).samples@.len() > 0
                &&& final(self).samples@ == rolled(
                    old(self).samples@,
                    POINTS as nat,
                    final(self).samples@.last(),
                )
                &&& cuts(final(self).samples@.last().total@, totals(old(self).window@))
                &&& cuts(final(self).samples@.last().wait@, waits(old(self).window@))
                &&& final(self).sampled == old(self).sampled + 1
                &&& final(self).marked@ == spec_expired(old(self).marked@, final(self).sampled)
                &&& final(self).axis == crate::flow::columns::eased(
                    old(self).axis as int,
                    spec_axis_for(final(self).samples@, old(self).showing) as int,
                    follow_share(),
                )
            },
    {
        self.since = self.since + dt;
        if self.since < SAMPLE || self.window.len() == 0 {
            return false;
        }
        self.since = 0;
        let ghost was = self.samples@;
        if self.samples.len() >= POINTS {
            let gone = self.samples.pop_front();
            assert(self.samples@ =~= was.drop_first());
        }
        let one: Sample = cut_sample(&self.window);
        self.samples.push_back(one);
        self.sampled = self.sampled + 1;
        expire(&mut self.marked, self.sampled);
        let want: u64 = axis_for(&self.samples, self.showing);
        self.axis = toward(self.axis, want, &Part { done: 3, of: 10 });
        true
    }

    /// Show the other reading of the same history: the axis takes it whole.
    pub fn show(&mut self, metric: usize)
        requires
            old(self).wf(),
        ensures
            final(self).wf(),
            final(self).showing == metric,
            final(self).axis == spec_axis_for(old(self).samples@, metric),
            final(self).samples@ == old(self).samples@,
            final(self).window@ == old(self).window@,
            final(self).marked@ == old(self).marked@,
            final(self).sampled == old(self).sampled,
            final(self).since == old(self).since,
            final(self).credited == old(self).credited,
    {
        self.showing = metric;
        self.axis = axis_for(&self.samples, metric);
    }
}

/// Where each living client's wire runs: down to the balancer it lives on.
pub open spec fn spec_edges(homes: Seq<Option<usize>>, n: int) -> Seq<(usize, usize)>
    decreases n,
{
    if n <= 0 {
        Seq::empty()
    } else {
        match homes[n - 1] {
            Some(lb) => spec_edges(homes, n - 1).push(((n - 1) as usize, lb)),
            None => spec_edges(homes, n - 1),
        }
    }
}

/// The first hop's wires.
pub fn edges(homes: &Vec<Option<usize>>) -> (pairs: Vec<(usize, usize)>)
    ensures
        pairs@ == spec_edges(homes@, homes@.len() as int),
{
    let mut pairs: Vec<(usize, usize)> = Vec::new();
    let mut i: usize = 0;
    while i < homes.len()
        invariant
            i <= homes@.len(),
            pairs@ == spec_edges(homes@, i as int),
        decreases homes@.len() - i,
    {
        if let Some(lb) = homes[i] {
            pairs.push((i, lb));
        }
        i += 1;
    }
    pairs
}

/// Everyone in the first rotation to everyone in the second, one by one.
pub open spec fn spec_every(n: int, m: int) -> Seq<(usize, usize)>
    decreases n,
{
    if n <= 0 {
        Seq::empty()
    } else {
        spec_every(n - 1, m) + Seq::new(m as nat, |j: int| ((n - 1) as usize, j as usize))
    }
}

/// The second hop's wires: every standing balancer to every machine still in rotation.
pub fn every(n: usize, m: usize) -> (pairs: Vec<(usize, usize)>)
    ensures
        pairs@ == spec_every(n as int, m as int),
{
    let mut pairs: Vec<(usize, usize)> = Vec::new();
    let mut i: usize = 0;
    while i < n
        invariant
            i <= n,
            pairs@ == spec_every(i as int, m as int),
        decreases n - i,
    {
        let ghost before = pairs@;
        let mut j: usize = 0;
        assert(before + Seq::new(0, |j: int| (i, j as usize)) =~= before);
        while j < m
            invariant
                j <= m,
                pairs@ == before + Seq::new(j as nat, |j: int| (i, j as usize)),
            decreases m - j,
        {
            pairs.push((i, j));
            j += 1;
            assert(pairs@ =~= before + Seq::new(j as nat, |j: int| (i, j as usize)));
        }
        assert(pairs@ =~= before + Seq::new(m as nat, |j: int| (i as usize, j as usize)));
        i += 1;
    }
    pairs
}

/// A wire something departed on: a client's to its balancer, or a sender's to a machine.
#[derive(Clone, Copy, PartialEq, Eq, Structural, Debug)]
pub enum Leg {
    Edge { client: usize, lb: usize },
    Server { sender: usize, server: usize },
}

/// One departure of a frame.
#[derive(Clone, Copy, PartialEq, Eq, Structural, Debug)]
pub struct WireEvent {
    pub leg: Leg,
    pub homeward: bool,
    pub outcome: Option<Outcome>,
}

/// The colour a departure travels in.
pub open spec fn spec_ink(e: WireEvent) -> Ink {
    if !e.homeward {
        Ink::Sent
    } else if e.outcome matches Some(o) && o.spec_refused() {
        Ink::Refusal
    } else {
        Ink::Answer
    }
}

/// The departures of the first `n` that ride the edge, or the machines' wires.
pub open spec fn spec_launches(events: Seq<WireEvent>, edge: bool, n: int) -> Seq<Launch>
    decreases n,
{
    if n <= 0 {
        Seq::empty()
    } else {
        let before = spec_launches(events, edge, n - 1);
        let e = events[n - 1];
        match e.leg {
            Leg::Edge { client, lb } => if edge {
                before.push(
                    Launch { from: client, to: lb, homeward: e.homeward, ink: spec_ink(e) },
                )
            } else {
                before
            },
            Leg::Server { sender, server } => if edge {
                before
            } else {
                before.push(
                    Launch { from: sender, to: server, homeward: e.homeward, ink: spec_ink(e) },
                )
            },
        }
    }
}

/// A frame's departures, each on its own hop: the client's send and its answer on the edge wires,
/// the asking, refusals and all, on the machine wires.
pub fn launches(events: &Vec<WireEvent>) -> (l: (Vec<Launch>, Vec<Launch>))
    ensures
        l.0@ == spec_launches(events@, true, events@.len() as int),
        l.1@ == spec_launches(events@, false, events@.len() as int),
{
    let mut on_edge: Vec<Launch> = Vec::new();
    let mut on_hop: Vec<Launch> = Vec::new();
    let mut i: usize = 0;
    while i < events.len()
        invariant
            i <= events@.len(),
            on_edge@ == spec_launches(events@, true, i as int),
            on_hop@ == spec_launches(events@, false, i as int),
        decreases events@.len() - i,
    {
        let e: WireEvent = events[i];
        let ink: Ink = launch_ink(e.homeward, e.outcome);
        match e.leg {
            Leg::Edge { client, lb } => {
                on_edge.push(Launch { from: client, to: lb, homeward: e.homeward, ink });
            },
            Leg::Server { sender, server } => {
                on_hop.push(Launch { from: sender, to: server, homeward: e.homeward, ink });
            },
        }
        i += 1;
    }
    (on_edge, on_hop)
}

/// A lifetime in seconds, to a tenth.
pub fn fmt_life(ms: u64) -> (s: String)
    ensures
        s@ == tenths_text(nearest_even(ms as nat, 100)) + " s"@,
{
    let mut s = tenths(to_nearest_even(ms, 100));
    push_text(&mut s, " s");
    s
}

/// Who is in rotation: the balancers the crowd is spread over, and the machines they ask.
#[derive(Clone, Copy, PartialEq, Eq, Structural, Debug)]
pub struct Rotation {
    pub lbs: usize,
    pub servers: usize,
}

/// What the reader, or the layout, does to the card.
#[derive(Clone, Copy, PartialEq, Eq, Structural, Debug)]
pub enum LbMsg {
    /// The run control.
    Toggle,
    /// How hard the crowd sends, how many of it there are, and how long one lives.
    Qps,
    Clients,
    Lifetime,
    /// How many balancers, and machines, are in rotation.
    Lbs(usize),
    Servers(usize),
    Speed,
    Policy,
    /// Where something was laid out.
    Stage,
    ClientDot,
    Chip,
    Server,
    /// Show the other reading.
    Metric(usize),
}

/// Whether a message is a change the timeline marks: one to the load or to who serves it. How
/// fast the clock runs and which reading is shown change nothing that happens.
pub open spec fn marks_a_change(msg: LbMsg) -> bool {
    msg is Qps || msg is Clients || msg is Lifetime || msg is Lbs || msg is Servers || msg is Policy
}

/// Whether a message moves the wires under the traffic.
pub open spec fn moves_the_wires(msg: LbMsg) -> bool {
    msg is Lbs || msg is Servers || msg is Stage || msg is ClientDot || msg is Chip || msg is Server
}

/// What the reader has set, where every client lives, and the timeline under it.
pub struct Desk {
    pub playing: bool,
    pub rotation: Rotation,
    pub homes: Vec<Option<usize>>,
    pub timeline: Timeline,
}

impl Desk {
    /// The card as it opens: at rest, with the whole fleet in rotation.
    pub fn new(rotation: Rotation, homes: Vec<Option<usize>>) -> (d: Desk)
        ensures
            !d.playing,
            d.rotation == rotation,
            d.homes == homes,
            d.timeline.wf(),
            d.timeline.samples@ == Seq::<Sample>::empty(),
            d.timeline.window@ == Seq::<Trip>::empty(),
            d.timeline.marked@ == Seq::<u64>::empty(),
            d.timeline.sampled == 0 && d.timeline.credited == 0 && d.timeline.since == 0,
            d.timeline.showing == 0 && d.timeline.axis == MS,
    {
        Desk { playing: false, rotation, homes, timeline: Timeline::new() }
    }

    /// Take a message, and say whether the wires have to be drawn again.
    pub fn turn(&mut self, msg: LbMsg) -> (relaid: bool)
        requires
            old(self).timeline.wf(),
        ensures
            final(self).timeline.wf(),
            relaid == moves_the_wires(msg),
            final(self).playing == (old(self).playing != (msg is Toggle)),
            final(self).homes == old(self).homes,
            final(self).rotation == (match msg {
                LbMsg::Lbs(n) => Rotation { lbs: n, ..old(self).rotation },
                LbMsg::Servers(n) => Rotation { servers: n, ..old(self).rotation },
                _ => old(self).rotation,
            }),
            final(self).timeline.marked@ == (if marks_a_change(msg) && !(
            old(self).timeline.marked@.len() > 0 && old(self).timeline.marked@.last()
                == old(self).timeline.sampled) {
                old(self).timeline.marked@.push(old(self).timeline.sampled)
            } else {
                old(self).timeline.marked@
            }),
            final(self).timeline.showing == (match msg {
                LbMsg::Metric(i) => i,
                _ => old(self).timeline.showing,
            }),
            final(self).timeline.axis == (match msg {
                LbMsg::Metric(i) => spec_axis_for(old(self).timeline.samples@, i),
                _ => old(self).timeline.axis,
            }),
            final(self).timeline.window@ == old(self).timeline.window@,
            final(self).timeline.samples@ == old(self).timeline.samples@,
            final(self).timeline.sampled == old(self).timeline.sampled,
            final(self).timeline.since == old(self).timeline.since,
            final(self).timeline.credited == old(self).timeline.credited,
    {
        let sampled: u64 = self.timeline.sampled;
        match msg {
            LbMsg::Toggle => {
                self.playing = !self.playing;
                false
            },
            LbMsg::Qps | LbMsg::Clients | LbMsg::Lifetime | LbMsg::Policy => {
                note(&mut self.timeline.marked, sampled);
                false
            },
            LbMsg::Lbs(n) => {
                self.rotation = Rotation { lbs: n, servers: self.rotation.servers };
                note(&mut self.timeline.marked, sampled);
                true
            },
            LbMsg::Servers(n) => {
                self.rotation = Rotation { lbs: self.rotation.lbs, servers: n };
                note(&mut self.timeline.marked, sampled);
                true
            },
            LbMsg::Speed => false,
            LbMsg::Stage | LbMsg::ClientDot | LbMsg::Chip | LbMsg::Server => true,
            LbMsg::Metric(i) => {
                self.timeline.show(i);
                false
            },
        }
    }

    /// Whether the card goes on drawing: pausing stops departures, never travel already in the
    /// air on either hop.
    pub fn drawing(&self, edges: bool, hops: bool) -> (b: bool)
        ensures
            b == (self.playing || edges || hops),
    {
        self.playing || edges || hops
    }

    /// Take where the crowd lives now, and say whether anyone's wire moved.
    pub fn rehome(&mut self, living: Vec<Option<usize>>) -> (relaid: bool)
        ensures
            relaid == (living@ != old(self).homes@),
            final(self).homes@ == living@,
            final(self).playing == old(self).playing,
            final(self).rotation == old(self).rotation,
            final(self).timeline == old(self).timeline,
    {
        let mut same: bool = living.len() == self.homes.len();
        let mut i: usize = 0;
        while same && i < living.len()
            invariant
                i <= living@.len(),
                *self == *old(self),
                same ==> living@.len() == self.homes@.len(),
                same ==> forall|j: int| 0 <= j < i ==> living@[j] == self.homes@[j],
                !same ==> living@ != self.homes@,
            decreases living@.len() - i + if same {
                1int
            } else {
                0int
            },
        {
            let here: bool = match (living[i], self.homes[i]) {
                (Some(a), Some(b)) => a == b,
                (None, None) => true,
                _ => false,
            };
            if here {
                i += 1;
            } else {
                same = false;
                assert(living@[i as int] != self.homes@[i as int]);
            }
        }
        assert(same ==> living@ =~= self.homes@);
        self.homes = living;
        !same
    }
}

/// A window that rolls keeps the newest of everything it was given: what came last stands last, and
/// only as many of the oldest are gone as there was no room for.
pub proof fn the_newest_are_kept<A>(window: Seq<A>, cap: nat, x: A)
    requires
        window.len() <= cap,
        cap > 0,
    ensures
        ({
            let after = rolled(window, cap, x);
            let ever = window.push(x);
            &&& after.last() == x
            &&& after.len() == if ever.len() <= cap {
                ever.len()
            } else {
                cap
            }
            &&& after == ever.skip(ever.len() - after.len())
        }),
{
    let after = rolled(window, cap, x);
    let ever = window.push(x);
    assert(after =~= ever.skip(ever.len() - after.len()));
}

/// Landing trips leaves the newest [`WINDOW`] of them all, in the order they were answered.
pub proof fn a_window_is_the_tail_of_everything(
    window: Seq<Trip>,
    trips: Seq<Trip>,
    from: int,
    n: int,
)
    requires
        window.len() <= WINDOW,
        0 <= from <= n <= trips.len(),
    ensures
        ({
            let ever = window + trips.subrange(from, n);
            let gone = if ever.len() <= WINDOW {
                0
            } else {
                ever.len() - WINDOW
            };
            rolled_all(window, trips, from, n) == ever.skip(gone)
        }),
    decreases n - from,
{
    let ever = window + trips.subrange(from, n);
    if n <= from {
        assert(ever.skip(0) =~= window);
    } else {
        a_window_is_the_tail_of_everything(window, trips, from, n - 1);
        let front = window + trips.subrange(from, n - 1);
        let before = rolled_all(window, trips, from, n - 1);
        the_newest_are_kept(before, WINDOW as nat, trips[n - 1]);
        assert(front.push(trips[n - 1]) =~= ever);
        let gone = if ever.len() <= WINDOW {
            0
        } else {
            ever.len() - WINDOW
        };
        assert(rolled_all(window, trips, from, n) =~= ever.skip(gone));
    }
}

/// How many trips of a window took, or waited, no longer than `x`.
pub open spec fn took_at_most(window: Seq<Trip>, x: Ticks) -> nat {
    window.filter(|t: Trip| t.total <= x).len()
}

pub open spec fn took_at_least(window: Seq<Trip>, x: Ticks) -> nat {
    window.filter(|t: Trip| t.total >= x).len()
}

pub open spec fn waited_at_most(window: Seq<Trip>, x: Ticks) -> nat {
    window.filter(|t: Trip| t.wait <= x).len()
}

pub open spec fn waited_at_least(window: Seq<Trip>, x: Ticks) -> nat {
    window.filter(|t: Trip| t.wait >= x).len()
}

proof fn counted_as_they_read(window: Seq<Trip>, x: Ticks)
    ensures
        took_at_most(window, x) == at_most(totals(window), x),
        took_at_least(window, x) == at_least(totals(window), x),
        waited_at_most(window, x) == at_most(waits(window), x),
        waited_at_least(window, x) == at_least(waits(window), x),
    decreases window.len(),
{
    reveal(Seq::filter);
    if window.len() > 0 {
        let front = window.drop_last();
        counted_as_they_read(front, x);
        assert(totals(window).drop_last() =~= totals(front));
        assert(waits(window).drop_last() =~= waits(front));
    }
}

/// Whether a reading is the one at `pc` percent: as near as whole readings come, `pc` in a hundred
/// of the others are no larger and the rest no smaller.
pub open spec fn splits(no_larger: nat, no_smaller: nat, of: nat, pc: int) -> bool {
    &&& 100 * (no_larger - 1) + 50 >= pc * (of - 1)
    &&& 100 * (no_smaller - 1) + 50 >= (100 - pc) * (of - 1)
}

proof fn a_cut_splits_its_readings(c: Seq<Ticks>, values: Seq<u64>, k: int)
    requires
        cuts(c, values),
        values.len() > 0,
        0 <= k < CUTS,
    ensures
        splits(
            at_most(values, c[k]),
            at_least(values, c[k]),
            values.len(),
            spec_cut(k).0 as int,
        ),
        values.contains(c[k]),
{
    let sorted = choose|sorted: Seq<u64>| #[trigger] cuts_by(c, values, sorted);
    let last = (values.len() - 1) as nat;
    let pc = spec_cut(k).0 as int;
    ranks_run_in_order(pc, pc, last);
    a_rank_is_near(pc, last);
    let r = rank(pc, last) as int;
    order_keeps_the_readings(values, sorted);
    a_place_splits_its_readings(values, sorted, r);
    assert(c[k] == sorted[r]);
    assert(sorted.contains(sorted[r]));
    assert((100 - pc) * last == 100 * last - pc * last) by (nonlinear_arith);
}

/// The five cuts of a sample are the quartiles, the ninetieth and the ninety-ninth: of the trips in
/// the window, a quarter took no longer than the first, half no longer than the second, and so on,
/// and the rest took no less. Each is a trip somebody took.
pub proof fn the_cuts_split_the_trips(s: Sample, window: Seq<Trip>)
    requires
        cuts(s.total@, totals(window)),
        window.len() > 0,
    ensures
        forall|k: int|
            0 <= k < 5 ==> exists|i: int|
                0 <= i < window.len() && (#[trigger] window[i]).total == #[trigger] s.total@[k],
        ({
            let n = window.len();
            let below = |k: int| took_at_most(window, s.total@[k]);
            let above = |k: int| took_at_least(window, s.total@[k]);
            &&& splits(below(0), above(0), n, 25)
            &&& splits(below(1), above(1), n, 50)
            &&& splits(below(2), above(2), n, 75)
            &&& splits(below(3), above(3), n, 90)
            &&& splits(below(4), above(4), n, 99)
        }),
{
    assert forall|k: int| 0 <= k < 5 implies exists|i: int|
        0 <= i < window.len() && (#[trigger] window[i]).total == #[trigger] s.total@[k] by {
        a_cut_splits_its_readings(s.total@, totals(window), k);
        let i = choose|i: int| 0 <= i < window.len() && totals(window)[i] == s.total@[k];
        assert(window[i].total == s.total@[k]);
    }
    a_cut_splits_its_readings(s.total@, totals(window), 0);
    a_cut_splits_its_readings(s.total@, totals(window), 1);
    a_cut_splits_its_readings(s.total@, totals(window), 2);
    a_cut_splits_its_readings(s.total@, totals(window), 3);
    a_cut_splits_its_readings(s.total@, totals(window), 4);
    counted_as_they_read(window, s.total@[0]);
    counted_as_they_read(window, s.total@[1]);
    counted_as_they_read(window, s.total@[2]);
    counted_as_they_read(window, s.total@[3]);
    counted_as_they_read(window, s.total@[4]);
}

/// The same five cuts of what the trips waited.
pub proof fn the_cuts_split_the_waiting(s: Sample, window: Seq<Trip>)
    requires
        cuts(s.wait@, waits(window)),
        window.len() > 0,
    ensures
        forall|k: int|
            0 <= k < 5 ==> exists|i: int|
                0 <= i < window.len() && (#[trigger] window[i]).wait == #[trigger] s.wait@[k],
        ({
            let n = window.len();
            let below = |k: int| waited_at_most(window, s.wait@[k]);
            let above = |k: int| waited_at_least(window, s.wait@[k]);
            &&& splits(below(0), above(0), n, 25)
            &&& splits(below(1), above(1), n, 50)
            &&& splits(below(2), above(2), n, 75)
            &&& splits(below(3), above(3), n, 90)
            &&& splits(below(4), above(4), n, 99)
        }),
{
    assert forall|k: int| 0 <= k < 5 implies exists|i: int|
        0 <= i < window.len() && (#[trigger] window[i]).wait == #[trigger] s.wait@[k] by {
        a_cut_splits_its_readings(s.wait@, waits(window), k);
        let i = choose|i: int| 0 <= i < window.len() && waits(window)[i] == s.wait@[k];
        assert(window[i].wait == s.wait@[k]);
    }
    a_cut_splits_its_readings(s.wait@, waits(window), 0);
    a_cut_splits_its_readings(s.wait@, waits(window), 1);
    a_cut_splits_its_readings(s.wait@, waits(window), 2);
    a_cut_splits_its_readings(s.wait@, waits(window), 3);
    a_cut_splits_its_readings(s.wait@, waits(window), 4);
    counted_as_they_read(window, s.wait@[0]);
    counted_as_they_read(window, s.wait@[1]);
    counted_as_they_read(window, s.wait@[2]);
    counted_as_they_read(window, s.wait@[3]);
    counted_as_they_read(window, s.wait@[4]);
}

/// A row is named for the percentile it reads and wears that percentile's colour: the one called
/// p50 draws the cut that half the readings are under, of whichever reading is shown.
pub proof fn a_row_is_named_for_its_cut(row: StripRow, samples: Seq<Sample>, metric: usize, axis: u64, k: int)
    requires
        0 <= k < CUTS,
        draws(
            row,
            spec_cut(k).1,
            line_of(samples, metric, k),
            axis,
            MS,
            " ms"@,
            rgb_text(ramp_rgb(spec_cut(k).0)),
        ),
    ensures
        ({
            let pc: u32 = if k == 0 {
                25
            } else if k == 1 {
                50
            } else if k == 2 {
                75
            } else if k == 3 {
                90
            } else {
                99
            };
            &&& row.label@ == "p"@ + digits(pc as nat)
            &&& row.ink@ == rgb_text(ramp_rgb(pc))
        }),
        forall|i: int|
            0 <= i < samples.len() ==> #[trigger] line_of(samples, metric, k)[i] == if metric == 0 {
                samples[i].total@[k]
            } else {
                samples[i].wait@[k]
            },
{
    reveal_strlit("p");
    reveal_strlit("p25");
    reveal_strlit("p50");
    reveal_strlit("p75");
    reveal_strlit("p90");
    reveal_strlit("p99");
    reveal_with_fuel(digits, 3);
    assert("p25"@ =~= "p"@ + digits(25));
    assert("p50"@ =~= "p"@ + digits(50));
    assert("p75"@ =~= "p"@ + digits(75));
    assert("p90"@ =~= "p"@ + digits(90));
    assert("p99"@ =~= "p"@ + digits(99));
}

/// The tallest is no lower than any sample's last cut, and no lower than a millisecond; and it is
/// one of them.
pub proof fn the_tallest_is_one_of_them(samples: Seq<Sample>, metric: usize, n: int, i: int)
    requires
        0 <= n <= samples.len(),
    ensures
        tallest(samples, metric, n) >= 1_000_000_000,
        0 <= i < n ==> tallest(samples, metric, n) >= samples[i].spec_of(metric)[4],
        tallest(samples, metric, n) == 1_000_000_000 || exists|k: int|
            0 <= k < n && (#[trigger] samples[k]).spec_of(metric)[4] == tallest(samples, metric, n),
    decreases n,
{
    if n > 0 {
        the_tallest_is_one_of_them(samples, metric, n - 1, i);
        let before = tallest(samples, metric, n - 1);
        if before != 1_000_000_000 {
            let k = choose|k: int|
                0 <= k < n - 1 && (#[trigger] samples[k]).spec_of(metric)[4] == before;
            assert(0 <= k < n);
        }
        if tallest(samples, metric, n) != before {
            assert(samples[n - 1].spec_of(metric)[4] == tallest(samples, metric, n));
        }
    }
}

/// The axis clears the tallest of its own metric by a twentieth, to the tick below, and is never
/// under a millisecond's.
pub proof fn the_axis_clears_the_tallest(samples: Seq<Sample>, metric: usize, i: int)
    requires
        0 <= i < samples.len(),
        forall|k: int|
            0 <= k < samples.len() ==> (#[trigger] samples[k]).spec_of(metric)[4]
                <= 0x4000_0000_0000_0000,
    ensures
        21 * samples[i].spec_of(metric)[4] < 20 * spec_axis_for(samples, metric) + 20,
        spec_axis_for(samples, metric) >= 1_050_000_000,
        spec_axis_for(samples, metric) > 1_050_000_000 ==> exists|k: int|
            0 <= k < samples.len() && 20 * spec_axis_for(samples, metric) <= 21 * (
            #[trigger] samples[k]).spec_of(metric)[4],
{
    let n = samples.len() as int;
    let top = tallest(samples, metric, n);
    the_tallest_is_one_of_them(samples, metric, n, i);
    if top != 1_000_000_000 {
        let k = choose|k: int|
            0 <= k < n && (#[trigger] samples[k]).spec_of(metric)[4] == top;
        assert(samples[k].spec_of(metric)[4] <= 0x4000_0000_0000_0000);
    }
}

/// The first metric is the trip, and any other the waiting in it; a line runs through its own cut of
/// its own metric, sample by sample.
pub proof fn a_line_is_its_metrics(samples: Seq<Sample>, metric: usize, row: int, i: int)
    requires
        0 <= i < samples.len(),
        0 <= row < 5,
    ensures
        line_of(samples, metric, row).len() == samples.len(),
        line_of(samples, metric, row)[i] == if metric == 0 {
            samples[i].total@[row]
        } else {
            samples[i].wait@[row]
        },
{
}

/// A sample is taken once a quarter of a second has gone by since the last, if anything has landed.
pub proof fn a_sample_comes_each_quarter_second(since: u64, dt: u64, window: Seq<Trip>)
    ensures
        sample_taken(since, dt, window) <==> since + dt >= 250_000 && window.len() > 0,
{
}

/// An axis goes three tenths of the way to where it should be at each sample.
pub proof fn an_axis_goes_three_tenths_of_the_way(was: int, now: int)
    ensures
        ({
            let next = crate::flow::columns::eased(was, now, follow_share());
            &&& was <= now ==> 10 * (next - was) <= 3 * (now - was) < 10 * (next - was) + 10
            &&& now <= was ==> 10 * (was - next) <= 3 * (was - now) < 10 * (was - next) + 10
        }),
{
}

/// An edge is drawn from each client that has a home to the home it has, in client order, and from
/// nobody else.
pub proof fn an_edge_is_a_clients_home(homes: Seq<Option<usize>>, n: int, e: (usize, usize))
    requires
        0 <= n <= homes.len(),
        n <= usize::MAX,
    ensures
        spec_edges(homes, n).contains(e) <==> e.0 < n && homes[e.0 as int] == Some(e.1),
        forall|i: int, j: int|
            0 <= i < j < spec_edges(homes, n).len() ==> (#[trigger] spec_edges(homes, n)[i]).0 < (
            #[trigger] spec_edges(homes, n)[j]).0,
        forall|i: int| 0 <= i < spec_edges(homes, n).len() ==> (#[trigger] spec_edges(homes, n)[i]).0 < n,
    decreases n,
{
    if n > 0 {
        an_edge_is_a_clients_home(homes, n - 1, e);
        let (before, after) = (spec_edges(homes, n - 1), spec_edges(homes, n));
        if after.len() > before.len() {
            assert(after[before.len() as int] == ((n - 1) as usize, homes[n - 1]->0));
            if before.contains(e) {
                let i = choose|i: int| 0 <= i < before.len() && before[i] == e;
                assert(after[i] == e);
            }
            if after.contains(e) && e.0 != n - 1 {
                let i = choose|i: int| 0 <= i < after.len() && after[i] == e;
                assert(before[i] == e);
            }
        }
    }
}

/// Every pair is drawn, once, in order.
pub proof fn every_pair_is_drawn_once(n: int, m: int, i: int, j: int)
    requires
        0 <= i < n,
        0 <= j < m,
    ensures
        spec_every(n, m).len() == n * m,
        0 <= i * m + j < n * m,
        spec_every(n, m)[i * m + j] == (i as usize, j as usize),
    decreases n,
{
    assert(n * m == (n - 1) * m + m) by (nonlinear_arith);
    assert(i * m <= (n - 1) * m) by (nonlinear_arith)
        requires
            i <= n - 1,
            0 <= m,
    ;
    assert(0 <= i * m) by (nonlinear_arith)
        requires
            0 <= i,
            0 <= m,
    ;
    pairs_so_far(n - 1, m);
    if i < n - 1 {
        every_pair_is_drawn_once(n - 1, m, i, j);
        assert(spec_every(n, m)[i * m + j] == spec_every(n - 1, m)[i * m + j]);
    }
}

proof fn pairs_so_far(n: int, m: int)
    requires
        0 <= n,
        0 <= m,
    ensures
        spec_every(n, m).len() == n * m,
    decreases n,
{
    if n > 0 {
        pairs_so_far(n - 1, m);
        assert(n * m == (n - 1) * m + m) by (nonlinear_arith);
    } else {
        assert(n * m == 0) by (nonlinear_arith)
            requires
                n == 0,
        ;
    }
}

/// A mark is coloured by what it carries: a request on its way out, and on its way home a refusal
/// or an answer.
pub proof fn a_mark_is_coloured_by_what_it_carries(e: WireEvent)
    ensures
        spec_ink(e) == Ink::Sent <==> !e.homeward,
        spec_ink(e) == Ink::Refusal <==> e.homeward && (e.outcome == Some(Outcome::QueueTimeout)
            || e.outcome == Some(Outcome::Rejected)),
        spec_ink(e) == Ink::Refusal || spec_ink(e) == Ink::Answer <==> e.homeward,
{
}

/// The mark that sets off where an event's leg begins.
pub open spec fn mark_of(e: WireEvent) -> Launch {
    Launch {
        from: match e.leg {
            Leg::Edge { client, .. } => client,
            Leg::Server { sender, .. } => sender,
        },
        to: match e.leg {
            Leg::Edge { lb, .. } => lb,
            Leg::Server { server, .. } => server,
        },
        homeward: e.homeward,
        ink: spec_ink(e),
    }
}

/// Each stage launches its own events' marks, in the order they happened, and no other's.
pub proof fn a_stage_launches_its_own(events: Seq<WireEvent>, n: int)
    requires
        0 <= n <= events.len(),
    ensures
        spec_launches(events, true, n) == events.take(n).filter(
            |e: WireEvent| e.leg is Edge,
        ).map_values(|e: WireEvent| mark_of(e)),
        spec_launches(events, false, n) == events.take(n).filter(
            |e: WireEvent| e.leg is Server,
        ).map_values(|e: WireEvent| mark_of(e)),
    decreases n,
{
    reveal(Seq::filter);
    if n > 0 {
        a_stage_launches_its_own(events, n - 1);
        assert(events.take(n).drop_last() =~= events.take(n - 1));
        assert(events.take(n).last() == events[n - 1]);
        let edge = events.take(n - 1).filter(|e: WireEvent| e.leg is Edge);
        let server = events.take(n - 1).filter(|e: WireEvent| e.leg is Server);
        assert(edge.push(events[n - 1]).map_values(|e: WireEvent| mark_of(e)) =~= edge.map_values(
            |e: WireEvent| mark_of(e),
        ).push(mark_of(events[n - 1])));
        assert(server.push(events[n - 1]).map_values(|e: WireEvent| mark_of(e))
            =~= server.map_values(|e: WireEvent| mark_of(e)).push(mark_of(events[n - 1])));
    } else {
        assert(events.take(0) =~= Seq::empty());
        assert(spec_launches(events, true, n) =~= events.take(n).filter(
            |e: WireEvent| e.leg is Edge,
        ).map_values(|e: WireEvent| mark_of(e)));
        assert(spec_launches(events, false, n) =~= events.take(n).filter(
            |e: WireEvent| e.leg is Server,
        ).map_values(|e: WireEvent| mark_of(e)));
    }
}

/// What marks the timeline is what changes what is measured; what only runs it, looks at it or
/// redraws it does not. What moves the wires is a different number of machines, or the stage or
/// what stands on it having moved.
pub proof fn a_mark_is_a_change_of_what_is_measured(i: usize)
    ensures
        marks_a_change(LbMsg::Qps) && marks_a_change(LbMsg::Clients) && marks_a_change(
            LbMsg::Lifetime,
        ) && marks_a_change(LbMsg::Lbs(i)) && marks_a_change(LbMsg::Servers(i)) && marks_a_change(
            LbMsg::Policy,
        ),
        !marks_a_change(LbMsg::Toggle) && !marks_a_change(LbMsg::Speed) && !marks_a_change(
            LbMsg::Metric(i),
        ),
        forall|msg: LbMsg| #[trigger]
            moves_the_wires(msg) && marks_a_change(msg) ==> msg is Lbs || msg is Servers,
        moves_the_wires(LbMsg::Lbs(i)) && moves_the_wires(LbMsg::Servers(i)) && moves_the_wires(
            LbMsg::Stage,
        ) && moves_the_wires(LbMsg::ClientDot) && moves_the_wires(LbMsg::Chip) && moves_the_wires(
            LbMsg::Server,
        ),
        !moves_the_wires(LbMsg::Toggle) && !moves_the_wires(LbMsg::Speed) && !moves_the_wires(
            LbMsg::Metric(i),
        ) && !moves_the_wires(LbMsg::Clients) && !moves_the_wires(LbMsg::Lifetime),
{
}

} // verus!
