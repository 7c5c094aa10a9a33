//! A column's reading: the mean trip in a band of percentiles, and whether its own runs agree.

use std::collections::VecDeque;

use vstd::prelude::*;

use crate::engine::clock::Ticks;
use crate::order::{
    a_run_counts_whole, order_keeps_the_readings, put_in_order, puts_in_order,
    same_readings_count_alike, Keyed,
};
use crate::text::nearest_up;

verus! {

/// How many phases a trip is cut into.
pub const PHASE_COUNT: usize = 4;

/// How far either side of the dial a reading is drawn from.
pub const BAND_PC: u32 = 5;

/// How many runs a window is split into to read its own noise. Trouble comes in bursts, so the
/// spread that means anything is between stretches of time.
pub const GIVE_RUNS: usize = 8;

/// A round trip as a column reads it: what it cost and where the time went.
#[derive(Clone, Copy)]
pub struct Felt {
    pub total: Ticks,
    pub phases: [Ticks; 4],
}

/// The longest trip whose spread the machine can square.
pub const LONGEST_TRIP: u64 = 0x400_0000_0000_0000;

impl Felt {
    /// No part of it is longer than the longest trip.
    pub open spec fn fits(self) -> bool {
        &&& self.total <= LONGEST_TRIP
        &&& forall|p: int| 0 <= p < PHASE_COUNT ==> #[trigger] self.phases@[p] <= LONGEST_TRIP
    }

    /// The phases are the parts of the trip.
    pub open spec fn whole(self) -> bool {
        self.phases@[0] + self.phases@[1] + self.phases@[2] + self.phases@[3] == self.total
    }
}

/// A mean trip, kept as its sums and how many trips they are over, so that nothing is lost to
/// rounding.
pub struct Reading {
    pub total: u128,
    pub phases: Vec<u128>,
    pub trips: u64,
}

/// What some trips cost together.
pub open spec fn total_of(trips: Seq<Felt>) -> int
    decreases trips.len(),
{
    if trips.len() == 0 {
        0
    } else {
        total_of(trips.drop_last()) + trips.last().total
    }
}

/// What some trips spent in one phase together.
pub open spec fn phase_of(trips: Seq<Felt>, p: int) -> int
    decreases trips.len(),
{
    if trips.len() == 0 {
        0
    } else {
        phase_of(trips.drop_last(), p) + trips.last().phases@[p]
    }
}

/// Whether a reading is the mean of these trips.
pub open spec fn is_mean(r: Reading, trips: Seq<Felt>) -> bool {
    &&& r.trips == trips.len()
    &&& r.total == total_of(trips)
    &&& r.phases@.len() == PHASE_COUNT
    &&& forall|p: int| 0 <= p < PHASE_COUNT ==> #[trigger] r.phases@[p] == phase_of(trips, p)
}

/// A trip's place in a ranking by cost; of two that cost the same, the earlier comes first.
#[derive(Clone, Copy, PartialEq, Eq, Structural, Debug)]
pub struct Ranked {
    pub total: Ticks,
    pub index: usize,
}

impl Keyed for Ranked {
    open spec fn key(self) -> int {
        self.total * 0x1_0000_0000_0000_0000 + self.index
    }

    fn no_later(&self, other: &Self) -> (b: bool) {
        self.total < other.total || self.total == other.total && self.index <= other.index
    }
}

/// The trips, each with its place in the window.
pub open spec fn ranked(trips: Seq<Felt>) -> Seq<Ranked> {
    Seq::new(trips.len(), |i: int| Ranked { total: trips[i].total, index: i as usize })
}

/// The place a percentile names among places `0..=last`, to the nearest; past either end of the
/// scale is that end.
pub open spec fn rank(pc: int, last: nat) -> nat {
    nearest_up(
        (if pc < 0 {
            0
        } else if pc > 100 {
            100
        } else {
            pc
        } * last) as nat,
        100,
    )
}

/// The trips from place `lo` to place `hi` of a ranking.
pub open spec fn picked(trips: Seq<Felt>, sorted: Seq<Ranked>, lo: int, hi: int) -> Seq<Felt> {
    Seq::new((hi - lo + 1) as nat, |i: int| trips[sorted[lo + i].index as int])
}

/// Whether a reading is the mean trip in the band around `pc`, by this ranking.
pub open spec fn cut_by(r: Reading, trips: Seq<Felt>, pc: int, sorted: Seq<Ranked>) -> bool {
    let last = (trips.len() - 1) as nat;
    &&& puts_in_order(ranked(trips), sorted)
    &&& is_mean(
        r,
        picked(trips, sorted, rank(pc - BAND_PC, last) as int, rank(pc + BAND_PC, last) as int),
    )
}

/// Whether a reading is the mean trip in the band around `pc`: one set of trips for every phase,
/// since means over different sets do not add up to a trip anyone took.
pub open spec fn is_cut(r: Reading, trips: Seq<Felt>, pc: int) -> bool {
    exists|sorted: Seq<Ranked>| #[trigger] cut_by(r, trips, pc, sorted)
}

/// A percentile further along names a place no earlier, and every place it names is one of them.
pub proof fn ranks_run_in_order(pc: int, further: int, last: nat)
    requires
        pc <= further,
    ensures
        0 <= rank(pc, last) <= rank(further, last) <= last,
{
    let a = if pc < 0 {
        0
    } else if pc > 100 {
        100
    } else {
        pc
    };
    let b = if further < 0 {
        0
    } else if further > 100 {
        100
    } else {
        further
    };
    assert(0 <= a * last <= b * last <= 100 * last) by (nonlinear_arith)
        requires
            0 <= a <= b <= 100,
    ;
}

/// The place a percentile names.
pub fn place(pc: u32, last: usize) -> (i: usize)
    requires
        pc <= 100,
    ensures
        i == rank(pc as int, last as nat),
{
    assert(0 <= pc * last <= 100 * last) by (nonlinear_arith)
        requires
            pc <= 100,
    ;
    assert(pc as u128 * last as u128 == pc * last) by (nonlinear_arith);
    let scaled: u128 = pc as u128 * last as u128;
    let (whole, rest): (u128, u128) = (scaled / 100, scaled % 100);
    let at: u128 = if 2 * rest >= 100 {
        whole + 1
    } else {
        whole
    };
    proof {
        ranks_run_in_order(pc as int, pc as int, last as nat);
    }
    at as usize
}

proof fn sums_are_bounded(trips: Seq<Felt>, p: int)
    requires
        0 <= p < PHASE_COUNT,
    ensures
        0 <= total_of(trips) <= trips.len() * u64::MAX,
        0 <= phase_of(trips, p) <= trips.len() * u64::MAX,
    decreases trips.len(),
{
    if trips.len() > 0 {
        sums_are_bounded(trips.drop_last(), p);
        assert((trips.len() - 1) * u64::MAX + u64::MAX == trips.len() * u64::MAX)
            by (nonlinear_arith);
    }
}

/// Whether a reading is over some trips, none of them longer than the longest.
pub open spec fn squarable(r: Reading) -> bool {
    &&& r.trips > 0
    &&& r.total <= r.trips * LONGEST_TRIP
    &&& r.phases@.len() == PHASE_COUNT
    &&& forall|p: int| 0 <= p < PHASE_COUNT ==> #[trigger] r.phases@[p] <= r.trips * LONGEST_TRIP
}

proof fn sums_stay_short(trips: Seq<Felt>, p: int)
    requires
        0 <= p < PHASE_COUNT,
        forall|i: int| 0 <= i < trips.len() ==> (#[trigger] trips[i]).fits(),
    ensures
        total_of(trips) <= trips.len() * LONGEST_TRIP,
        phase_of(trips, p) <= trips.len() * LONGEST_TRIP,
    decreases trips.len(),
{
    if trips.len() > 0 {
        let front = trips.drop_last();
        assert forall|i: int| 0 <= i < front.len() implies (#[trigger] front[i]).fits() by {
            assert(trips[i].fits());
        }
        sums_stay_short(front, p);
        assert(trips[trips.len() - 1].fits());
        assert(trips.last().phases@[p] <= LONGEST_TRIP);
        assert((trips.len() - 1) * LONGEST_TRIP + LONGEST_TRIP == trips.len() * LONGEST_TRIP)
            by (nonlinear_arith);
    }
}

/// A band of trips none of which is longer than the longest has no mean that is.
pub proof fn a_cut_stays_short(r: Reading, trips: Seq<Felt>, pc: int)
    requires
        is_cut(r, trips, pc),
        trips.len() > 0,
        forall|i: int| 0 <= i < trips.len() ==> (#[trigger] trips[i]).fits(),
    ensures
        squarable(r),
{
    let band = a_band_is_drawn_from_its_window(r, trips, pc);
    assert forall|i: int| 0 <= i < band.len() implies (#[trigger] band[i]).fits() by {
        assert(trips.contains(band[i]));
        let k = choose|k: int| 0 <= k < trips.len() && trips[k] == band[i];
        assert(trips[k].fits());
    }
    assert forall|p: int| 0 <= p < PHASE_COUNT implies #[trigger] r.phases@[p] <= r.trips
        * LONGEST_TRIP by {
        sums_stay_short(band, p);
    }
    sums_stay_short(band, 0);
}

/// The mean trip in the band a dial names, over the trips from `from` to `to` of a window; nothing
/// where there are none.
pub fn cut(window: &Vec<Felt>, from: usize, to: usize, pc: u32) -> (r: Option<Reading>)
    requires
        from <= to <= window@.len(),
        pc <= 100,
    ensures
        r is None <==> from == to,
        r matches Some(r) ==> is_cut(r, window@.subrange(from as int, to as int), pc as int),
{
    if from == to {
        return None;
    }
    let ghost trips = window@.subrange(from as int, to as int);
    let mut places: Vec<Ranked> = Vec::new();
    let mut i: usize = from;
    while i < to
        invariant
            from <= i <= to <= window@.len(),
            trips == window@.subrange(from as int, to as int),
            places@.len() == i - from,
            forall|j: int| 0 <= j < i - from ==> #[trigger] places@[j] == ranked(trips)[j],
        decreases to - i,
    {
        assert(trips[i - from] == window@[i as int]);
        places.push(Ranked { total: window[i].total, index: i - from });
        i += 1;
    }
    assert(places@ =~= ranked(trips));
    let sorted = put_in_order(&places);
    let last: usize = to - from - 1;
    let lo: usize = if pc > BAND_PC {
        place(pc - BAND_PC, last)
    } else {
        0
    };
    let hi: usize = if pc < 100 - BAND_PC {
        place(pc + BAND_PC, last)
    } else {
        last
    };
    proof {
        ranks_run_in_order(pc - BAND_PC, pc + BAND_PC, last as nat);
        assert(0 * last == 0) by (nonlinear_arith);
        assert(nearest_up((100 * last) as nat, 100) == last);
        assert(lo == rank(pc - BAND_PC, last as nat));
        assert(hi == rank(pc + BAND_PC, last as nat));
    }
    let ghost band = picked(trips, sorted@, lo as int, hi as int);
    let mut total: u128 = 0;
    let mut a: u128 = 0;
    let mut b: u128 = 0;
    let mut c: u128 = 0;
    let mut d: u128 = 0;
    let end: usize = hi + 1;
    let mut i: usize = lo;
    assert(band.take(0) =~= Seq::empty());
    while i < end
        invariant
            lo <= i <= end,
            end == hi + 1,
            hi <= last,
            last == to - from - 1,
            from <= to <= window@.len(),
            trips == window@.subrange(from as int, to as int),
            puts_in_order(ranked(trips), sorted@),
            sorted@.len() == trips.len(),
            band == picked(trips, sorted@, lo as int, hi as int),
            total == total_of(band.take(i - lo)),
            a == phase_of(band.take(i - lo), 0),
            b == phase_of(band.take(i - lo), 1),
            c == phase_of(band.take(i - lo), 2),
            d == phase_of(band.take(i - lo), 3),
        decreases end - i,
    {
        proof {
            order_keeps_the_readings(ranked(trips), sorted@);
            assert(sorted@.contains(sorted@[i as int]));
            assert(ranked(trips).contains(sorted@[i as int]));
        }
        let felt: Felt = window[from + sorted[i].index];
        proof {
            assert(band[i - lo] == felt);
            assert(band.take(i - lo + 1).drop_last() =~= band.take(i - lo));
            let sofar = band.take(i - lo);
            sums_are_bounded(sofar, 0);
            sums_are_bounded(sofar, 1);
            sums_are_bounded(sofar, 2);
            sums_are_bounded(sofar, 3);
            assert(sofar.len() * u64::MAX + u64::MAX <= u128::MAX) by (nonlinear_arith)
                requires
                    sofar.len() <= u64::MAX,
            ;
        }
        total = total + felt.total as u128;
        a = a + felt.phases[0] as u128;
        b = b + felt.phases[1] as u128;
        c = c + felt.phases[2] as u128;
        d = d + felt.phases[3] as u128;
        i += 1;
    }
    assert(band.take(band.len() as int) =~= band);
    let phases: Vec<u128> = vec![a, b, c, d];
    let r = Reading { total, phases, trips: (end - lo) as u64 };
    proof {
        assert(is_mean(r, band));
        assert(cut_by(r, trips, pc as int, sorted@));
    }
    Some(r)
}

/// A column's reading with its own noise beside it: the band's mean over the whole window, and the
/// same cut over each run of it.
pub struct Band {
    pub mean: Reading,
    pub runs: Vec<Reading>,
}

/// How long each run of a window is.
pub open spec fn run_len(n: int) -> int {
    (n + GIVE_RUNS - 1) / (GIVE_RUNS as int)
}

/// Where the `i`th run of a window ends.
pub open spec fn run_end(n: int, i: int) -> int {
    if (i + 1) * run_len(n) < n {
        (i + 1) * run_len(n)
    } else {
        n
    }
}

/// Whether a band reads a window at `pc`: the window whole, and run by run.
pub open spec fn reads(b: Band, window: Seq<Felt>, pc: int) -> bool {
    let n = window.len() as int;
    &&& is_cut(b.mean, window, pc)
    &&& (b.runs@.len() - 1) * run_len(n) < n <= b.runs@.len() * run_len(n)
    &&& forall|i: int|
        0 <= i < b.runs@.len() ==> is_cut(
            #[trigger] b.runs@[i],
            window.subrange(i * run_len(n), run_end(n, i)),
            pc,
        )
}

/// The reading at `pc` of what a column earned; nothing where it has earned nothing.
pub fn band(window: &VecDeque<Felt>, pc: u32) -> (b: Option<Band>)
    requires
        pc <= 100,
    ensures
        b is None <==> window@.len() == 0,
        b matches Some(b) ==> reads(b, window@, pc as int),
{
    let mut all: Vec<Felt> = Vec::new();
    let mut i: usize = 0;
    while i < window.len()
        invariant
            i <= window@.len(),
            all@ == window@.take(i as int),
        decreases window@.len() - i,
    {
        all.push(window[i]);
        i += 1;
        assert(all@ =~= window@.take(i as int));
    }
    assert(window@.take(window@.len() as int) =~= window@);
    let n: usize = all.len();
    if n == 0 {
        return None;
    }
    let mean: Reading = match cut(&all, 0, n, pc) {
        Some(mean) => mean,
        None => {
            return None;
        },
    };
    assert(all@.subrange(0, n as int) =~= all@);
    let run: usize = (n - 1) / 8 + 1;
    assert(run == run_len(n as int));
    let mut runs: Vec<Reading> = Vec::new();
    let mut from: usize = 0;
    assert(0 * run == 0) by (nonlinear_arith);
    while from < n
        invariant
            from <= n,
            n == all@.len(),
            0 < n,
            pc <= 100,
            all@ == window@,
            run == run_len(n as int),
            0 < run <= n,
            runs@.len() * run == from || from == n,
            from == n ==> (runs@.len() - 1) * run < n <= runs@.len() * run,
            forall|i: int|
                0 <= i < runs@.len() ==> is_cut(
                    #[trigger] runs@[i],
                    window@.subrange(i * run, run_end(n as int, i)),
                    pc as int,
                ),
        decreases n - from,
    {
        let ghost k = runs@.len() as int;
        let to: usize = if n - from > run {
            from + run
        } else {
            n
        };
        proof {
            assert((k + 1) * run == k * run + run) by (nonlinear_arith);
            assert(k * run == from);
            assert(to == run_end(n as int, k));
        }
        if let Some(one) = cut(&all, from, to, pc) {
            assert(is_cut(one, window@.subrange(k * run, run_end(n as int, k)), pc as int));
            runs.push(one);
        }
        from = to;
    }
    Some(Band { mean, runs })
}

/// The phases of a band still add up to its trip, wherever those of each trip do.
pub proof fn a_bands_phases_add_up_to_its_trip(r: Reading, trips: Seq<Felt>)
    requires
        is_mean(r, trips),
        forall|i: int| 0 <= i < trips.len() ==> (#[trigger] trips[i]).whole(),
    ensures
        r.phases@[0] + r.phases@[1] + r.phases@[2] + r.phases@[3] == r.total,
{
    parts_sum(trips);
}

proof fn parts_sum(trips: Seq<Felt>)
    requires
        forall|i: int| 0 <= i < trips.len() ==> (#[trigger] trips[i]).whole(),
    ensures
        phase_of(trips, 0) + phase_of(trips, 1) + phase_of(trips, 2) + phase_of(trips, 3)
            == total_of(trips),
    decreases trips.len(),
{
    if trips.len() > 0 {
        let front = trips.drop_last();
        assert forall|i: int| 0 <= i < front.len() implies (#[trigger] front[i]).whole() by {
            assert(trips[i].whole());
        }
        parts_sum(front);
        assert(trips[trips.len() - 1].whole());
    }
}

/// Where every trip of a window is the same trip, a reading of any of them is that trip over and
/// over.
pub proof fn a_steady_mean_is_its_trip(r: Reading, trips: Seq<Felt>, one: Felt, p: int)
    requires
        is_mean(r, trips),
        0 <= p < PHASE_COUNT,
        forall|i: int| 0 <= i < trips.len() ==> #[trigger] trips[i] == one,
    ensures
        r.total == r.trips * one.total,
        r.phases@[p] == r.trips * one.phases@[p],
{
    steady_sums(trips, one, p);
}

proof fn steady_sums(trips: Seq<Felt>, one: Felt, p: int)
    requires
        forall|i: int| 0 <= i < trips.len() ==> #[trigger] trips[i] == one,
    ensures
        total_of(trips) == trips.len() * one.total,
        phase_of(trips, p) == trips.len() * one.phases@[p],
    decreases trips.len(),
{
    let n = trips.len() as int;
    if trips.len() > 0 {
        let front = trips.drop_last();
        assert forall|i: int| 0 <= i < front.len() implies #[trigger] front[i] == one by {
            assert(trips[i] == one);
        }
        steady_sums(front, one, p);
        assert(trips[n - 1] == one);
    }
    assert((n - 1) * one.total + one.total == n * one.total) by (nonlinear_arith);
    assert((n - 1) * one.phases@[p] + one.phases@[p] == n * one.phases@[p]) by (nonlinear_arith);
    assert(n == 0 ==> n * one.total == 0 && n * one.phases@[p] == 0) by (nonlinear_arith);
}

/// Every trip a band is drawn from is one of the window's.
pub proof fn a_band_is_drawn_from_its_window(r: Reading, trips: Seq<Felt>, pc: int) -> (band: Seq<
    Felt,
>)
    requires
        is_cut(r, trips, pc),
        trips.len() > 0,
    ensures
        is_mean(r, band),
        band.len() > 0,
        forall|i: int| 0 <= i < band.len() ==> trips.contains(#[trigger] band[i]),
{
    let sorted = choose|sorted: Seq<Ranked>| #[trigger] cut_by(r, trips, pc, sorted);
    let last = (trips.len() - 1) as nat;
    ranks_run_in_order(pc - BAND_PC, pc + BAND_PC, last);
    order_keeps_the_readings(ranked(trips), sorted);
    let (lo, hi) = (rank(pc - BAND_PC, last) as int, rank(pc + BAND_PC, last) as int);
    let band = picked(trips, sorted, lo, hi);
    assert forall|i: int| 0 <= i < band.len() implies trips.contains(#[trigger] band[i]) by {
        assert(sorted.contains(sorted[lo + i]));
        assert(ranked(trips).contains(sorted[lo + i]));
        let j = choose|j: int| 0 <= j < trips.len() && ranked(trips)[j] == sorted[lo + i];
        assert(band[i] == trips[sorted[lo + i].index as int]);
    }
    band
}

/// A window of trips none of which is longer than the longest has no reading that is, whole or run
/// by run, and no more runs than it is split into.
pub proof fn a_band_stays_short(b: Band, window: Seq<Felt>, pc: int)
    requires
        reads(b, window, pc),
        window.len() > 0,
        forall|i: int| 0 <= i < window.len() ==> (#[trigger] window[i]).fits(),
    ensures
        squarable(b.mean),
        b.runs@.len() <= GIVE_RUNS,
        forall|i: int| 0 <= i < b.runs@.len() ==> squarable(#[trigger] b.runs@[i]),
{
    let (n, k) = (window.len() as int, b.runs@.len() as int);
    let run = run_len(n);
    a_cut_stays_short(b.mean, window, pc);
    assert(k <= 8) by (nonlinear_arith)
        requires
            (k - 1) * run < n,
            n <= 8 * run,
            run > 0,
    ;
    assert forall|i: int| 0 <= i < k implies squarable(#[trigger] b.runs@[i]) by {
        assert(0 <= i * run < n) by (nonlinear_arith)
            requires
                0 <= i <= k - 1,
                run > 0,
                (k - 1) * run < n,
        ;
        assert((i + 1) * run == i * run + run) by (nonlinear_arith);
        let part = window.subrange(i * run, run_end(n, i));
        assert forall|j: int| 0 <= j < part.len() implies (#[trigger] part[j]).fits() by {
            assert(window[i * run + j].fits());
        }
        a_cut_stays_short(b.runs@[i], part, pc);
    }
}

/// The place a percentile names is within half a place of that share of the way to the last.
pub proof fn a_rank_is_near(pc: int, last: nat)
    requires
        0 <= pc <= 100,
    ensures
        100 * rank(pc, last) <= pc * last + 50,
        pc * last < 100 * rank(pc, last) + 50,
{
    assert(0 <= pc * last) by (nonlinear_arith)
        requires
            0 <= pc,
            0 <= last,
    ;
}

/// A band is the places from five percent under the dial to five percent over it, each end to the
/// nearest place; and as many trips as there are places.
pub proof fn a_band_is_five_percent_either_way(r: Reading, trips: Seq<Felt>, pc: int)
    requires
        is_cut(r, trips, pc),
        trips.len() > 0,
        5 <= pc <= 95,
    ensures
        ({
            let last = trips.len() - 1;
            &&& 1 <= r.trips <= trips.len()
            &&& 100 * (r.trips - 1) <= 10 * last + 100
            &&& 10 * last <= 100 * (r.trips - 1) + 100
        }),
{
    let sorted = choose|sorted: Seq<Ranked>| #[trigger] cut_by(r, trips, pc, sorted);
    let last = (trips.len() - 1) as nat;
    ranks_run_in_order(pc - 5, pc + 5, last);
    a_rank_is_near(pc - 5, last);
    a_rank_is_near(pc + 5, last);
    assert((pc + 5) * last - (pc - 5) * last == 10 * last) by (nonlinear_arith);
}

proof fn the_least_of_a_band(trips: Seq<Felt>, low: int, high: int)
    requires
        forall|i: int| 0 <= i < trips.len() ==> low <= (#[trigger] trips[i]).total <= high,
    ensures
        low * trips.len() <= total_of(trips) <= high * trips.len(),
    decreases trips.len(),
{
    if trips.len() > 0 {
        let front = trips.drop_last();
        assert forall|i: int| 0 <= i < front.len() implies low <= (#[trigger] front[i]).total
            <= high by {
            assert(low <= trips[i].total <= high);
        }
        the_least_of_a_band(front, low, high);
        assert(low <= trips[trips.len() - 1].total <= high);
        assert(low * trips.len() == low * front.len() + low) by (nonlinear_arith)
            requires
                trips.len() == front.len() + 1,
        ;
        assert(high * trips.len() == high * front.len() + high) by (nonlinear_arith)
            requires
                trips.len() == front.len() + 1,
        ;
    } else {
        assert(low * trips.len() == 0 && high * trips.len() == 0) by (nonlinear_arith)
            requires
                trips.len() == 0,
        ;
    }
}

/// How many trips took at most so long.
pub open spec fn no_longer(trips: Seq<Felt>, x: Ticks) -> nat {
    trips.filter(|f: Felt| f.total <= x).len()
}

/// How many trips took at least so long.
pub open spec fn no_shorter(trips: Seq<Felt>, x: Ticks) -> nat {
    trips.filter(|f: Felt| f.total >= x).len()
}

proof fn the_ranking_counts_the_trips(trips: Seq<Felt>, x: Ticks)
    requires
        trips.len() <= usize::MAX,
    ensures
        no_longer(trips, x) == ranked(trips).filter(|r: Ranked| r.total <= x).len(),
        no_shorter(trips, x) == ranked(trips).filter(|r: Ranked| r.total >= x).len(),
    decreases trips.len(),
{
    reveal(Seq::filter);
    if trips.len() > 0 {
        the_ranking_counts_the_trips(trips.drop_last(), x);
        assert(ranked(trips).drop_last() =~= ranked(trips.drop_last()));
        assert(ranked(trips).last().total == trips.last().total);
    }
}

proof fn no_higher(a: Ranked, b: Ranked)
    requires
        a.key() <= b.key(),
    ensures
        a.total <= b.total,
{
}

proof fn a_place_splits_the_trips(trips: Seq<Felt>, sorted: Seq<Ranked>, k: int)
    requires
        puts_in_order(ranked(trips), sorted),
        trips.len() <= usize::MAX,
        0 <= k < sorted.len(),
    ensures
        no_longer(trips, sorted[k].total) >= k + 1,
        no_shorter(trips, sorted[k].total) >= trips.len() - k,
{
    let x = sorted[k].total;
    let (low, high) = (|r: Ranked| r.total <= x, |r: Ranked| r.total >= x);
    order_keeps_the_readings(ranked(trips), sorted);
    the_ranking_counts_the_trips(trips, x);
    same_readings_count_alike(ranked(trips), sorted, low);
    same_readings_count_alike(ranked(trips), sorted, high);
    assert forall|i: int| 0 <= i < k + 1 implies low(#[trigger] sorted.take(k + 1)[i]) by {
        assert(sorted[i].key() <= sorted[k].key());
        no_higher(sorted[i], sorted[k]);
    }
    assert forall|i: int| 0 <= i < sorted.len() - k implies high(#[trigger] sorted.skip(k)[i]) by {
        assert(sorted[k].key() <= sorted[k + i].key());
        no_higher(sorted[k], sorted[k + i]);
    }
    a_run_counts_whole(sorted.take(k + 1), low);
    a_run_counts_whole(sorted.skip(k), high);
    assert(sorted =~= sorted.take(k + 1) + sorted.skip(k + 1));
    Seq::filter_distributes_over_add(sorted.take(k + 1), sorted.skip(k + 1), low);
    assert(sorted =~= sorted.take(k) + sorted.skip(k));
    Seq::filter_distributes_over_add(sorted.take(k), sorted.skip(k), high);
}

/// A band sits where its dial points: its mean lies between the trip five percent under the dial
/// and the trip five percent over it, each of which splits the window's trips, by how long they
/// took, at its own percentile.
pub proof fn a_band_sits_at_its_percentile(r: Reading, trips: Seq<Felt>, pc: int) -> (ends: (
    Ticks,
    Ticks,
))
    requires
        is_cut(r, trips, pc),
        0 < trips.len() <= usize::MAX,
        5 <= pc <= 95,
    ensures
        ends.0 * r.trips <= r.total <= ends.1 * r.trips,
        100 * no_longer(trips, ends.0) >= (pc - 5) * (trips.len() - 1) + 50,
        100 * no_shorter(trips, ends.0) >= 100 * trips.len() - (pc - 5) * (trips.len() - 1) - 50,
        100 * no_longer(trips, ends.1) >= (pc + 5) * (trips.len() - 1) + 50,
        100 * no_shorter(trips, ends.1) >= 100 * trips.len() - (pc + 5) * (trips.len() - 1) - 50,
{
    let sorted = choose|sorted: Seq<Ranked>| #[trigger] cut_by(r, trips, pc, sorted);
    let last = (trips.len() - 1) as nat;
    let (lo, hi) = (rank(pc - 5, last) as int, rank(pc + 5, last) as int);
    ranks_run_in_order(pc - 5, pc + 5, last);
    a_rank_is_near(pc - 5, last);
    a_rank_is_near(pc + 5, last);
    order_keeps_the_readings(ranked(trips), sorted);
    a_place_splits_the_trips(trips, sorted, lo);
    a_place_splits_the_trips(trips, sorted, hi);
    let band = picked(trips, sorted, lo, hi);
    assert forall|i: int| 0 <= i < band.len() implies sorted[lo].total <= (
    #[trigger] band[i]).total <= sorted[hi].total by {
        let one = sorted[lo + i];
        assert(sorted.contains(one));
        assert(ranked(trips).contains(one));
        let k = choose|k: int| 0 <= k < trips.len() && ranked(trips)[k] == one;
        assert(one == Ranked { total: trips[k].total, index: k as usize });
        assert(sorted[lo].key() <= one.key() <= sorted[hi].key());
        no_higher(sorted[lo], one);
        no_higher(one, sorted[hi]);
    }
    the_least_of_a_band(band, sorted[lo].total as int, sorted[hi].total as int);
    (sorted[lo].total, sorted[hi].total)
}

/// A window is read in eight runs, of as many trips each, but for what the last has to make do
/// with: an eighth of the window, rounded up.
pub proof fn a_window_is_read_in_eight_runs(n: int)
    requires
        n >= 0,
    ensures
        8 * run_len(n) >= n,
        n > 0 ==> 8 * (run_len(n) - 1) < n,
        forall|i: int| 0 <= i && #[trigger] run_end(n, i) < n ==> run_end(n, i) == (i + 1) * run_len(n),
{
}

} // verus!
