//! How sure a reading is of itself: the standard error of each phase, from the spread of one cut
//! across the runs of a window.

use vstd::prelude::*;

use crate::engine::clock::Ticks;
use crate::flow::band::{
    a_band_is_drawn_from_its_window, a_steady_mean_is_its_trip, reads, run_end, run_len, squarable,
    Band, Felt, Reading, GIVE_RUNS, LONGEST_TRIP, PHASE_COUNT,
};

verus! {

/// A run's mean in one phase, in whole ticks.
pub open spec fn mean_in(r: Reading, p: int) -> int {
    r.phases@[p] as int / r.trips as int
}

/// What the first `n` runs' means in a phase come to.
pub open spec fn mean_sum(runs: Seq<Reading>, p: int, n: int) -> int
    decreases n,
{
    if n <= 0 {
        0
    } else {
        mean_sum(runs, p, n - 1) + mean_in(runs[n - 1], p)
    }
}

/// What the squares of the first `n` runs' means in a phase come to.
pub open spec fn square_sum(runs: Seq<Reading>, p: int, n: int) -> int
    decreases n,
{
    if n <= 0 {
        0
    } else {
        square_sum(runs, p, n - 1) + mean_in(runs[n - 1], p) * mean_in(runs[n - 1], p)
    }
}

/// How far the means in a phase stand from their own mean: the squares of those distances, summed,
/// and as many times over as there are runs.
pub open spec fn spread(runs: Seq<Reading>, p: int) -> int {
    let k = runs.len() as int;
    k * square_sum(runs, p, k) - mean_sum(runs, p, k) * mean_sum(runs, p, k)
}

/// How many times over the squared standard error of `k` runs the spread is.
pub open spec fn over(k: int) -> int {
    k * k * (k - 1)
}

/// Whether `g` is the standard error of a phase's reading, to the tick below. Fewer than two runs
/// have no spread to read, which is no give rather than none needed.
pub open spec fn is_give(g: int, runs: Seq<Reading>, p: int) -> bool {
    if runs.len() < 2 {
        g == 0
    } else {
        &&& 0 <= g
        &&& g * g * over(runs.len() as int) <= spread(runs, p)
        &&& spread(runs, p) < (g + 1) * (g + 1) * over(runs.len() as int)
    }
}

/// The sum of the squared distances of the first `n` means from `x`.
proof fn distances_are_no_debt(runs: Seq<Reading>, p: int, n: int, x: int)
    requires
        n >= 0,
    ensures
        square_sum(runs, p, n) - 2 * x * mean_sum(runs, p, n) + n * (x * x) >= 0,
    decreases n,
{
    if n > 0 {
        distances_are_no_debt(runs, p, n - 1, x);
        let y = mean_in(runs[n - 1], p);
        let (q, s) = (square_sum(runs, p, n - 1), mean_sum(runs, p, n - 1));
        assert(q + y * y - 2 * x * (s + y) + n * (x * x) == q - 2 * x * s + (n - 1) * (x * x) + (y
            - x) * (y - x)) by (nonlinear_arith);
        assert((y - x) * (y - x) >= 0) by (nonlinear_arith);
    } else {
        assert(2 * x * 0 == 0 && 0 * (x * x) == 0) by (nonlinear_arith);
    }
}

/// No spread is less than none.
proof fn a_spread_is_no_debt(runs: Seq<Reading>, p: int, n: int)
    requires
        n >= 0,
    ensures
        n * square_sum(runs, p, n) - mean_sum(runs, p, n) * mean_sum(runs, p, n) >= 0,
    decreases n,
{
    if n > 0 {
        a_spread_is_no_debt(runs, p, n - 1);
        let x = mean_in(runs[n - 1], p);
        distances_are_no_debt(runs, p, n - 1, x);
        let (q, s) = (square_sum(runs, p, n - 1), mean_sum(runs, p, n - 1));
        assert(n * (q + x * x) - (s + x) * (s + x) == ((n - 1) * q - s * s) + (q - 2 * x * s + (n
            - 1) * (x * x))) by (nonlinear_arith);
    }
}

/// The means' sums stay within what the machine can hold.
proof fn sums_fit(runs: Seq<Reading>, p: int, n: int)
    requires
        0 <= n <= runs.len() <= GIVE_RUNS,
        0 <= p < PHASE_COUNT,
        forall|i: int| 0 <= i < runs.len() ==> squarable(#[trigger] runs[i]),
    ensures
        0 <= mean_sum(runs, p, n) <= n * LONGEST_TRIP,
        0 <= square_sum(runs, p, n) <= n * (LONGEST_TRIP * LONGEST_TRIP),
        n > 0 ==> 0 <= mean_in(runs[n - 1], p) <= LONGEST_TRIP,
    decreases n,
{
    if n > 0 {
        sums_fit(runs, p, n - 1);
        let r = runs[n - 1];
        assert(squarable(r));
        let (a, t, x) = (r.phases@[p] as int, r.trips as int, mean_in(r, p));
        let most: int = 0x400_0000_0000_0000;
        assert(0 <= x <= most) by (nonlinear_arith)
            requires
                0 <= a <= t * most,
                t > 0,
                x == a / t,
        ;
        assert(0 <= x * x <= most * most) by (nonlinear_arith)
            requires
                0 <= x <= most,
        ;
        assert(n * most == (n - 1) * most + most && n * (most * most) == (n - 1) * (most * most)
            + most * most) by (nonlinear_arith);
    }
}

/// The standard error of a phase's reading, to the tick below: batch means over the runs.
pub fn give_of(runs: &Vec<Reading>, p: usize) -> (g: Ticks)
    requires
        p < PHASE_COUNT,
        runs@.len() <= GIVE_RUNS,
        forall|i: int| 0 <= i < runs@.len() ==> squarable(#[trigger] runs@[i]),
    ensures
        is_give(g as int, runs@, p as int),
{
    if runs.len() < 2 {
        return 0;
    }
    let ghost q = p as int;
    let mut sum: u128 = 0;
    let mut squares: u128 = 0;
    let mut i: usize = 0;
    while i < runs.len()
        invariant
            i <= runs@.len() <= 8,
            p < PHASE_COUNT,
            q == p,
            forall|i: int| 0 <= i < runs@.len() ==> squarable(#[trigger] runs@[i]),
            sum == mean_sum(runs@, q, i as int),
            squares == square_sum(runs@, q, i as int),
        decreases runs@.len() - i,
    {
        assert(squarable(runs@[i as int]));
        let x: u128 = runs[i].phases[p] / runs[i].trips as u128;
        proof {
            sums_fit(runs@, q, i as int);
            sums_fit(runs@, q, i + 1);
            assert(x == mean_in(runs@[i as int], q));
            let most: int = 0x400_0000_0000_0000;
            assert((i + 1) * most <= 8 * most && (i + 1) * (most * most) <= 8 * (most * most))
                by (nonlinear_arith)
                requires
                    0 <= i + 1 <= 8,
                    most == 0x400_0000_0000_0000int,
            ;
            assert(x * x <= most * most) by (nonlinear_arith)
                requires
                    0 <= x <= most,
            ;
        }
        sum = sum + x;
        squares = squares + x * x;
        i += 1;
    }
    let k: u128 = runs.len() as u128;
    proof {
        sums_fit(runs@, q, runs@.len() as int);
        a_spread_is_no_debt(runs@, q, runs@.len() as int);
        let most: int = 0x400_0000_0000_0000;
        assert(k * squares <= 8 * (8 * (most * most))) by (nonlinear_arith)
            requires
                0 <= k <= 8,
                0 <= squares <= k * (most * most),
                most > 0,
        ;
        assert(sum * sum <= 8 * most * (8 * most)) by (nonlinear_arith)
            requires
                0 <= sum <= k * most,
                k <= 8,
                most > 0,
        ;
    }
    let all: u128 = k * squares - sum * sum;
    assert(2 <= k <= 8);
    assert(4 <= k * k <= 64) by (nonlinear_arith)
        requires
            2 <= k <= 8,
    ;
    assert(4 <= k * k * (k - 1) <= 448) by (nonlinear_arith)
        requires
            2 <= k <= 8,
    ;
    let times: u128 = k * k * (k - 1);
    root(all, times)
}

/// The greatest whole number whose square, `times` over, is no more than `all`.
fn root(all: u128, times: u128) -> (g: u64)
    requires
        4 <= times <= 448,
        all <= 64 * (LONGEST_TRIP * LONGEST_TRIP),
    ensures
        g * g * times <= all < (g + 1) * (g + 1) * times,
{
    let mut low: u128 = 0;
    let mut high: u128 = 0x2000_0000_0000_0000;
    assert(0 * 0 * times == 0) by (nonlinear_arith);
    assert(all < high * high * times) by (nonlinear_arith)
        requires
            times >= 4,
            high == 0x2000_0000_0000_0000,
            all <= 64 * (0x400_0000_0000_0000int * 0x400_0000_0000_0000int),
    ;
    while high - low > 1
        invariant
            low < high <= 0x2000_0000_0000_0000,
            4 <= times <= 448,
            low * low * times <= all < high * high * times,
        decreases high - low,
    {
        let mid: u128 = low + (high - low) / 2;
        assert(mid * mid <= 0x2000_0000_0000_0000 * 0x2000_0000_0000_0000) by (nonlinear_arith)
            requires
                mid <= 0x2000_0000_0000_0000,
        ;
        let squared: u128 = mid * mid;
        // A square this far past what it is held against need not be multiplied out.
        if squared > all / times {
            assert(all < mid * mid * times) by (nonlinear_arith)
                requires
                    mid * mid >= all / times + 1,
                    times > 0,
            ;
            high = mid;
        } else {
            assert(mid * mid * times <= all) by (nonlinear_arith)
                requires
                    mid * mid <= all / times,
                    times > 0,
            ;
            low = mid;
        }
    }
    assert(high == low + 1);
    low as u64
}

/// Runs of a steady window agree with each other, so its reading carries no give.
pub proof fn a_steady_window_has_no_give(b: Band, window: Seq<Felt>, pc: int, one: Felt, p: int, g: int)
    requires
        reads(b, window, pc),
        window.len() > 0,
        0 <= p < PHASE_COUNT,
        forall|i: int| 0 <= i < window.len() ==> #[trigger] window[i] == one,
        is_give(g, b.runs@, p),
    ensures
        g == 0,
{
    let n = window.len() as int;
    let run = run_len(n);
    let x = one.phases@[p] as int;
    assert forall|i: int| 0 <= i < b.runs@.len() implies mean_in(#[trigger] b.runs@[i], p) == x by {
        assert(0 <= i * run < n) by (nonlinear_arith)
            requires
                0 <= i <= b.runs@.len() - 1,
                run > 0,
                (b.runs@.len() - 1) * run < n,
        ;
        assert((i + 1) * run == i * run + run) by (nonlinear_arith);
        let part = window.subrange(i * run, run_end(n, i));
        let band = a_band_is_drawn_from_its_window(b.runs@[i], part, pc);
        assert forall|j: int| 0 <= j < band.len() implies #[trigger] band[j] == one by {
            assert(part.contains(band[j]));
            let k = choose|k: int| 0 <= k < part.len() && part[k] == band[j];
            assert(window[i * run + k] == one);
        }
        a_steady_mean_is_its_trip(b.runs@[i], band, one, p);
        let t = b.runs@[i].trips as int;
        assert((t * x) / t == x) by (nonlinear_arith)
            requires
                t > 0,
        ;
    }
    if b.runs@.len() >= 2 {
        let k = b.runs@.len() as int;
        level_sums(b.runs@, p, k, x);
        assert(k * (k * (x * x)) - (k * x) * (k * x) == 0) by (nonlinear_arith);
        assert(over(k) > 0) by (nonlinear_arith)
            requires
                k >= 2,
        ;
        assert(g * g * over(k) <= 0 ==> g == 0) by (nonlinear_arith)
            requires
                0 <= g,
                over(k) > 0,
        ;
    }
}

/// Means that are all one number sum to that number over and over.
proof fn level_sums(runs: Seq<Reading>, p: int, n: int, x: int)
    requires
        0 <= n <= runs.len(),
        forall|i: int| 0 <= i < runs.len() ==> mean_in(#[trigger] runs[i], p) == x,
    ensures
        mean_sum(runs, p, n) == n * x,
        square_sum(runs, p, n) == n * (x * x),
    decreases n,
{
    if n > 0 {
        level_sums(runs, p, n - 1, x);
        assert(mean_in(runs[n - 1], p) == x);
        assert(n * x == (n - 1) * x + x && n * (x * x) == (n - 1) * (x * x) + x * x)
            by (nonlinear_arith);
    } else {
        assert(0 * x == 0 && 0 * (x * x) == 0) by (nonlinear_arith);
    }
}

/// How far each of the first `n` runs' means is from `x`, squared and added up.
pub open spec fn apart_from(runs: Seq<Reading>, p: int, n: int, x: int) -> int
    decreases n,
{
    if n <= 0 {
        0
    } else {
        apart_from(runs, p, n - 1, x) + (mean_in(runs[n - 1], p) - x) * (mean_in(runs[n - 1], p)
            - x)
    }
}

/// How far apart the first `n` runs' means are, each pair of them squared and added up.
pub open spec fn apart(runs: Seq<Reading>, p: int, n: int) -> int
    decreases n,
{
    if n <= 0 {
        0
    } else {
        apart(runs, p, n - 1) + apart_from(runs, p, n - 1, mean_in(runs[n - 1], p))
    }
}

proof fn apart_from_one(runs: Seq<Reading>, p: int, n: int, x: int)
    requires
        0 <= n,
    ensures
        apart_from(runs, p, n, x) == square_sum(runs, p, n) - 2 * (x * mean_sum(runs, p, n)) + n * (x
            * x),
    decreases n,
{
    if n > 0 {
        apart_from_one(runs, p, n - 1, x);
        let (m, s) = (mean_in(runs[n - 1], p), mean_sum(runs, p, n - 1));
        assert((m - x) * (m - x) == m * m - 2 * (x * m) + x * x) by (nonlinear_arith);
        assert(x * (s + m) == x * s + x * m) by (nonlinear_arith);
        assert(n * (x * x) == (n - 1) * (x * x) + x * x) by (nonlinear_arith);
    } else {
        assert(x * mean_sum(runs, p, n) == 0) by (nonlinear_arith)
            requires
                mean_sum(runs, p, n) == 0,
        ;
        assert(n * (x * x) == 0) by (nonlinear_arith)
            requires
                n == 0,
        ;
    }
}

proof fn apart_is_the_spread(runs: Seq<Reading>, p: int, n: int)
    requires
        0 <= n,
    ensures
        apart(runs, p, n) == n * square_sum(runs, p, n) - mean_sum(runs, p, n) * mean_sum(
            runs,
            p,
            n,
        ),
    decreases n,
{
    if n > 0 {
        apart_is_the_spread(runs, p, n - 1);
        let m = mean_in(runs[n - 1], p);
        let (q, s) = (square_sum(runs, p, n - 1), mean_sum(runs, p, n - 1));
        apart_from_one(runs, p, n - 1, m);
        assert(n * (q + m * m) - (s + m) * (s + m) == (n - 1) * q - s * s + (q - 2 * (m * s) + (n
            - 1) * (m * m))) by (nonlinear_arith);
    } else {
        assert(n * square_sum(runs, p, n) - mean_sum(runs, p, n) * mean_sum(runs, p, n) == 0)
            by (nonlinear_arith)
            requires
                n == 0,
                mean_sum(runs, p, n) == 0,
        ;
    }
}

/// The give is the standard error of the runs' means, to the tick below: over `k` runs its square
/// is the squared differences of every pair of means, over `k * k * (k - 1)`. One run has none.
pub proof fn the_give_is_the_standard_error(g: int, runs: Seq<Reading>, p: int)
    requires
        is_give(g, runs, p),
    ensures
        runs.len() < 2 ==> g == 0,
        runs.len() >= 2 ==> {
            let k = runs.len() as int;
            &&& 0 <= g
            &&& g * g * (k * k * (k - 1)) <= apart(runs, p, k)
            &&& apart(runs, p, k) < (g + 1) * (g + 1) * (k * k * (k - 1))
        },
{
    apart_is_the_spread(runs, p, runs.len() as int);
}

/// Two runs give half of what is between them.
pub proof fn two_runs_give_half_their_difference(g: int, runs: Seq<Reading>, p: int)
    requires
        is_give(g, runs, p),
        runs.len() == 2,
        mean_in(runs[0], p) <= mean_in(runs[1], p),
    ensures
        g == (mean_in(runs[1], p) - mean_in(runs[0], p)) / 2,
{
    let d = mean_in(runs[1], p) - mean_in(runs[0], p);
    the_give_is_the_standard_error(g, runs, p);
    reveal_with_fuel(apart, 3);
    reveal_with_fuel(apart_from, 3);
    let (a, b) = (mean_in(runs[0], p), mean_in(runs[1], p));
    assert((a - b) * (a - b) == d * d) by (nonlinear_arith)
        requires
            d == b - a,
    ;
    assert(apart(runs, p, 2) == d * d);
    assert(2 * g <= d) by (nonlinear_arith)
        requires
            0 <= g,
            0 <= d,
            g * g * (2 * 2 * (2 - 1)) <= d * d,
    ;
    assert(d < 2 * (g + 1)) by (nonlinear_arith)
        requires
            0 <= g,
            0 <= d,
            d * d < (g + 1) * (g + 1) * (2 * 2 * (2 - 1)),
    ;
}

/// A run's mean is its trips' time in the phase shared among them, to the tick below.
pub proof fn a_mean_shares_the_time_out(r: Reading, p: int)
    requires
        r.trips > 0,
    ensures
        r.trips * mean_in(r, p) <= r.phases@[p],
        r.phases@[p] < r.trips * (mean_in(r, p) + 1),
{
    vstd::arithmetic::div_mod::lemma_fundamental_div_mod(r.phases@[p] as int, r.trips as int);
    assert(r.trips * (mean_in(r, p) + 1) == r.trips * mean_in(r, p) + r.trips) by (nonlinear_arith);
}

} // verus!
