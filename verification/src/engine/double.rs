//! Double precision on whole numbers: a draw is counted in parts of one, and every product and sum
//! on the way to a pick or a length keeps its fifty-three leading binary digits.

use vstd::arithmetic::div_mod::{lemma_fundamental_div_mod, lemma_fundamental_div_mod_converse};
use vstd::arithmetic::power2::{lemma_pow2_pos, lemma_pow2_unfold, pow2};
use vstd::prelude::*;

use crate::text::nearest_even;

verus! {

/// The first whole number that needs more than fifty-three binary digits.
pub const FULL: u64 = 0x20_0000_0000_0000;

/// What the last of the fifty-three leading digits of `x` counts: one, until `x` is longer than
/// that.
pub open spec fn grain(x: nat) -> nat
    decreases x,
{
    if x < FULL {
        1
    } else {
        2 * grain(x / 2)
    }
}

/// The double closest to `p / q`, in the same parts: a tie goes to the even last digit. Where the
/// quotient has fewer digits than a double keeps, the closest whole number.
pub open spec fn closest(p: nat, q: nat) -> nat {
    nearest_even(p, q * grain(p / q)) * grain(p / q)
}

/// The double closest to `x`.
pub open spec fn double(x: nat) -> nat {
    closest(x, 1)
}

/// A number is at least half of what its leading digits can count, and less than all of it.
pub proof fn a_grain_fits(x: nat)
    ensures
        grain(x) >= 1,
        grain(x) == 1 || 2 * x >= grain(x) * FULL,
        x < grain(x) * FULL,
    decreases x,
{
    if x >= FULL {
        a_grain_fits(x / 2);
    }
}

/// A grain is a power of two.
pub proof fn grain_power(x: nat) -> (e: nat)
    ensures
        grain(x) == pow2(e),
    decreases x,
{
    if x < FULL {
        assert(pow2(0) == 1) by {
            vstd::arithmetic::power2::lemma2_to64();
        }
        0
    } else {
        let e = grain_power(x / 2);
        lemma_pow2_unfold(e + 1);
        e + 1
    }
}

/// Shifting a number that fills a double shifts its grain.
proof fn a_grain_shifts(x: nat, k: nat)
    requires
        2 * x >= FULL,
    ensures
        grain(x * pow2(k)) == grain(x) * pow2(k),
    decreases k,
{
    if k == 0 {
        assert(pow2(0) == 1) by {
            vstd::arithmetic::power2::lemma2_to64();
        }
    } else {
        let j = (k - 1) as nat;
        a_grain_shifts(x, j);
        lemma_pow2_unfold(k);
        lemma_pow2_pos(j);
        let h = x * pow2(j);
        assert(x * pow2(k) == 2 * h && h >= x) by (nonlinear_arith)
            requires
                pow2(k) == 2 * pow2(j),
                pow2(j) >= 1,
                h == x * pow2(j),
        ;
        assert(grain(x) * pow2(k) == 2 * (grain(x) * pow2(j))) by (nonlinear_arith)
            requires
                pow2(k) == 2 * pow2(j),
        ;
        assert((2 * h) / 2 == h);
    }
}

/// Counting in units `k` times as long what is `k` times as long gives the same count.
pub proof fn a_count_keeps(x: nat, unit: nat, k: nat)
    requires
        unit > 0,
        k > 0,
    ensures
        unit * k > 0,
        nearest_even(x * k, unit * k) == nearest_even(x, unit),
{
    let (q, r) = (x as int / unit as int, x as int % unit as int);
    lemma_fundamental_div_mod(x as int, unit as int);
    assert(x * k == q * (unit * k) + r * k && 0 <= r * k < unit * k) by (nonlinear_arith)
        requires
            x == unit * q + r,
            0 <= r < unit,
            k > 0,
    ;
    lemma_fundamental_div_mod_converse((x * k) as int, (unit * k) as int, q, r * k);
    assert((2 * (r * k) > unit * k) == (2 * r > unit)) by (nonlinear_arith)
        requires
            k > 0,
    ;
    assert((2 * (r * k) == unit * k) == (2 * r == unit)) by (nonlinear_arith)
        requires
            k > 0,
    ;
}

/// A count is within half a unit of what it counts.
pub proof fn a_count_is_close(x: nat, unit: nat)
    requires
        unit > 0,
    ensures
        2 * (nearest_even(x, unit) * unit) <= 2 * x + unit,
        2 * x <= 2 * (nearest_even(x, unit) * unit) + unit,
{
    let (q, r) = (x as int / unit as int, x as int % unit as int);
    lemma_fundamental_div_mod(x as int, unit as int);
    assert((q + 1) * unit == q * unit + unit) by (nonlinear_arith);
    assert(unit * q == q * unit) by (nonlinear_arith);
}

/// A double keeps at least fifty-three digits: it is off by no more than one part in [`FULL`] of
/// what it stands for.
pub proof fn a_double_is_close(p: nat, q: nat)
    requires
        q > 0,
        q == 1 || 2 * (p / q) >= FULL,
    ensures
        FULL * (closest(p, q) * q) <= FULL * p + p,
        FULL * p <= FULL * (closest(p, q) * q) + p,
{
    let w = p / q;
    let g = grain(w);
    let n = nearest_even(p, q * g);
    a_grain_fits(w);
    lemma_fundamental_div_mod(p as int, q as int);
    if g == 1 && q == 1 {
        assert(p / 1 == p && p % 1 == 0);
        assert(q * g == 1);
        assert(n == p);
    } else {
        assert(q * g > 0) by (nonlinear_arith)
            requires
                q > 0,
                g >= 1,
        ;
        a_count_is_close(p, q * g);
        assert(n * g * q == n * (q * g)) by (nonlinear_arith);
        assert(2 * w >= g * FULL);
        assert(FULL * (q * g) <= 2 * p) by (nonlinear_arith)
            requires
                2 * w >= g * FULL,
                p >= q * w,
                q > 0,
        ;
    }
}

/// What is a double already is its own closest.
pub proof fn a_double_stays(x: nat)
    ensures
        double(double(x)) == double(x),
{
    let g = grain(x);
    a_grain_fits(x);
    assert(x / 1 == x);
    if x < FULL {
        assert(x % 1 == 0);
    } else {
        let n = nearest_even(x, g);
        let e = grain_power(x);
        lemma_fundamental_div_mod(x as int, g as int);
        let (q, r) = (x as int / g as int, x as int % g as int);
        assert(q < FULL && 2 * q >= FULL) by (nonlinear_arith)
            requires
                x == g * q + r,
                0 <= r < g,
                x < g * FULL,
                2 * x >= g * FULL,
                FULL == 0x20_0000_0000_0000,
        ;
        a_grain_shifts(n, e);
        let h = grain(n);
        assert(h == 1 || h == 2 && n == FULL) by {
            reveal_with_fuel(grain, 3);
        }
        assert(double(x) == n * g);
        assert((n * g) / 1 == n * g);
        a_count_keeps(n, h, g);
        assert(nearest_even(n, h) * h == n);
        assert(nearest_even(n, h) * (h * g) == n * g) by (nonlinear_arith)
            requires
                nearest_even(n, h) * h == n,
        ;
    }
}

/// Shifting a number that fills a double shifts the double closest to it.
pub proof fn a_double_shifts(x: nat, k: nat)
    requires
        2 * x >= FULL,
    ensures
        double(x * pow2(k)) == double(x) * pow2(k),
{
    let (g, s) = (grain(x), pow2(k));
    a_grain_shifts(x, k);
    a_grain_fits(x);
    lemma_pow2_pos(k);
    assert(x / 1 == x && (x * s) / 1 == x * s);
    a_count_keeps(x, g, s);
    assert(nearest_even(x, g) * (g * s) == nearest_even(x, g) * g * s) by (nonlinear_arith);
}

/// `x` counted in whole `unit`s, to the nearest; a tie goes to the even count.
pub fn count_of(x: u128, unit: u128) -> (n: u128)
    requires
        1 <= unit <= 0x7fff_ffff_ffff_ffff_ffff_ffff_ffff_ffff,
        x < u128::MAX,
    ensures
        n == nearest_even(x as nat, unit as nat),
{
    let (whole, rest): (u128, u128) = (x / unit, x % unit);
    assert(whole <= x) by (nonlinear_arith)
        requires
            whole == x / unit,
            unit >= 1,
    ;
    if 2 * rest > unit || 2 * rest == unit && whole % 2 == 1 {
        whole + 1
    } else {
        whole
    }
}

/// What the last of a number's leading digits counts.
pub fn grain_of(x: u128) -> (g: u128)
    ensures
        g == grain(x as nat),
{
    let mut left: u128 = x;
    let mut g: u128 = 1;
    assert(g * left == x);
    while left >= FULL as u128
        invariant
            g >= 1,
            g * left <= x,
            g * grain(left as nat) == grain(x as nat),
        decreases left,
    {
        let ghost (before, was) = (g, left);
        assert(before * 2 * (was / 2) <= before * was) by (nonlinear_arith)
            requires
                before >= 1,
        ;
        assert(before * 0x20_0000_0000_0000 <= before * was) by (nonlinear_arith)
            requires
                was >= 0x20_0000_0000_0000,
                before >= 1,
        ;
        assert(before * (2 * grain(was as nat / 2)) == before * 2 * grain(was as nat / 2))
            by (nonlinear_arith);
        g = g * 2;
        left = left / 2;
    }
    assert(g * 1 == g);
    g
}

/// The double closest to `x`.
pub fn double_of(x: u128) -> (d: u128)
    requires
        x <= 0xff_ffff_ffff_ffff_ffff_ffff_ffff_ffff,
    ensures
        d == double(x as nat),
{
    let g: u128 = grain_of(x);
    proof {
        a_grain_fits(x as nat);
        a_double_is_close(x as nat, 1);
        assert(x as nat / 1 == x as nat);
        assert(closest(x as nat, 1) * 1 == closest(x as nat, 1));
    }
    let n: u128 = count_of(x, g);
    n * g
}

} // verus!
