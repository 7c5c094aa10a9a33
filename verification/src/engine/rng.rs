//! The xorshift stream every draw comes from.

use vstd::prelude::*;

use crate::engine::double::{a_double_is_close, closest, double, double_of};

verus! {

/// The state after one step of the stream.
pub open spec fn next_state(s: u64) -> u64 {
    let a = s ^ (s << 13u64);
    let b = a ^ (a >> 7u64);
    b ^ (b << 17u64)
}

/// A draw's fraction is its numerator over this.
pub const UNIT: u64 = 0x20_0000_0000_0000;

/// The numerator a state draws, under [`UNIT`].
pub open spec fn drawn(s: u64) -> u64 {
    s >> 11u64
}

/// The pick from `0..n` a numerator makes: its share of `n` in double precision, cut to a whole
/// number and never past the last.
pub open spec fn picked(m: nat, n: nat) -> nat {
    let share = double(m * double(n)) / UNIT as nat;
    if share < n {
        share
    } else {
        (n - 1) as nat
    }
}

/// A deterministic stream of draws.
pub struct Rng {
    pub state: u64,
}

impl Rng {
    /// The stream a seed opens.
    pub fn new(seed: u64) -> (rng: Rng)
        ensures
            rng.state == seed ^ 0x9e37_79b9_7f4a_7c15u64,
    {
        Rng { state: seed ^ 0x9e37_79b9_7f4a_7c15u64 }
    }

    /// Sixty-four bits of the stream.
    pub fn u64(&mut self) -> (x: u64)
        ensures
            x == next_state(old(self).state),
            final(self).state == x,
    {
        self.state = self.state ^ (self.state << 13u64);
        self.state = self.state ^ (self.state >> 7u64);
        self.state = self.state ^ (self.state << 17u64);
        self.state
    }

    /// A fraction of one, as its numerator over [`UNIT`].
    pub fn fraction(&mut self) -> (m: u64)
        ensures
            final(self).state == next_state(old(self).state),
            m == drawn(final(self).state),
            m < UNIT,
    {
        let x: u64 = self.u64();
        assert((x >> 11u64) < 0x20_0000_0000_0000u64) by (bit_vector);
        x >> 11u64
    }

    /// A draw from `0..n`: the blind pick, wherever a client makes one.
    pub fn below(&mut self, n: usize) -> (k: usize)
        requires
            n >= 1,
        ensures
            final(self).state == next_state(old(self).state),
            k as nat == picked(drawn(final(self).state) as nat, n as nat),
            k < n,
    {
        let m: u64 = self.fraction();
        let of: u128 = double_of(n as u128);
        proof {
            a_double_is_close(n as nat, 1);
            assert(closest(n as nat, 1) * 1 == of);
            assert(of <= 0x1_0000_0000_0000_0800);
            assert(m * of <= 0x20_0000_0000_0000 * 0x1_0000_0000_0000_0800) by (nonlinear_arith)
                requires
                    0 <= m < 0x20_0000_0000_0000,
                    0 <= of <= 0x1_0000_0000_0000_0800,
            ;
        }
        let share: u128 = double_of(m as u128 * of) / (UNIT as u128);
        if share < n as u128 {
            share as usize
        } else {
            n - 1
        }
    }
}

/// The stream never runs dry: a state that is not zero is never followed by zero.
pub proof fn the_stream_never_dies(s: u64)
    requires
        s != 0,
    ensures
        next_state(s) != 0,
{
    let a = s ^ (s << 13u64);
    let b = a ^ (a >> 7u64);
    assert(s ^ (s << 13u64) != 0) by (bit_vector)
        requires
            s != 0,
    ;
    assert(a ^ (a >> 7u64) != 0) by (bit_vector)
        requires
            a != 0,
    ;
    assert(b ^ (b << 17u64) != 0) by (bit_vector)
        requires
            b != 0,
    ;
}

/// Two states are followed by the same state only where they are the same.
pub proof fn the_stream_never_merges(s: u64, t: u64)
    requires
        next_state(s) == next_state(t),
    ensures
        s == t,
{
    let (a, c) = (s ^ (s << 13u64), t ^ (t << 13u64));
    let (b, d) = (a ^ (a >> 7u64), c ^ (c >> 7u64));
    assert(b == d) by (bit_vector)
        requires
            b ^ (b << 17u64) == d ^ (d << 17u64),
    ;
    assert(a == c) by (bit_vector)
        requires
            a ^ (a >> 7u64) == c ^ (c >> 7u64),
    ;
    assert(s == t) by (bit_vector)
        requires
            s ^ (s << 13u64) == t ^ (t << 13u64),
    ;
}

/// Every numerator under [`UNIT`] is drawn, and each by as many states: the draws are even.
pub proof fn every_fraction_is_drawn(m: u64, low: u64)
    requires
        m < UNIT,
        low < 0x800,
    ensures
        drawn((m << 11u64) | low) == m,
{
    assert(((m << 11u64) | low) >> 11u64 == m) by (bit_vector)
        requires
            m < 0x20_0000_0000_0000u64,
            low < 0x800u64,
    ;
}

/// One of `n` is picked, by the share of the whole that was drawn, and never one past the last: the
/// draw lies within its pick's own share, but for the rounding of one product.
pub proof fn one_of_them_is_picked_by_its_share(m: nat, n: nat)
    requires
        0 < n < UNIT,
        m < UNIT,
    ensures
        picked(m, n) < n,
        UNIT * picked(m, n) <= m * n + n,
        m * n <= UNIT * picked(m, n) + UNIT + n,
{
    assert(n / 1 == n && n % 1 == 0);
    assert(crate::engine::double::grain(n) == 1);
    assert(crate::text::nearest_even(n, 1) == n);
    assert(closest(n, 1) == crate::text::nearest_even(n, 1 * 1nat) * 1);
    assert(double(n) == n);
    let x = m * n;
    a_double_is_close(x, 1);
    let d = double(x);
    assert(x <= UNIT * n) by (nonlinear_arith)
        requires
            x == m * n,
            m < UNIT,
            n > 0,
    ;
    assert(UNIT * d <= UNIT * x + x && UNIT * x <= UNIT * d + x);
    assert(d <= x + n) by (nonlinear_arith)
        requires
            UNIT * d <= UNIT * x + x,
            x <= UNIT * n,
            UNIT > 0,
    ;
    assert(x <= d + n) by (nonlinear_arith)
        requires
            UNIT * x <= UNIT * d + x,
            x <= UNIT * n,
            UNIT > 0,
    ;
    let q = d / UNIT as nat;
    vstd::arithmetic::div_mod::lemma_fundamental_div_mod(d as int, UNIT as int);
    assert(UNIT * q <= d < UNIT * q + UNIT);
    if q >= n {
        assert(UNIT * (n - 1) + UNIT == UNIT * n) by (nonlinear_arith);
        assert(UNIT * (n - 1) <= UNIT * q) by (nonlinear_arith)
            requires
                n <= q,
        ;
    }
}

} // verus!
