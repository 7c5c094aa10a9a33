//! Requests: who sends them, what they ask of the server, and how the server treats them.

use vstd::arithmetic::div_mod::{lemma_fundamental_div_mod, lemma_fundamental_div_mod_converse};
use vstd::arithmetic::power2::{
    lemma2_to64, lemma2_to64_rest, lemma_pow2_adds, lemma_pow2_pos, lemma_pow2_strictly_increases,
    pow2,
};
use vstd::prelude::*;

use crate::atoms::stage::Paint;
use crate::engine::clock::{Ticks, MS};
use crate::engine::double::{
    a_count_is_close, a_count_keeps, a_double_is_close, a_double_shifts, a_double_stays,
    a_grain_fits, closest, count_of, double, double_of, grain, grain_of, grain_power,
};
use crate::engine::rng::{drawn, next_state, Rng, UNIT};
use crate::text::{nearest_even, same_text};

verus! {

/// One stretch of a request's work.
#[derive(Clone, Copy, PartialEq, Eq, Structural, Debug)]
pub enum Phase {
    Cpu(Ticks),
    Io(Ticks),
}

/// A request: when it lands, who it is billed to, and the work it brings.
pub struct SimReq {
    pub id: u32,
    pub enq_t: Ticks,
    /// Who this request is billed to. Sims that do not model tenants run [`SOLO`].
    pub tenant: &'static str,
    pub phases: Vec<Phase>,
}

/// The one tenant a sim runs when it does not model them.
pub const SOLO: &'static str = "all";

/// Weights are counted in millionths of the shared CPU burst baseline.
pub const WHOLE_WEIGHT: u32 = 1_000_000;

/// The weight every tenant opens at. Equal, so what separates the three is only how much they
/// send.
pub const EQUAL_WEIGHT: u32 = 270_000;

/// A tenant sharing the server: how fast it sends, how big one of its requests is, and the
/// colour it is drawn in.
#[derive(Clone, Copy)]
pub struct TenantSpec {
    pub id: &'static str,
    /// Requests per thousand seconds this tenant opens at.
    pub rate: u64,
    /// The weight this tenant opens at.
    pub work: u32,
    pub tint: Paint,
}

/// How many tenants there are.
pub const TENANT_COUNT: usize = 3;

/// The tenant at place `k`.
pub open spec fn spec_tenant(k: int) -> TenantSpec {
    if k == 0 {
        TenantSpec { id: "Alice", rate: 100_000, work: EQUAL_WEIGHT, tint: Paint::Purple }
    } else if k == 1 {
        TenantSpec { id: "Bob", rate: 60_000, work: EQUAL_WEIGHT, tint: Paint::Blue }
    } else {
        TenantSpec { id: "Charlie", rate: 80_000, work: EQUAL_WEIGHT, tint: Paint::Teal }
    }
}

/// The three tenants, in their order.
pub fn tenants() -> (t: [TenantSpec; 3])
    ensures
        forall|k: int| 0 <= k < TENANT_COUNT ==> #[trigger] t@[k] == spec_tenant(k),
{
    [
        TenantSpec { id: "Alice", rate: 100_000, work: EQUAL_WEIGHT, tint: Paint::Purple },
        TenantSpec { id: "Bob", rate: 60_000, work: EQUAL_WEIGHT, tint: Paint::Blue },
        TenantSpec { id: "Charlie", rate: 80_000, work: EQUAL_WEIGHT, tint: Paint::Teal },
    ]
}

/// The place of the tenant with this name, if there is one.
pub open spec fn spec_tenant_of(name: Option<Seq<char>>) -> Option<int> {
    match name {
        None => None,
        Some(n) => if n == "Alice"@ {
            Some(0int)
        } else if n == "Bob"@ {
            Some(1int)
        } else if n == "Charlie"@ {
            Some(2int)
        } else {
            None
        },
    }
}

/// A name, as its characters.
pub open spec fn name_view(name: Option<&str>) -> Option<Seq<char>> {
    match name {
        None => None,
        Some(n) => Some(n@),
    }
}

/// Which tenant a name belongs to, as a place in [`tenants`]: the one place a name becomes a
/// position.
pub fn tenant_of(name: Option<&str>) -> (k: Option<usize>)
    ensures
        k is Some <==> spec_tenant_of(name_view(name)) is Some,
        k matches Some(i) ==> i < TENANT_COUNT && spec_tenant_of(name_view(name)) == Some(i as int)
            && spec_tenant(i as int).id@ == name->0@,
{
    let wanted = match name {
        None => return None,
        Some(wanted) => wanted,
    };
    let t = tenants();
    let mut k: usize = 0;
    while k < 3
        invariant
            k <= 3,
            name == Some(wanted),
            forall|j: int| 0 <= j < TENANT_COUNT ==> #[trigger] t@[j] == spec_tenant(j),
            forall|j: int| 0 <= j < k ==> #[trigger] spec_tenant(j).id@ != wanted@,
        decreases 3 - k,
    {
        assert(t@[k as int] == spec_tenant(k as int));
        if same_text(t[k].id, wanted) {
            proof {
                assert(k > 0 ==> spec_tenant(0).id@ != wanted@);
                assert(k > 1 ==> spec_tenant(1).id@ != wanted@);
            }
            return Some(k);
        }
        k += 1;
    }
    proof {
        assert(spec_tenant(0).id@ != wanted@);
        assert(spec_tenant(1).id@ != wanted@);
        assert(spec_tenant(2).id@ != wanted@);
    }
    None
}

/// Every tenant is found by its own name, at its own place, so no two share one.
pub proof fn a_tenant_is_found_by_its_name(k: int)
    requires
        0 <= k < TENANT_COUNT,
    ensures
        spec_tenant_of(Some(spec_tenant(k).id@)) == Some(k),
{
    reveal_strlit("Alice");
    reveal_strlit("Bob");
    reveal_strlit("Charlie");
    assert("Alice"@.len() == 5);
    assert("Bob"@.len() == 3);
    assert("Charlie"@.len() == 7);
}

/// How the leaf server treats a connection.
#[derive(Clone, Copy, PartialEq, Eq, Structural, Debug)]
pub enum Behavior {
    /// Accepts, runs the work, replies.
    Good,
    /// Opens the socket but never accepts: connections pile up until the client gives up.
    NeverAccept,
    /// Accepts, then the handler hangs and holds its worker.
    AcceptHang,
}

impl Behavior {
    /// The behavior a name asks for: a healthy server unless it names a failure.
    pub fn from_name(name: &str) -> (b: Behavior)
        ensures
            b == (if name@ == "never-accept"@ {
                Behavior::NeverAccept
            } else if name@ == "accept-hang"@ {
                Behavior::AcceptHang
            } else {
                Behavior::Good
            }),
    {
        if same_text(name, "never-accept") {
            Behavior::NeverAccept
        } else if same_text(name, "accept-hang") {
            Behavior::AcceptHang
        } else {
            Behavior::Good
        }
    }
}

// ----- the phase plan --------------------------------------------------------

/// A CPU burst is spread evenly over this many milliseconds above its base.
pub const CPU_BASE_MS: u64 = 12;

pub const CPU_SPREAD_MS: u64 = 20;

/// An IO wait is spread evenly over this many milliseconds above its base.
pub const IO_BASE_MS: u64 = 16;

pub const IO_SPREAD_MS: u64 = 44;

/// How long a burst of weight one is, from the numerator `m` of its draw: the baseline plus that
/// share of the spread, in milliseconds over [`UNIT`].
pub open spec fn burst_share(m: nat) -> nat {
    double(CPU_BASE_MS as nat * UNIT as nat + double(m * CPU_SPREAD_MS as nat))
}

/// Weights are counted in this many parts of one.
pub const WEIGHT_PARTS: u128 = 0x100_0000_0000_0000_0000;

/// A weight in millionths, as the double that stands for it: over [`WEIGHT_PARTS`].
pub open spec fn weight(work: nat) -> nat {
    closest(work * WEIGHT_PARTS as nat, 1_000_000)
}

/// A weighted burst is counted in this many parts of a millisecond.
pub const BURST_PARTS: u128 = 0x2000_0000_0000_0000_0000_0000_0000_0000;

/// A burst of weight `work`, from the numerator `m` of its draw: its length at weight one, scaled
/// by the weight, to the nearest tick.
pub open spec fn spec_burst(m: nat, work: nat) -> nat {
    nearest_even(double(burst_share(m) * weight(work)) * MS as nat, BURST_PARTS as nat)
}

/// A wait, from the numerator `m` of its draw: the base plus that share of the spread, in whole
/// milliseconds.
pub open spec fn spec_wait(m: nat) -> nat {
    double(IO_BASE_MS as nat * UNIT as nat + double(m * IO_SPREAD_MS as nat)) / UNIT as nat
        * MS as nat
}

/// How many waits a draw asks for: none to five, for draws under `.05 .25 .55 .80 .95` and the
/// rest.
pub open spec fn spec_waits(m: int) -> nat {
    if m < 450_359_962_737_050 {
        0
    } else if m < 2_251_799_813_685_248 {
        1
    } else if m < 4_953_959_590_107_546 {
        2
    } else if m < 7_205_759_403_792_794 {
        3
    } else if m < 8_556_839_292_003_942 {
        4
    } else {
        5
    }
}

/// The first `n` waits drawn from state `s`, each with the burst after it, and the state they
/// leave.
pub open spec fn spec_rounds(s: u64, n: nat, work: u32) -> (Seq<Phase>, u64)
    decreases n,
{
    if n == 0 {
        (Seq::empty(), s)
    } else {
        let (before, t) = spec_rounds(s, (n - 1) as nat, work);
        let a = next_state(t);
        let b = next_state(a);
        (
            before.push(Phase::Io(spec_wait(drawn(a) as nat) as u64)).push(
                Phase::Cpu(spec_burst(drawn(b) as nat, work as nat) as u64),
            ),
            b,
        )
    }
}

/// The plan drawn from state `s`, and the state it leaves: one burst, and unless the request
/// is CPU alone, a draw of how many waits follow and a burst after each.
pub open spec fn spec_plan(s: u64, cpu_only: bool, work: u32) -> (Seq<Phase>, u64) {
    let a = next_state(s);
    if cpu_only {
        (seq![Phase::Cpu(spec_burst(drawn(a) as nat, work as nat) as u64)], a)
    } else {
        let b = next_state(a);
        let (rounds, t) = spec_rounds(b, spec_waits(drawn(a) as int), work);
        (seq![Phase::Cpu(spec_burst(drawn(b) as nat, work as nat) as u64)] + rounds, t)
    }
}

/// A burst of weight one is within the spread above its base.
proof fn share_is_bounded(m: nat)
    requires
        m < UNIT,
    ensures
        double(m * CPU_SPREAD_MS as nat) <= CPU_SPREAD_MS * UNIT,
        CPU_BASE_MS * UNIT <= burst_share(m) <= (CPU_BASE_MS + CPU_SPREAD_MS) * UNIT,
{
    let x = m * 20;
    a_double_is_close(x, 1);
    assert(closest(x, 1) * 1 == double(x));
    assert(double(x) < 20 * UNIT);
    let y = 12 * UNIT as nat + double(x);
    let g = grain(y);
    assert(y / 1 == y);
    assert(if y < 16 * UNIT {
        g == 16
    } else {
        g == 32
    }) by {
        reveal_with_fuel(grain, 7);
    }
}

/// Nothing weighs nothing.
proof fn no_weight()
    ensures
        weight(0) == 0,
        double(0) == 0,
{
    let none: nat = 0;
    assert(none * WEIGHT_PARTS == 0);
    assert(none / 1_000_000 == 0 && none / 1 == 0);
    assert(grain(0) == 1);
}

/// A weight is off by no more than one part in [`UNIT`].
proof fn weight_is_close(work: nat)
    ensures
        0x20_0000_0000_0000 * (weight(work) * 1_000_000) <= 0x20_0000_0000_0001 * (work
            * 0x100_0000_0000_0000_0000),
        0x1f_ffff_ffff_ffff * (work * 0x100_0000_0000_0000_0000) <= 0x20_0000_0000_0000 * (weight(
            work,
        ) * 1_000_000),
{
    let p = work * WEIGHT_PARTS as nat;
    if work == 0 {
        no_weight();
    } else {
        assert(p == work * 0x100_0000_0000_0000_0000);
        a_double_is_close(p, 1_000_000);
    }
}

/// A burst stays within the baseline's spread, scaled by its weight.
pub proof fn burst_is_bounded(m: nat, work: nat)
    requires
        m < UNIT,
        work <= u32::MAX,
    ensures
        CPU_BASE_MS * MS * work <= spec_burst(m, work) * 1_000_000,
        spec_burst(m, work) * 1_000_000 <= (CPU_BASE_MS + CPU_SPREAD_MS) * MS * work,
{
    let (s, w) = (burst_share(m), weight(work));
    let x = s * w;
    let d = double(x);
    let n = spec_burst(m, work);
    share_is_bounded(m);
    weight_is_close(work);
    a_double_is_close(x, 1);
    assert(closest(x, 1) * 1 == d);
    a_count_is_close(d * MS as nat, BURST_PARTS as nat);
    assert(12 * 0x20_0000_0000_0000 * w <= x <= 32 * 0x20_0000_0000_0000 * w) by (nonlinear_arith)
        requires
            12 * 0x20_0000_0000_0000 <= s <= 32 * 0x20_0000_0000_0000,
            x == s * w,
    ;
    assert(d * MS == d * 1_000_000_000);
    assert(n * BURST_PARTS == n * 0x2000_0000_0000_0000_0000_0000_0000_0000);
    assert(CPU_BASE_MS * MS * work == 12_000_000_000 * work);
    assert((CPU_BASE_MS + CPU_SPREAD_MS) * MS * work == 32_000_000_000 * work);
    assert(n >= 12_000 * work);
    assert(n <= 32_000 * work);
}

/// At weight one the scaling changes nothing.
pub proof fn a_whole_weight_changes_nothing(m: nat)
    requires
        m < UNIT,
    ensures
        spec_burst(m, WHOLE_WEIGHT as nat) == nearest_even(burst_share(m) * MS as nat, UNIT as nat),
{
    let s = burst_share(m);
    let k = WEIGHT_PARTS as nat;
    share_is_bounded(m);
    assert(pow2(72) == k) by {
        lemma2_to64();
        lemma2_to64_rest();
        lemma_pow2_adds(36, 36);
    }
    assert(weight(WHOLE_WEIGHT as nat) == k) by {
        let p = 1_000_000 * k;
        assert(p / 1_000_000 == k);
        let e = grain_power(k);
        reveal_with_fuel(grain, 30);
        assert(grain(k) == 0x10_0000);
    }
    a_double_shifts(s, 72);
    a_double_stays(CPU_BASE_MS as nat * UNIT as nat + double(m * CPU_SPREAD_MS as nat));
    a_count_keeps(s * MS as nat, UNIT as nat, k);
    assert(s * k * MS == s * MS * k) by (nonlinear_arith);
    assert(UNIT * k == BURST_PARTS);
}

/// A weight is its leading digits times their grain.
proof fn weight_fits(work: nat)
    requires
        1 <= work <= u32::MAX,
    ensures
        ({
            let p = work * WEIGHT_PARTS as nat;
            let g = grain(p / 1_000_000);
            &&& weight(work) == nearest_even(p, 1_000_000 * g) * g
            &&& 1 <= g <= 0x4_0000_0000
            &&& 1 <= nearest_even(p, 1_000_000 * g) <= UNIT
        }),
{
    let p = work * WEIGHT_PARTS as nat;
    let w = p / 1_000_000;
    let g = grain(w);
    let unit = 1_000_000 * g;
    a_grain_fits(w);
    assert(w <= 0x20_0000_0000_0000_0000_0000);
    assert(unit <= p < unit * UNIT);
    let (q, r) = (p as int / unit as int, p as int % unit as int);
    lemma_fundamental_div_mod(p as int, unit as int);
    assert(1 <= q < UNIT) by (nonlinear_arith)
        requires
            p == unit * q + r,
            0 <= r < unit,
            unit <= p < unit * UNIT,
            unit > 0,
    ;
}

/// A length scaled by a weight of leading digits `a` and the grain of `of` comes to the leading
/// digits of the product, counted in what is left of the parts.
proof fn scaling(share: nat, a: nat, of: nat)
    requires
        CPU_BASE_MS * UNIT <= share <= (CPU_BASE_MS + CPU_SPREAD_MS) * UNIT,
        1 <= a <= UNIT,
        grain(of) <= 0x4_0000_0000,
    ensures
        ({
            let (g, p) = (grain(of), share * a);
            let h = grain(p);
            let n = nearest_even(p, h);
            let unit = BURST_PARTS as nat / (g * h);
            &&& 1 <= h <= 64 * UNIT
            &&& 1 <= g * h <= 0x4_0000_0000 * (64 * UNIT)
            &&& p <= 32 * UNIT * UNIT
            &&& n <= UNIT
            &&& 1 <= unit <= BURST_PARTS
            &&& nearest_even(double(share * (a * g)) * MS as nat, BURST_PARTS as nat)
                == nearest_even(n * MS as nat, unit)
        }),
{
    let (g, p) = (grain(of), share * a);
    let h = grain(p);
    let n = nearest_even(p, h);
    assert(UNIT <= p <= 32 * UNIT * UNIT) by (nonlinear_arith)
        requires
            p == share * a,
            12 * UNIT <= share <= 32 * UNIT,
            1 <= a <= UNIT,
            UNIT == 0x20_0000_0000_0000,
    ;
    a_grain_fits(of);
    a_grain_fits(p);
    assert(1 <= g * h <= 0x4_0000_0000 * (64 * UNIT)) by (nonlinear_arith)
        requires
            1 <= g <= 0x4_0000_0000,
            1 <= h <= 64 * UNIT,
    ;
    let (q, r) = (p as int / h as int, p as int % h as int);
    lemma_fundamental_div_mod(p as int, h as int);
    assert(q < UNIT) by (nonlinear_arith)
        requires
            p == h * q + r,
            0 <= r,
            p < h * UNIT,
            h >= 1,
    ;
    let (i, j) = (grain_power(of), grain_power(p));
    lemma_pow2_adds(i, j);
    lemma2_to64();
    lemma2_to64_rest();
    lemma_pow2_adds(64, 61);
    assert(pow2(125) == BURST_PARTS);
    if i + j > 125 {
        lemma_pow2_strictly_increases(125, i + j);
    }
    let left = (125 - (i + j)) as nat;
    let unit = pow2(left);
    lemma_pow2_adds(left, i + j);
    lemma_pow2_pos(left);
    lemma_fundamental_div_mod_converse(BURST_PARTS as int, (g * h) as int, unit as int, 0);
    assert(unit <= unit * (g * h)) by (nonlinear_arith)
        requires
            g * h >= 1,
            unit >= 0,
    ;
    a_double_shifts(p, i);
    assert(p / 1 == p);
    assert(share * (a * g) == p * g) by (nonlinear_arith)
        requires
            p == share * a,
    ;
    assert(n * h * g * MS == n * MS * (g * h)) by (nonlinear_arith);
    a_count_keeps(n * MS as nat, unit, g * h);
}

/// A burst of weight `work`, from its draw.
fn burst(m: u64, work: u32) -> (d: Ticks)
    requires
        m < UNIT,
    ensures
        d == spec_burst(m as nat, work as nat),
{
    proof {
        share_is_bounded(m as nat);
        burst_is_bounded(m as nat, work as nat);
    }
    let share: u128 = double_of(
        CPU_BASE_MS as u128 * UNIT as u128 + double_of(m as u128 * CPU_SPREAD_MS as u128),
    );
    if work == 0 {
        proof {
            no_weight();
            assert(share * 0 == 0);
        }
        return 0;
    }
    let parts: u128 = work as u128 * WEIGHT_PARTS;
    let g: u128 = grain_of(parts / 1_000_000);
    proof {
        weight_fits(work as nat);
    }
    let a: u128 = count_of(parts, 1_000_000 * g);
    proof {
        scaling(share as nat, a as nat, parts as nat / 1_000_000);
    }
    let p: u128 = share * a;
    let h: u128 = grain_of(p);
    let n: u128 = count_of(p, h);
    let ticks: u128 = count_of(n * MS as u128, BURST_PARTS / (g * h));
    ticks as u64
}

/// A wait's share of its spread is short of the whole.
proof fn spread_is_short(m: nat)
    requires
        m < UNIT,
    ensures
        double(m * IO_SPREAD_MS as nat) <= 0x16_0000_0000_0000 * 64 - 64,
{
    let x = m * 44;
    assert(x <= 0x16_0000_0000_0000 * 64 - 44);
    assert(x / 1 == x);
    if x >= 0x400_0000_0000_0000 {
        assert(grain(x) == 64) by {
            reveal_with_fuel(grain, 8);
        }
        let n = nearest_even(x, 64);
        assert(n <= 0x16_0000_0000_0000 - 1);
        assert(double(x) == n * 64);
    } else {
        a_double_is_close(x, 1);
        assert(closest(x, 1) * 1 == double(x));
        assert(double(x) <= x + 64);
    }
}

/// A wait is at least its base, and short of the end of its spread.
pub proof fn wait_is_bounded(m: nat)
    requires
        m < UNIT,
    ensures
        IO_BASE_MS * MS <= spec_wait(m) < (IO_BASE_MS + IO_SPREAD_MS) * MS,
        double(m * IO_SPREAD_MS as nat) <= IO_SPREAD_MS * UNIT,
{
    spread_is_short(m);
    let y = IO_BASE_MS as nat * UNIT as nat + double(m * IO_SPREAD_MS as nat);
    assert(y / 1 == y);
    if y < 32 * 0x20_0000_0000_0000 {
        assert(grain(y) == 32) by {
            reveal_with_fuel(grain, 8);
        }
        let n = nearest_even(y, 32);
        assert(0x10_0000_0000_0000 <= n <= 0x20_0000_0000_0000);
        assert(double(y) == n * 32);
    } else {
        assert(grain(y) == 64) by {
            reveal_with_fuel(grain, 8);
        }
        let n = nearest_even(y, 64);
        assert(0x10_0000_0000_0000 <= n <= 0x1e_0000_0000_0000 - 1);
        assert(double(y) == n * 64);
    }
    assert(16 * 0x20_0000_0000_0000 <= double(y) < 60 * 0x20_0000_0000_0000);
}

/// A wait, from its draw.
fn wait(m: u64) -> (d: Ticks)
    requires
        m < UNIT,
    ensures
        d == spec_wait(m as nat),
        IO_BASE_MS * MS <= d < (IO_BASE_MS + IO_SPREAD_MS) * MS,
{
    proof {
        wait_is_bounded(m as nat);
    }
    let drawn: u128 = double_of(m as u128 * IO_SPREAD_MS as u128);
    let whole: u128 = double_of(IO_BASE_MS as u128 * UNIT as u128 + drawn) / (UNIT as u128);
    whole as u64 * MS
}

/// How many waits a draw asks for.
fn waits(m: u64) -> (n: usize)
    ensures
        n as nat == spec_waits(m as int),
        n <= 5,
{
    if m < 450_359_962_737_050 {
        0
    } else if m < 2_251_799_813_685_248 {
        1
    } else if m < 4_953_959_590_107_546 {
        2
    } else if m < 7_205_759_403_792_794 {
        3
    } else if m < 8_556_839_292_003_942 {
        4
    } else {
        5
    }
}

/// Draw the work a request brings. `work` scales the compute bursts against the shared
/// baseline: a tenant's request size.
pub fn make_phases(rng: &mut Rng, cpu_only: bool, work: u32) -> (phases: Vec<Phase>)
    ensures
        (phases@, final(rng).state) == spec_plan(old(rng).state, cpu_only, work),
{
    let mut phases: Vec<Phase> = Vec::new();
    let r: u64 = rng.fraction();
    if cpu_only {
        phases.push(Phase::Cpu(burst(r, work)));
        assert(phases@ =~= spec_plan(old(rng).state, cpu_only, work).0);
        return phases;
    }
    let n: usize = waits(r);
    let first: u64 = rng.fraction();
    let ghost opened = rng.state;
    phases.push(Phase::Cpu(burst(first, work)));
    let ghost head = phases@;
    let mut k: usize = 0;
    while k < n
        invariant
            k <= n,
            phases@ == head + spec_rounds(opened, k as nat, work).0,
            rng.state == spec_rounds(opened, k as nat, work).1,
        decreases n - k,
    {
        let ghost before = phases@;
        let a: u64 = rng.fraction();
        phases.push(Phase::Io(wait(a)));
        let b: u64 = rng.fraction();
        phases.push(Phase::Cpu(burst(b, work)));
        k += 1;
        assert(phases@ =~= head + spec_rounds(opened, k as nat, work).0);
    }
    assert(head =~= seq![Phase::Cpu(spec_burst(drawn(opened) as nat, work as nat) as u64)]);
    phases
}

/// A plan is a burst, or bursts with a wait between each two: it opens and closes on the CPU,
/// never holds two of a kind in a row, and never asks for more than five waits.
pub open spec fn alternates(phases: Seq<Phase>) -> bool {
    &&& phases.len() % 2 == 1
    &&& phases.len() <= 11
    &&& forall|i: int|
        0 <= i < phases.len() ==> ((#[trigger] phases[i]) is Cpu <==> i % 2 == 0)
}

proof fn rounds_alternate(s: u64, n: nat, work: u32)
    ensures
        spec_rounds(s, n, work).0.len() == 2 * n,
        forall|i: int|
            0 <= i < 2 * n ==> ((#[trigger] spec_rounds(s, n, work).0[i]) is Cpu <==> i % 2 == 1),
    decreases n,
{
    if n > 0 {
        rounds_alternate(s, (n - 1) as nat, work);
    }
}

/// Every plan alternates, and a request of CPU alone is one burst.
pub proof fn a_plan_alternates(s: u64, cpu_only: bool, work: u32)
    ensures
        alternates(spec_plan(s, cpu_only, work).0),
        cpu_only ==> spec_plan(s, cpu_only, work).0.len() == 1,
{
    if !cpu_only {
        let a = next_state(s);
        let b = next_state(a);
        let n = spec_waits(drawn(a) as int);
        rounds_alternate(b, n, work);
        let rounds = spec_rounds(b, n, work).0;
        let plan = spec_plan(s, cpu_only, work).0;
        assert(plan.len() == 1 + rounds.len());
        assert forall|i: int| 0 <= i < plan.len() implies ((#[trigger] plan[i]) is Cpu <==> i % 2
            == 0) by {
            if i > 0 {
                assert(plan[i] == rounds[i - 1]);
            }
        }
    }
}

proof fn a_wait_is_short(t: u64)
    ensures
        (spec_wait(drawn(t) as nat) as u64) * 20 <= u64::MAX,
{
    assert(t >> 11u64 < 0x20_0000_0000_0000u64) by (bit_vector);
    wait_is_bounded(drawn(t) as nat);
}

proof fn rounds_wait_briefly(s: u64, n: nat, work: u32)
    ensures
        forall|i: int|
            0 <= i < spec_rounds(s, n, work).0.len() ==> ((#[trigger] spec_rounds(
                s,
                n,
                work,
            ).0[i]) matches Phase::Io(d) ==> d * 20 <= u64::MAX),
    decreases n,
{
    if n > 0 {
        rounds_wait_briefly(s, (n - 1) as nat, work);
        a_wait_is_short(next_state(spec_rounds(s, (n - 1) as nat, work).1));
    }
}

/// No wait in a plan is too long to stretch to the slowest a dependency goes.
pub proof fn a_plan_waits_briefly(s: u64, cpu_only: bool, work: u32)
    ensures
        forall|i: int|
            0 <= i < spec_plan(s, cpu_only, work).0.len() ==> ((#[trigger] spec_plan(
                s,
                cpu_only,
                work,
            ).0[i]) matches Phase::Io(d) ==> d * 20 <= u64::MAX),
{
    if !cpu_only {
        let a = next_state(s);
        let b = next_state(a);
        let n = spec_waits(drawn(a) as int);
        rounds_wait_briefly(b, n, work);
        let rounds = spec_rounds(b, n, work).0;
        let plan = spec_plan(s, cpu_only, work).0;
        assert forall|i: int| 0 <= i < plan.len() implies ((#[trigger] plan[i]) matches Phase::Io(d)
            ==> d * 20 <= u64::MAX) by {
            if i > 0 {
                assert(plan[i] == rounds[i - 1]);
            }
        }
    }
}

// ----- the cost knob ---------------------------------------------------------

/// What a request of weight one costs on average, in ticks per millionth of weight: a burst
/// and one more after each of the 2.4 waits the ladder averages, each the middle of its
/// spread.
pub const COST_PER_WEIGHT: u64 = 74_800;

/// How much CPU one request asks for on average, at weight `work`: milliseconds, in ticks.
pub fn cpu_cost_ms(work: u32) -> (cost: Ticks)
    ensures
        cost == COST_PER_WEIGHT * work,
{
    assert(74_800 * work <= 74_800 * 0xffff_ffff);
    COST_PER_WEIGHT * (work as u64)
}

/// The weight that costs `cost` of CPU per request: [`cpu_cost_ms`] the other way round.
pub fn work_for_cpu_cost(cost: Ticks) -> (work: u64)
    ensures
        work == cost / COST_PER_WEIGHT,
{
    cost / COST_PER_WEIGHT
}

/// The ladder's own average, in twentieths of a wait: draws in each band times its waits.
pub open spec fn ladder_mean_twentieths() -> nat {
    0 * 1 + 1 * 4 + 2 * 6 + 3 * 5 + 4 * 3 + 5 * 1
}

/// The knob's unit is the phase plan's own: one burst plus one per wait, at the mean burst.
pub proof fn the_cost_knob_reads_the_plan()
    ensures
        20 * COST_PER_WEIGHT * 1_000_000 == (20 + ladder_mean_twentieths()) * (CPU_BASE_MS
            + CPU_SPREAD_MS / 2) * MS,
{
    assert(ladder_mean_twentieths() == 48);
    assert(CPU_BASE_MS + CPU_SPREAD_MS / 2 == 22);
}

/// Reading a cost back gives the weight it was read from.
pub proof fn a_cost_converts_back(work: u32)
    ensures
        (COST_PER_WEIGHT * work) / COST_PER_WEIGHT as int == work,
{
    assert((74_800 * work) / 74_800 == work) by (nonlinear_arith);
}

/// A draw stands for the stretch of one it opens: `m` of [`UNIT`] parts, and its middle half a part
/// further. How many waits it asks for goes by where that middle falls: none in the first twentieth
/// of the draws there are, one in the next fifth, two in the next three tenths, three in the next
/// quarter, four in the next three twentieths, and five in the last twentieth.
pub proof fn the_waits_are_the_ladders_shares(m: int)
    requires
        0 <= m < UNIT,
    ensures
        spec_waits(m) == 0 <==> 100 * m + 50 < 5 * UNIT,
        spec_waits(m) == 1 <==> 5 * UNIT <= 100 * m + 50 < 25 * UNIT,
        spec_waits(m) == 2 <==> 25 * UNIT <= 100 * m + 50 < 55 * UNIT,
        spec_waits(m) == 3 <==> 55 * UNIT <= 100 * m + 50 < 80 * UNIT,
        spec_waits(m) == 4 <==> 80 * UNIT <= 100 * m + 50 < 95 * UNIT,
        spec_waits(m) == 5 <==> 95 * UNIT <= 100 * m + 50,
{
}

/// A greater draw never asks for fewer waits.
pub proof fn a_greater_draw_waits_no_less(m: int, more: int)
    requires
        0 <= m <= more < UNIT,
    ensures
        spec_waits(m) <= spec_waits(more),
{
}

/// How many of some phases are waits.
pub open spec fn waits_in(phases: Seq<Phase>) -> nat {
    phases.filter(|p: Phase| p is Io).len()
}

proof fn every_other_phase_waits(phases: Seq<Phase>)
    requires
        forall|i: int| 0 <= i < phases.len() ==> ((#[trigger] phases[i]) is Cpu <==> i % 2 == 0),
    ensures
        waits_in(phases) == phases.len() / 2,
    decreases phases.len(),
{
    reveal(Seq::filter);
    if phases.len() > 0 {
        let front = phases.drop_last();
        assert forall|i: int| 0 <= i < front.len() implies ((#[trigger] front[i]) is Cpu <==> i % 2
            == 0) by {
            assert(phases[i] is Cpu <==> i % 2 == 0);
        }
        every_other_phase_waits(front);
        assert(phases[phases.len() - 1] is Cpu <==> (phases.len() - 1) % 2 == 0);
    }
}

/// A request's first draw says how many times it waits, and it computes once more than that: the
/// waits in its plan are the share of the ladder its draw falls in.
pub proof fn a_plan_waits_by_its_first_draw(s: u64, work: u32)
    ensures
        ({
            let plan = spec_plan(s, false, work).0;
            let middle = 100 * (next_state(s) >> 11u64) + 50;
            &&& plan.len() == 2 * waits_in(plan) + 1
            &&& waits_in(plan) == 0 <==> middle < 5 * UNIT
            &&& waits_in(plan) == 1 <==> 5 * UNIT <= middle < 25 * UNIT
            &&& waits_in(plan) == 2 <==> 25 * UNIT <= middle < 55 * UNIT
            &&& waits_in(plan) == 3 <==> 55 * UNIT <= middle < 80 * UNIT
            &&& waits_in(plan) == 4 <==> 80 * UNIT <= middle < 95 * UNIT
            &&& waits_in(plan) == 5 <==> 95 * UNIT <= middle
        }),
        waits_in(spec_plan(s, true, work).0) == 0,
{
    let a = next_state(s);
    assert(a >> 11u64 < 0x20_0000_0000_0000u64) by (bit_vector);
    let plan = spec_plan(s, false, work).0;
    a_plan_alternates(s, false, work);
    a_plan_alternates(s, true, work);
    every_other_phase_waits(plan);
    every_other_phase_waits(spec_plan(s, true, work).0);
    rounds_alternate(next_state(a), spec_waits(drawn(a) as int), work);
    the_waits_are_the_ladders_shares(drawn(a) as int);
}

/// Tenants are told apart by their names, and none of them sends nothing.
pub proof fn tenants_are_told_apart(j: int, k: int)
    requires
        0 <= j < TENANT_COUNT,
        0 <= k < TENANT_COUNT,
    ensures
        spec_tenant(j).id@ == spec_tenant(k).id@ ==> j == k,
        spec_tenant(j).tint == spec_tenant(k).tint ==> j == k,
        spec_tenant(j).work == spec_tenant(k).work,
        spec_tenant(0).rate + spec_tenant(1).rate + spec_tenant(2).rate == 240_000,
        spec_tenant(1).rate < spec_tenant(2).rate < spec_tenant(0).rate,
{
    a_tenant_is_found_by_its_name(j);
    a_tenant_is_found_by_its_name(k);
}

/// A plan is drawn in order: its first draw says how many waits it has, its second its first burst,
/// and then each wait and each burst after it take the next draw in turn; and what is left of the
/// stream is what follows the last of them.
pub proof fn a_plan_takes_its_draws_in_turn(s: u64, work: u32, i: int)
    requires
        0 <= i < spec_plan(s, false, work).0.len(),
    ensures
        ({
            let (plan, rest) = spec_plan(s, false, work);
            let draw = drawn(after_draws(s, (i + 2) as nat)) as nat;
            &&& i % 2 == 0 ==> plan[i] == Phase::Cpu(spec_burst(draw, work as nat) as u64)
            &&& i % 2 == 1 ==> plan[i] == Phase::Io(spec_wait(draw) as u64)
            &&& rest == after_draws(s, plan.len() + 1)
        }),
        spec_plan(s, true, work).1 == after_draws(s, 1),
{
    reveal_with_fuel(after_draws, 3);
    let b = next_state(next_state(s));
    assert(after_draws(s, 2) == b);
    let n = spec_waits(drawn(next_state(s)) as int);
    rounds_take_their_draws_in_turn(s, b, n, work, i - 1);
}

/// The stream after so many draws.
pub open spec fn after_draws(s: u64, n: nat) -> u64
    decreases n,
{
    if n == 0 {
        s
    } else {
        next_state(after_draws(s, (n - 1) as nat))
    }
}

proof fn rounds_take_their_draws_in_turn(s: u64, b: u64, n: nat, work: u32, i: int)
    requires
        b == after_draws(s, 2),
    ensures
        ({
            let (rounds, rest) = spec_rounds(b, n, work);
            let draw = drawn(after_draws(s, (i + 3) as nat)) as nat;
            &&& rounds.len() == 2 * n
            &&& rest == after_draws(s, 2 * n + 2)
            &&& 0 <= i < rounds.len() && i % 2 == 0 ==> rounds[i] == Phase::Io(
                spec_wait(draw) as u64,
            )
            &&& 0 <= i < rounds.len() && i % 2 == 1 ==> rounds[i] == Phase::Cpu(
                spec_burst(draw, work as nat) as u64,
            )
        }),
    decreases n,
{
    if n > 0 {
        rounds_take_their_draws_in_turn(s, b, (n - 1) as nat, work, i);
        let t = after_draws(s, (2 * n) as nat);
        assert(after_draws(s, (2 * n + 1) as nat) == next_state(t));
        assert(after_draws(s, (2 * n + 2) as nat) == next_state(next_state(t)));
        assert((2 * (n - 1) + 2) as nat == 2 * n);
    }
}

proof fn a_sum_is_rounded_closely(base: nat, spread: nat, m: nat)
    requires
        m < UNIT,
        base + spread <= 60,
    ensures
        ({
            let y = double(base * UNIT as nat + double(m * spread));
            let x = base * UNIT + m * spread;
            &&& y <= x + 200
            &&& x <= y + 200
        }),
{
    let unit = UNIT as nat;
    let p = m * spread;
    a_double_is_close(p, 1);
    let d = double(p);
    assert(p <= unit * 60) by (nonlinear_arith)
        requires
            p == m * spread,
            m < unit,
            spread <= 60,
    ;
    assert(unit * d <= unit * p + p && unit * p <= unit * d + p);
    assert(d <= p + 60 && p <= d + 60) by (nonlinear_arith)
        requires
            unit * d <= unit * p + p,
            unit * p <= unit * d + p,
            p <= unit * 60,
            unit > 0,
    ;
    let q = base * unit + d;
    assert(base * unit <= unit * 60) by (nonlinear_arith)
        requires
            base <= 60,
    ;
    a_double_is_close(q, 1);
    let y = double(q);
    assert(q <= unit * 121);
    assert(unit * y <= unit * q + q && unit * q <= unit * y + q);
    assert(y <= q + 121 && q <= y + 121) by (nonlinear_arith)
        requires
            unit * y <= unit * q + q,
            unit * q <= unit * y + q,
            q <= unit * 121,
            unit > 0,
    ;
}

/// A wait is whole milliseconds: sixteen, and of forty-four more the share that was drawn, down to
/// the millisecond below, but for the rounding of a sum.
pub proof fn a_wait_is_its_draws_share(m: nat)
    requires
        m < UNIT,
    ensures
        spec_wait(m) % 1_000_000_000 == 0,
        ({
            let ms = spec_wait(m) / 1_000_000_000;
            &&& UNIT * ms <= 16 * UNIT + 44 * m + 200
            &&& 16 * UNIT + 44 * m < UNIT * ms + UNIT + 200
        }),
{
    a_sum_is_rounded_closely(16, 44, m);
    let y = double(16 * UNIT as nat + double(m * 44));
    let w = y / UNIT as nat;
    lemma_fundamental_div_mod(y as int, UNIT as int);
    assert(spec_wait(m) == w * 1_000_000_000);
    assert((w * 1_000_000_000) / 1_000_000_000 == w && (w * 1_000_000_000) % 1_000_000_000 == 0);
}

/// A whole burst is twelve milliseconds, and of twenty more the share that was drawn, to the nearest
/// tick, but for the rounding of a sum.
pub proof fn a_burst_is_its_draws_share(m: nat)
    requires
        m < UNIT,
    ensures
        ({
            let burst = spec_burst(m, 1_000_000);
            let share = 12 * UNIT + 20 * m;
            &&& 2 * (UNIT * burst) <= 2_000_000_000 * (share + 200) + UNIT
            &&& 2_000_000_000 * (share - 200) <= 2 * (UNIT * burst) + UNIT
        }),
{
    a_sum_is_rounded_closely(12, 20, m);
    a_whole_weight_changes_nothing(m);
    let y = burst_share(m);
    crate::text::a_rounding_is_the_nearest(y * 1_000_000_000, UNIT as nat);
    let burst = spec_burst(m, 1_000_000);
    assert(burst == nearest_even(y * 1_000_000_000, UNIT as nat));
    let share = 12 * UNIT + 20 * m;
    assert(m * 20 == 20 * m);
    assert(y <= share + 200 && share <= y + 200);
    assert(2 * (UNIT * burst) <= 2 * (y * 1_000_000_000) + UNIT);
    assert(2 * (y * 1_000_000_000) <= 2 * (UNIT * burst) + UNIT);
    assert(2 * (y * 1_000_000_000) == 2_000_000_000 * y) by (nonlinear_arith);
    assert(2_000_000_000 * y <= 2_000_000_000 * (share + 200));
    assert(2_000_000_000 * (share - 200) <= 2_000_000_000 * y);
}

} // verus!
