//! A percentile reading and the dial that moves it: one column of a comparison.

use vstd::prelude::*;

use crate::atoms::stage::Paint;
use crate::atoms::waterfall::Leg;
use crate::text::{decimal, digits, push_text};

verus! {

/// The lowest and highest percentiles a dial may stand at. The ends are not readings: p0 is the
/// one client who got lucky and p100 the one who did not.
pub const CUT_LOW: u32 = 1;

pub const CUT_HIGH: u32 = 99;

/// One of the phases a trip is cut into: its name, the colour it wears, and whether it is time
/// spent waiting in a queue.
#[derive(Clone, Copy, PartialEq, Eq, Debug)]
pub struct PhaseRow {
    pub label: &'static str,
    pub ink: Paint,
    pub waiting: bool,
}

/// The row of a phase with nothing in it yet.
pub open spec fn empty_leg(p: PhaseRow) -> Leg {
    Leg { label: p.label, ms: None, give: None, against: None, ink: p.ink }
}

/// The phases with nothing in them yet: what a column reads before anything has come home.
pub fn at_rest(phases: &Vec<PhaseRow>) -> (legs: Vec<Leg>)
    ensures
        legs@ == phases@.map_values(|p: PhaseRow| empty_leg(p)),
{
    let mut legs: Vec<Leg> = Vec::new();
    let mut i: usize = 0;
    while i < phases.len()
        invariant
            i <= phases@.len(),
            legs@.len() == i,
            forall|j: int| 0 <= j < i ==> #[trigger] legs@[j] == empty_leg(phases@[j]),
        decreases phases@.len() - i,
    {
        let p: PhaseRow = phases[i];
        legs.push(Leg { label: p.label, ms: None, give: None, against: None, ink: p.ink });
        i += 1;
    }
    assert(legs@ =~= phases@.map_values(|p: PhaseRow| empty_leg(p)));
    legs
}

/// What a dial's readout says.
pub fn cut_label(pc: u32) -> (s: String)
    ensures
        s@ == "p"@ + digits(pc as nat),
{
    let mut s = "p".to_owned();
    push_text(&mut s, &decimal(pc as u64));
    s
}

/// A colour, by its three channels.
#[derive(Clone, Copy, PartialEq, Eq, Structural, Debug)]
pub struct Rgb {
    pub r: u64,
    pub g: u64,
    pub b: u64,
}

pub open spec fn calm() -> Rgb {
    Rgb { r: 122, g: 154, b: 94 }
}

pub open spec fn late() -> Rgb {
    Rgb { r: 218, g: 102, b: 38 }
}

pub open spec fn worst() -> Rgb {
    Rgb { r: 220, g: 55, b: 66 }
}

/// A channel part of the way from one to another, to the nearest; a tie goes up.
pub open spec fn mixed(from: int, to: int, part: int, of: int) -> int {
    (2 * (from * of + (to - from) * part) + of) / (2 * of)
}

pub open spec fn mixed_rgb(from: Rgb, to: Rgb, part: int, of: int) -> Rgb {
    Rgb {
        r: mixed(from.r as int, to.r as int, part, of) as u64,
        g: mixed(from.g as int, to.g as int, part, of) as u64,
        b: mixed(from.b as int, to.b as int, part, of) as u64,
    }
}

/// A reading's colour by where it stands: calm to the median, warming through the late
/// percentiles, and the worst of them wearing the colour a refusal wears.
pub open spec fn ramp_rgb(pc: u32) -> Rgb {
    if pc <= 50 {
        calm()
    } else if pc <= 90 {
        mixed_rgb(calm(), late(), pc - 50, 40)
    } else if pc <= 100 {
        mixed_rgb(late(), worst(), pc - 90, 10)
    } else {
        worst()
    }
}

pub open spec fn rgb_text(c: Rgb) -> Seq<char> {
    "rgb("@ + digits(c.r as nat) + " "@ + digits(c.g as nat) + " "@ + digits(c.b as nat) + ")"@
}

/// A channel part of the way from one to another.
fn mix(from: u64, to: u64, part: u64, of: u64) -> (c: u64)
    requires
        from <= 255,
        to <= 255,
        part <= of,
        0 < of <= 40,
    ensures
        c == mixed(from as int, to as int, part as int, of as int),
{
    assert(from * of - from * part == from * (of - part)) by (nonlinear_arith);
    assert(0 <= from * of <= 255 * 40 && 0 <= from * part <= 255 * 40 && 0 <= to * part <= 255 * 40
        && from * part <= from * of) by (nonlinear_arith)
        requires
            from <= 255,
            to <= 255,
            part <= of <= 40,
    ;
    assert((to - from) * part == to * part - from * part) by (nonlinear_arith);
    let sum: u64 = from * of - from * part + to * part;
    (2 * sum + of) / (2 * of)
}

/// A reading's colour by where it stands.
pub fn ramp(pc: u32) -> (s: String)
    ensures
        s@ == rgb_text(ramp_rgb(pc)),
{
    let (r, g, b): (u64, u64, u64) = if pc <= 50 {
        (122, 154, 94)
    } else if pc <= 90 {
        let t: u64 = (pc - 50) as u64;
        (mix(122, 218, t, 40), mix(154, 102, t, 40), mix(94, 38, t, 40))
    } else if pc <= 100 {
        let t: u64 = (pc - 90) as u64;
        (mix(218, 220, t, 10), mix(102, 55, t, 10), mix(38, 66, t, 10))
    } else {
        (220, 55, 66)
    };
    let mut s = "rgb(".to_owned();
    push_text(&mut s, &decimal(r));
    push_text(&mut s, " ");
    push_text(&mut s, &decimal(g));
    push_text(&mut s, " ");
    push_text(&mut s, &decimal(b));
    push_text(&mut s, ")");
    s
}

/// The property a column publishes its colour under.
pub const CUT_INK: &'static str = "--cut-ink";

/// The declaration a column publishes so everything inside it takes the reading's colour.
pub fn ink_of(pc: u32) -> (s: String)
    ensures
        s@ == CUT_INK@ + ":"@ + rgb_text(ramp_rgb(pc)),
{
    let mut s = CUT_INK.to_owned();
    push_text(&mut s, ":");
    push_text(&mut s, &ramp(pc));
    s
}

/// None of the way is where it started, and all of the way is where it was going.
proof fn a_mix_meets_its_ends(from: int, to: int, of: int)
    requires
        of > 0,
    ensures
        mixed(from, to, 0, of) == from,
        mixed(from, to, of, of) == to,
{
    assert((to - from) * 0 == 0) by (nonlinear_arith);
    assert((2 * (from * of) + of) / (2 * of) == from) by (nonlinear_arith)
        requires
            of > 0,
    ;
    assert(from * of + (to - from) * of == to * of) by (nonlinear_arith);
    assert((2 * (to * of) + of) / (2 * of) == to) by (nonlinear_arith)
        requires
            of > 0,
    ;
}

/// The ramp has no seam: the two halves agree where they meet, and it ends on the worst.
pub proof fn the_ramp_meets_itself()
    ensures
        mixed_rgb(calm(), late(), 0, 40) == calm(),
        mixed_rgb(late(), worst(), 0, 10) == ramp_rgb(90),
        ramp_rgb(50) == calm(),
        ramp_rgb(90) == late(),
        ramp_rgb(100) == worst(),
{
    a_mix_meets_its_ends(122, 218, 40);
    a_mix_meets_its_ends(154, 102, 40);
    a_mix_meets_its_ends(94, 38, 40);
    a_mix_meets_its_ends(218, 220, 10);
    a_mix_meets_its_ends(102, 55, 10);
    a_mix_meets_its_ends(38, 66, 10);
}

/// A mixed colour lies between the two it is mixed of, as far from the one as its part of the way
/// is, to the nearest.
pub proof fn a_mix_lies_on_the_way(from: int, to: int, part: int, of: int)
    requires
        0 <= from,
        0 <= to,
        0 <= part <= of,
        0 < of,
    ensures
        2 * of * mixed(from, to, part, of) <= 2 * (from * of + (to - from) * part) + of,
        2 * (from * of + (to - from) * part) + of < 2 * of * mixed(from, to, part, of) + 2 * of,
        mixed(from, to, 0, of) == from,
        mixed(from, to, of, of) == to,
{
    let x = 2 * (from * of + (to - from) * part) + of;
    vstd::arithmetic::div_mod::lemma_fundamental_div_mod(x, 2 * of);
    let ends = 2 * (from * of) + of;
    assert((to - from) * 0 == 0);
    assert(ends / (2 * of) == from) by (nonlinear_arith)
        requires
            ends == 2 * (from * of) + of,
            0 < of,
            0 <= from,
    ;
    let other = 2 * (from * of + (to - from) * of) + of;
    assert(other / (2 * of) == to) by (nonlinear_arith)
        requires
            other == 2 * (from * of + (to - from) * of) + of,
            0 < of,
            0 <= to,
    ;
}

/// The ramp is calm up to the middle, and from there turns evenly: over the next forty to late, and
/// over the last ten to the worst.
pub proof fn the_ramp_turns_evenly(pc: u32)
    ensures
        pc <= 50 ==> ramp_rgb(pc) == calm(),
        50 <= pc <= 90 ==> ramp_rgb(pc) == mixed_rgb(calm(), late(), pc - 50, 40),
        90 <= pc <= 100 ==> ramp_rgb(pc) == mixed_rgb(late(), worst(), pc - 90, 10),
        pc >= 100 ==> ramp_rgb(pc) == worst(),
{
    the_ramp_meets_itself();
}

/// A row at rest is its phase's, with nothing read of it.
pub proof fn a_row_at_rest_has_no_reading(p: PhaseRow)
    ensures
        empty_leg(p).label == p.label && empty_leg(p).ink == p.ink,
        empty_leg(p).ms is None && empty_leg(p).give is None && empty_leg(p).against is None,
{
}

} // verus!
