//! The experience boxplot: one row per phase, its box, its median, and its share of the total.

use vstd::prelude::*;

use crate::atoms::stage::{painted, spec_painted, Paint};
use crate::atoms::waterfall::{spec_axis, whole_ms};
use crate::engine::clock::{Ticks, MS};
use crate::text::{decimal, digits, percent, percent_text, push_text, to_nearest_up};

verus! {

/// One phase's bar.
#[derive(Clone, Copy, PartialEq, Eq, Debug)]
pub struct Bar {
    pub label: &'static str,
    pub p25: Ticks,
    pub p50: Ticks,
    pub p95: Ticks,
    /// Share of the total, in percent; nothing where the rows do not partition one.
    pub pct: Option<u32>,
    pub hue: Paint,
    /// The total row draws heavier and sits under a divider.
    pub total: bool,
}

/// A row and the axis it is drawn against, so that a bar can never be scaled by another reading's.
#[derive(Clone, Copy, PartialEq, Eq, Debug)]
pub struct Scaled {
    pub bar: Bar,
    pub axis: Ticks,
}

/// Which end of the box a whisker marks.
#[derive(Clone, Copy, PartialEq, Eq, Structural, Debug)]
pub enum Edge {
    P25,
    P95,
}

/// Every row against one axis.
pub fn scaled(bars: &Vec<Bar>, axis: Ticks) -> (rows: Vec<Scaled>)
    ensures
        rows@ == bars@.map_values(|bar: Bar| Scaled { bar, axis: spec_axis(axis) }),
{
    let axis: Ticks = if axis > MS {
        axis
    } else {
        MS
    };
    let mut rows: Vec<Scaled> = Vec::new();
    let mut i: usize = 0;
    while i < bars.len()
        invariant
            i <= bars@.len(),
            rows@.len() == i,
            forall|j: int| 0 <= j < i ==> #[trigger] rows@[j] == (Scaled { bar: bars@[j], axis }),
        decreases bars@.len() - i,
    {
        rows.push(Scaled { bar: bars[i], axis });
        i += 1;
    }
    assert(rows@ =~= bars@.map_values(|bar: Bar| Scaled { bar, axis }));
    rows
}

/// Whether the shares column applies at all: a property of the cut, not of a row.
pub fn shares(bars: &Vec<Bar>) -> (b: bool)
    ensures
        b == exists|i: int| 0 <= i < bars@.len() && (#[trigger] bars@[i]).pct is Some,
{
    let mut i: usize = 0;
    while i < bars.len()
        invariant
            i <= bars@.len(),
            forall|j: int| 0 <= j < i ==> (#[trigger] bars@[j]).pct is None,
        decreases bars@.len() - i,
    {
        if bars[i].pct.is_some() {
            assert(bars@[i as int].pct is Some);
            return true;
        }
        i += 1;
    }
    false
}

/// The median, as the row reads it.
pub fn p50(r: &Scaled) -> (s: String)
    ensures
        s@ == whole_ms(r.bar.p50 as nat),
{
    let mut s = decimal(to_nearest_up(r.bar.p50, MS));
    push_text(&mut s, " ms");
    s
}

/// The share, as the row reads it.
pub fn pct(r: &Scaled) -> (s: String)
    ensures
        s@ == (match r.bar.pct {
            Some(share) => digits(share as nat) + "%"@,
            None => Seq::empty(),
        }),
{
    match r.bar.pct {
        Some(share) => {
            let mut s = decimal(share as u64);
            push_text(&mut s, "%");
            s
        },
        None => {
            let s = String::new();
            assert(s@ =~= Seq::empty());
            s
        },
    }
}

/// The box: from the lower quartile to the late tail, in the row's own hue.
pub fn box_at(r: &Scaled) -> (s: String)
    requires
        r.axis > 0,
    ensures
        s@ == spec_painted("background"@, r.bar.hue) + ";left:"@ + percent_text(
            r.bar.p25 as nat,
            r.axis as nat,
        ) + ";width:"@ + percent_text(
            if r.bar.p95 > r.bar.p25 {
                (r.bar.p95 - r.bar.p25) as nat
            } else {
                0
            },
            r.axis as nat,
        ),
{
    let wide: u64 = if r.bar.p95 > r.bar.p25 {
        r.bar.p95 - r.bar.p25
    } else {
        0
    };
    let mut s = painted("background", r.bar.hue);
    push_text(&mut s, ";left:");
    push_text(&mut s, &percent(r.bar.p25 as u128, r.axis as u128));
    push_text(&mut s, ";width:");
    push_text(&mut s, &percent(wide as u128, r.axis as u128));
    s
}

/// One end of the box, marked.
pub fn whisker(r: &Scaled, edge: Edge) -> (s: String)
    requires
        r.axis > 0,
    ensures
        s@ == "left:"@ + percent_text(
            (match edge {
                Edge::P25 => r.bar.p25,
                Edge::P95 => r.bar.p95,
            }) as nat,
            r.axis as nat,
        ),
{
    let x: u64 = match edge {
        Edge::P25 => r.bar.p25,
        Edge::P95 => r.bar.p95,
    };
    let mut s = "left:".to_owned();
    push_text(&mut s, &percent(x as u128, r.axis as u128));
    s
}

/// The median line.
pub fn median(r: &Scaled) -> (s: String)
    requires
        r.axis > 0,
    ensures
        s@ == spec_painted("background"@, r.bar.hue) + ";left:"@ + percent_text(
            r.bar.p50 as nat,
            r.axis as nat,
        ),
{
    let mut s = painted("background", r.bar.hue);
    push_text(&mut s, ";left:");
    push_text(&mut s, &percent(r.bar.p50 as u128, r.axis as u128));
    s
}

} // verus!
