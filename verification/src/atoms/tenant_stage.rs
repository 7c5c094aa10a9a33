//! The tenants-and-servers stage: each tenant's wire to each server, and what is on it.

use vstd::prelude::*;

use crate::atoms::stage::{painted, spec_painted, Paint};
use crate::atoms::wires::{marks, marks_out};
use crate::engine::clock::Part;
use crate::engine::outcome::HOMEWARD;
use crate::text::push_text;

verus! {

/// A laid-out element of the stage reporting where it ended up.
#[derive(Clone, Copy, PartialEq, Eq, Structural, Debug)]
pub enum Measured {
    Stage,
    Tenant(usize),
    Server(usize),
}

/// One tenant's connection to one server, and what is on it this frame. Both ends are named, since
/// a tenant talking to a fleet has one of these per server.
pub struct Wire {
    pub tenant: usize,
    pub server: usize,
    /// How this tenant's traffic has been going as a whole.
    pub shed: bool,
    /// The requests travelling out, each at how far along it is.
    pub sent: Vec<Part>,
    /// The verdicts travelling home, one lane per homeward outcome.
    pub home: Vec<Vec<Part>>,
}

/// One tenant's dot.
#[derive(Clone, Copy, PartialEq, Eq, Debug)]
pub struct TenantDot {
    pub name: &'static str,
    pub tint: Paint,
}

/// A dot's ring.
pub fn dot_ring(t: &TenantDot) -> (s: String)
    ensures
        s@ == spec_painted("border-color"@, t.tint),
{
    painted("border-color", t.tint)
}

/// Whether `s` is the declaration of the dashes at `at`.
pub open spec fn dashes(s: Seq<char>, at: Seq<Part>) -> bool {
    exists|d: Seq<char>| #[trigger] marks_out(d, at) && s == "stroke-dasharray:"@ + d
}

/// The outbound stroke: one dash per request on the wire.
pub fn outbound(wire: &Wire) -> (s: String)
    ensures
        dashes(s@, wire.sent@),
{
    let d = marks(&wire.sent);
    let mut s = "stroke-dasharray:".to_owned();
    push_text(&mut s, d.as_str());
    assert(marks_out(d@, wire.sent@));
    s
}

/// What a lane home carries: nothing where the wire has no such lane.
pub open spec fn lane_of(wire: Wire, lane: int) -> Seq<Part> {
    if lane < wire.home@.len() {
        wire.home@[lane]@
    } else {
        Seq::empty()
    }
}

/// Whether `s` is a lane's stroke in its verdict's colour.
pub open spec fn reply_stroke(s: Seq<char>, col: Paint, at: Seq<Part>) -> bool {
    exists|d: Seq<char>| #[trigger]
        marks_out(d, at) && s == spec_painted("stroke"@, col) + ";stroke-dasharray:"@ + d
}

/// One lane's stroke: that verdict's colour, and whatever of it is on the way home.
pub fn reply(wire: &Wire, lane: usize, col: Paint) -> (s: String)
    requires
        lane < HOMEWARD@.len(),
    ensures
        reply_stroke(s@, col, lane_of(*wire, lane as int)),
{
    let d = if lane < wire.home.len() {
        marks(&wire.home[lane])
    } else {
        let none: Vec<Part> = Vec::new();
        assert(none@ =~= Seq::empty());
        marks(&none)
    };
    let mut s = painted("stroke", col);
    push_text(&mut s, ";stroke-dasharray:");
    push_text(&mut s, d.as_str());
    assert(marks_out(d@, lane_of(*wire, lane as int)));
    s
}

/// A lane home carries its own marks, and one that a wire does not have carries none.
pub proof fn a_lane_carries_its_own(wire: Wire, lane: int)
    requires
        0 <= lane,
    ensures
        lane < wire.home@.len() ==> lane_of(wire, lane) == wire.home@[lane]@,
        lane >= wire.home@.len() ==> lane_of(wire, lane).len() == 0,
{
}

} // verus!
