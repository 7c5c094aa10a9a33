//! A labelled range control: the scale it spans, the name beside it, and how it reads.

use vstd::prelude::*;

use crate::text::{decimal, digits, percent, percent_text, push_text};

verus! {

/// The scale a slider spans and the resolution it moves in.
#[derive(Clone, Copy, PartialEq, Eq, Structural, Debug)]
pub struct Scale {
    pub min: u32,
    pub max: u32,
    pub step: u32,
}

impl Scale {
    /// A scale from `min` to `max`, moving by `step`.
    pub fn new(min: u32, max: u32, step: u32) -> (s: Scale)
        ensures
            s == (Scale { min, max, step }),
    {
        Scale { min, max, step }
    }

    /// How long the rail is: at least one, so a scale of one place still has a rail.
    pub open spec fn spec_span(self) -> int {
        if self.max > self.min {
            self.max - self.min
        } else {
            1
        }
    }

    /// Where a value stands on this scale, as how far along a rail of how long. Below the rail
    /// it stands at the start, and past it at the end.
    pub fn along(&self, v: u32) -> (place: (u32, u32))
        ensures
            place.1 == self.spec_span(),
            place.0 == (if v <= self.min {
                0
            } else if v - self.min >= self.spec_span() {
                self.spec_span()
            } else {
                v - self.min
            }),
            place.0 <= place.1,
    {
        let span: u32 = if self.max > self.min {
            self.max - self.min
        } else {
            1
        };
        let at: u32 = v.saturating_sub(self.min);
        (if at < span { at } else { span }, span)
    }
}

/// How a slider names itself: the word beside it and the width that word is set in.
#[derive(Clone, Copy)]
pub struct Name {
    pub text: &'static str,
    pub width: u32,
}

impl Name {
    /// A name set in `width`.
    pub fn new(text: &'static str, width: u32) -> (n: Name)
        ensures
            n == (Name { text, width }),
    {
        Name { text, width }
    }

    /// The width the word is set in, so that the rails line up down a row of controls.
    pub fn set_in(&self) -> (s: String)
        ensures
            s@ == "min-width:"@ + digits(self.width as nat) + "px"@,
    {
        let mut s = "min-width:".to_owned();
        push_text(&mut s, &decimal(self.width as u64));
        push_text(&mut s, "px");
        s
    }
}

/// What the readout wears: a colour of its own and a wash of it, or nothing where it keeps the
/// control palette's.
pub open spec fn pill_text(ink: Option<&str>) -> Seq<char> {
    match ink {
        Some(ink) => "color:"@ + ink@ + ";background:color-mix(in srgb, "@ + ink@
            + " 16%, transparent)"@,
        None => Seq::empty(),
    }
}

/// What the readout wears.
pub fn pill(ink: Option<&str>) -> (s: String)
    ensures
        s@ == pill_text(ink),
{
    match ink {
        Some(ink) => {
            let mut s = "color:".to_owned();
            push_text(&mut s, ink);
            push_text(&mut s, ";background:color-mix(in srgb, ");
            push_text(&mut s, ink);
            push_text(&mut s, " 16%, transparent)");
            s
        },
        None => {
            let s = String::new();
            assert(s@ =~= Seq::empty());
            s
        },
    }
}

/// The colours the control palette gives an untinted slider's fill and its grab.
pub const RAIL_FILL: &'static str = "var(--palette-rail-fill)";

pub const GRAB: &'static str = "var(--palette-grab)";

/// What the fill and the grab wear: a tint replaces both, because a knob and the length behind it
/// are one quantity.
pub fn inks(tint: Option<&'static str>) -> (inks: (&'static str, &'static str))
    ensures
        inks == (match tint {
            Some(tint) => (tint, tint),
            None => (RAIL_FILL, GRAB),
        }),
{
    match tint {
        Some(tint) => (tint, tint),
        None => (RAIL_FILL, GRAB),
    }
}

/// The grab's colour, published for the rule that draws it.
pub fn grab_of(ink: &str) -> (s: String)
    ensures
        s@ == "--knob-grab:"@ + ink@,
{
    let mut s = "--knob-grab:".to_owned();
    push_text(&mut s, ink);
    s
}

impl Scale {
    /// How much of the rail a value fills, and in what.
    pub fn fill(&self, v: u32, ink: &str) -> (s: String)
        ensures
            s@ == "width:"@ + percent_text(
                (if v <= self.min {
                    0
                } else if v - self.min >= self.spec_span() {
                    self.spec_span()
                } else {
                    v - self.min
                }) as nat,
                self.spec_span() as nat,
            ) + ";background:"@ + ink@,
    {
        let (at, span): (u32, u32) = self.along(v);
        let mut s = "width:".to_owned();
        push_text(&mut s, &percent(at as u128, span as u128));
        push_text(&mut s, ";background:");
        push_text(&mut s, ink);
        s
    }
}

/// An arrival rate, as every sim that shows one writes it.
pub fn fmt_qps(v: u64) -> (s: String)
    ensures
        s@ == digits(v as nat) + "/s"@,
{
    let mut s = decimal(v);
    push_text(&mut s, "/s");
    s
}

/// A scale spans from its least to its most, and is never of no length.
pub proof fn a_scale_is_never_of_no_length(s: Scale)
    ensures
        s.spec_span() >= 1,
        s.max > s.min ==> s.spec_span() == s.max - s.min,
        s.max <= s.min ==> s.spec_span() == 1,
{
}

/// A pill is drawn in its ink, faintly behind in the same, and not at all without one.
pub proof fn a_pill_is_drawn_in_its_ink(ink: &str)
    ensures
        pill_text(None).len() == 0,
        pill_text(Some(ink)) == "color:"@ + ink@ + ";background:color-mix(in srgb, "@ + ink@
            + " 16%, transparent)"@,
{
}

} // verus!
