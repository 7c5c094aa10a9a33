//! The stage's palette: the vocabulary the diagrams teach, one hue per station.

use vstd::prelude::*;

use crate::text::push_text;

verus! {

/// A colour of the palette, known by the custom property its value is published under.
#[derive(Clone, Copy, PartialEq, Eq, Structural, Debug)]
pub enum Paint {
    /// The ground the machine is drawn on.
    Ground,
    /// The channel a request travels down.
    Channel,
    /// The wall between the ground and a channel.
    Wall,
    /// An idle core, and whatever has no colour of its own.
    Core,
    Teal,
    Amber,
    Blue,
    Grey,
    Purple,
    Green,
    Orange,
    Salmon,
    Red,
    Ink,
    Muted,
    /// The hue of being let in, washed out: a route available rather than one taken.
    WashServed,
    /// The hue of timing out, washed out.
    WashTimeout,
    /// Nothing to show, which is still a colour to write.
    Clear,
}

impl Paint {
    /// The custom property it is published under.
    pub open spec fn spec_name(self) -> Seq<char> {
        match self {
            Paint::Ground => "--stage-ground"@,
            Paint::Channel => "--stage-channel"@,
            Paint::Wall => "--stage-wall"@,
            Paint::Core => "--stage-core"@,
            Paint::Teal => "--stage-teal"@,
            Paint::Amber => "--stage-amber"@,
            Paint::Blue => "--stage-blue"@,
            Paint::Grey => "--stage-grey"@,
            Paint::Purple => "--stage-purple"@,
            Paint::Green => "--stage-green"@,
            Paint::Orange => "--stage-orange"@,
            Paint::Salmon => "--stage-salmon"@,
            Paint::Red => "--stage-red"@,
            Paint::Ink => "--stage-ink"@,
            Paint::Muted => "--stage-muted"@,
            Paint::WashServed => "--stage-wash-served"@,
            Paint::WashTimeout => "--stage-wash-timeout"@,
            Paint::Clear => "--stage-clear"@,
        }
    }

    /// The colour as an inline value.
    pub open spec fn spec_value(self) -> Seq<char> {
        "var("@ + self.spec_name() + ")"@
    }

    /// The custom property it is published under.
    pub fn name(self) -> (s: &'static str)
        ensures
            s@ == self.spec_name(),
    {
        match self {
            Paint::Ground => "--stage-ground",
            Paint::Channel => "--stage-channel",
            Paint::Wall => "--stage-wall",
            Paint::Core => "--stage-core",
            Paint::Teal => "--stage-teal",
            Paint::Amber => "--stage-amber",
            Paint::Blue => "--stage-blue",
            Paint::Grey => "--stage-grey",
            Paint::Purple => "--stage-purple",
            Paint::Green => "--stage-green",
            Paint::Orange => "--stage-orange",
            Paint::Salmon => "--stage-salmon",
            Paint::Red => "--stage-red",
            Paint::Ink => "--stage-ink",
            Paint::Muted => "--stage-muted",
            Paint::WashServed => "--stage-wash-served",
            Paint::WashTimeout => "--stage-wash-timeout",
            Paint::Clear => "--stage-clear",
        }
    }

    /// The colour as an inline value: a reference to its custom property.
    pub fn value(self) -> (s: String)
        ensures
            s@ == self.spec_value(),
    {
        let mut s = "var(".to_owned();
        push_text(&mut s, self.name());
        push_text(&mut s, ")");
        s
    }
}

/// A declaration giving `property` this colour.
pub open spec fn spec_painted(property: Seq<char>, paint: Paint) -> Seq<char> {
    property + ":"@ + paint.spec_value()
}

/// A declaration giving `property` this colour.
pub fn painted(property: &str, paint: Paint) -> (s: String)
    ensures
        s@ == spec_painted(property@, paint),
{
    let mut s = property.to_owned();
    push_text(&mut s, ":");
    push_text(&mut s, &paint.value());
    s
}

/// A paint is named for its colour, and read through its name.
pub proof fn a_paint_is_named_for_its_colour(paint: Paint, property: Seq<char>)
    ensures
        Paint::Ground.spec_name() == "--stage-ground"@,
        Paint::Channel.spec_name() == "--stage-channel"@,
        Paint::Wall.spec_name() == "--stage-wall"@,
        Paint::Core.spec_name() == "--stage-core"@,
        Paint::Teal.spec_name() == "--stage-teal"@,
        Paint::Amber.spec_name() == "--stage-amber"@,
        Paint::Blue.spec_name() == "--stage-blue"@,
        Paint::Grey.spec_name() == "--stage-grey"@,
        Paint::Purple.spec_name() == "--stage-purple"@,
        Paint::Green.spec_name() == "--stage-green"@,
        Paint::Orange.spec_name() == "--stage-orange"@,
        Paint::Salmon.spec_name() == "--stage-salmon"@,
        Paint::Red.spec_name() == "--stage-red"@,
        Paint::Ink.spec_name() == "--stage-ink"@,
        Paint::Muted.spec_name() == "--stage-muted"@,
        Paint::WashServed.spec_name() == "--stage-wash-served"@,
        Paint::WashTimeout.spec_name() == "--stage-wash-timeout"@,
        Paint::Clear.spec_name() == "--stage-clear"@,
        spec_painted(property, paint) == property + ":"@ + ("var("@ + paint.spec_name() + ")"@),
{
}

} // verus!
