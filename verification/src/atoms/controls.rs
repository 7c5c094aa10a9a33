//! The small controls: what a button is, what it says, and when an invitation is worn how.

use vstd::prelude::*;

use crate::text::push_text;

verus! {

/// How strongly a button asks to be pressed.
#[derive(Clone, Copy, PartialEq, Eq, Structural, Debug)]
pub enum ButtonKind {
    /// The one control the reader has to find for anything to happen.
    Cta,
    /// The filled call to action.
    Primary,
    /// One of several equals in its row.
    Solid,
    /// The quiet outlined control.
    Quiet,
}

/// What the run control says: what pressing it would do.
pub fn run_label(running: bool) -> (s: &'static str)
    ensures
        s@ == (if running {
            "❚❚ Pause"@
        } else {
            "▶ Run"@
        }),
{
    if running {
        "❚❚ Pause"
    } else {
        "▶ Run"
    }
}

/// A heading's place in the page.
#[derive(Clone, Copy, PartialEq, Eq, Structural, Debug)]
pub enum HeadingLevel {
    /// The page's own title.
    Title,
    /// A section heading within the page.
    Section,
}

impl HeadingLevel {
    /// The element a heading is.
    pub fn tag(self) -> (s: &'static str)
        ensures
            s@ == (match self {
                HeadingLevel::Title => "h1"@,
                HeadingLevel::Section => "h2"@,
            }),
    {
        match self {
            HeadingLevel::Title => "h1",
            HeadingLevel::Section => "h2",
        }
    }
}

/// How an invited control is worn.
#[derive(Clone, Copy, PartialEq, Eq, Structural, Debug)]
pub struct Invite {
    /// The tag is drawn.
    pub asking: bool,
    /// The ring around a control that fills its row.
    pub loose: bool,
    /// The ring around one sized to itself.
    pub tight: bool,
}

/// While the invitation stands, the control wears the tag and one ring; once it is taken, neither.
pub fn invite(standing: bool, hug: bool) -> (i: Invite)
    ensures
        i == (Invite { asking: standing, loose: standing && !hug, tight: standing && hug }),
        i.asking <==> i.loose || i.tight,
        !(i.loose && i.tight),
{
    Invite { asking: standing, loose: standing && !hug, tight: standing && hug }
}

/// A declaration that hides what there is nothing to show of.
pub fn hide_unless(yes: bool) -> (s: String)
    ensures
        s@ == (if yes {
            Seq::empty()
        } else {
            "display:none"@
        }),
{
    let mut s = String::new();
    if !yes {
        push_text(&mut s, "display:none");
    }
    assert(s@ =~= if yes {
        Seq::empty()
    } else {
        "display:none"@
    });
    s
}

} // verus!
