//! A single-select pill: one raised knob that slides between the choices.

use vstd::prelude::*;

use crate::text::{decimal, digits, push_text};

verus! {

/// What a choice means, where that is not neutral.
#[derive(Clone, Copy, PartialEq, Eq, Structural, Debug)]
pub enum Tone {
    Normal,
    /// A failure mode: it carries the same red the outcome will.
    Alarm,
    /// It turns requests away.
    Shed,
    /// It holds them until it can serve them.
    Serve,
}

/// The style a selected label wears, so the word and the surface under it agree.
#[derive(Clone, Copy, PartialEq, Eq, Structural, Debug)]
pub enum Selected {
    On,
    Alarm,
    OnShed,
    OnServe,
}

impl Tone {
    pub open spec fn spec_wash(self) -> Seq<char> {
        match self {
            Tone::Shed => "--palette-wash-shed"@,
            Tone::Serve => "--palette-wash-serve"@,
            _ => "--palette-wash"@,
        }
    }

    /// The surface the knob wears while this choice is the selected one.
    pub fn wash(self) -> (s: &'static str)
        ensures
            s@ == self.spec_wash(),
    {
        match self {
            Tone::Shed => "--palette-wash-shed",
            Tone::Serve => "--palette-wash-serve",
            _ => "--palette-wash",
        }
    }

    /// The style the selected label wears.
    pub fn selected(self) -> (s: Selected)
        ensures
            s == (match self {
                Tone::Shed => Selected::OnShed,
                Tone::Serve => Selected::OnServe,
                Tone::Alarm => Selected::Alarm,
                Tone::Normal => Selected::On,
            }),
    {
        match self {
            Tone::Shed => Selected::OnShed,
            Tone::Serve => Selected::OnServe,
            Tone::Alarm => Selected::Alarm,
            Tone::Normal => Selected::On,
        }
    }
}

/// The first choice that is picked, from place `k` on.
pub open spec fn picked_at(picked: Seq<bool>, k: int) -> Option<int>
    decreases picked.len() - k,
{
    if k >= picked.len() {
        None
    } else if picked[k] {
        Some(k)
    } else {
        picked_at(picked, k + 1)
    }
}

/// Where the knob stands: at the choice picked, or where it last stood.
pub open spec fn stands(picked: Seq<bool>, stood_at: usize) -> usize {
    match picked_at(picked, 0) {
        Some(k) => k as usize,
        None => stood_at,
    }
}

/// The surface the knob wears at a place.
pub open spec fn wash_at(tones: Seq<Tone>, at: usize) -> Seq<char> {
    if at < tones.len() {
        tones[at as int].spec_wash()
    } else {
        "--palette-wash"@
    }
}

/// The knob's style: its place, how many places there are, the wash it wears, and whether it is
/// to be seen at all.
pub open spec fn knob_text(picked: Seq<bool>, tones: Seq<Tone>, stood_at: usize) -> Seq<char> {
    let at = stands(picked, stood_at);
    "--knob-at:"@ + digits(at as nat) + ";--knob-n:"@ + digits(
        if tones.len() == 0 {
            1
        } else {
            tones.len()
        },
    ) + ";background-color:var("@ + wash_at(tones, at) + ");opacity:"@ + if picked_at(picked, 0)
        is Some {
        "1"@
    } else {
        "0"@
    }
}

/// A group's knob, which remembers where it last stood: a deselected group fades out in place.
#[derive(Clone, Copy, PartialEq, Eq, Structural, Debug)]
pub struct Knob {
    pub stood_at: usize,
}

impl Knob {
    pub fn new() -> (k: Knob)
        ensures
            k.stood_at == 0,
    {
        Knob { stood_at: 0 }
    }

    /// The style the knob wears with these choices picked.
    pub fn style(&mut self, picked: &Vec<bool>, tones: &Vec<Tone>) -> (s: String)
        ensures
            s@ == knob_text(picked@, tones@, old(self).stood_at),
            final(self).stood_at == stands(picked@, old(self).stood_at),
    {
        let mut selected: Option<usize> = None;
        let mut i: usize = 0;
        while i < picked.len() && selected.is_none()
            invariant
                i <= picked@.len(),
                selected is None ==> picked_at(picked@, 0) == picked_at(picked@, i as int),
                selected matches Some(k) ==> picked_at(picked@, 0) == Some(k as int),
            decreases picked@.len() - i + if selected is None {
                1int
            } else {
                0int
            },
        {
            if picked[i] {
                selected = Some(i);
            } else {
                i += 1;
            }
        }
        let at: usize = match selected {
            Some(k) => k,
            None => self.stood_at,
        };
        self.stood_at = at;
        let n: usize = if tones.len() == 0 {
            1
        } else {
            tones.len()
        };
        let wash: &'static str = if at < tones.len() {
            tones[at].wash()
        } else {
            "--palette-wash"
        };
        let mut s = "--knob-at:".to_owned();
        push_text(&mut s, &decimal(at as u64));
        push_text(&mut s, ";--knob-n:");
        push_text(&mut s, &decimal(n as u64));
        push_text(&mut s, ";background-color:var(");
        push_text(&mut s, wash);
        push_text(&mut s, ");opacity:");
        if selected.is_some() {
            push_text(&mut s, "1");
        } else {
            push_text(&mut s, "0");
        }
        s
    }
}

/// A group with nothing picked leaves its knob where it was, so that picking again slides from
/// somewhere the eye can follow; picking moves it to the choice.
pub proof fn a_knob_fades_where_it_stood(picked: Seq<bool>, stood_at: usize)
    ensures
        (forall|i: int| 0 <= i < picked.len() ==> !#[trigger] picked[i]) ==> stands(
            picked,
            stood_at,
        ) == stood_at,
        picked.len() <= usize::MAX && (exists|i: int| 0 <= i < picked.len() && #[trigger] picked[i])
            ==> stands(picked, stood_at) < picked.len() && picked[stands(picked, stood_at) as int],
{
    first_pick(picked, 0);
}

proof fn first_pick(picked: Seq<bool>, k: int)
    requires
        0 <= k <= picked.len(),
    ensures
        picked_at(picked, k) matches Some(i) ==> k <= i < picked.len() && picked[i],
        picked_at(picked, k) is None ==> forall|i: int|
            k <= i < picked.len() ==> !#[trigger] picked[i],
    decreases picked.len() - k,
{
    if k < picked.len() {
        first_pick(picked, k + 1);
    }
}

/// A knob stands at the first that is picked, and where none is, where it stood.
pub proof fn a_knob_stands_at_the_first_picked(picked: Seq<bool>, stood_at: usize, i: int)
    requires
        picked.len() <= usize::MAX,
        0 <= i < picked.len(),
        picked[i],
        forall|j: int| 0 <= j < i ==> !#[trigger] picked[j],
    ensures
        stands(picked, stood_at) == i,
{
    the_first_picked(picked, 0, i);
}

proof fn the_first_picked(picked: Seq<bool>, k: int, i: int)
    requires
        0 <= k <= i < picked.len(),
        picked[i],
        forall|j: int| k <= j < i ==> !#[trigger] picked[j],
    ensures
        picked_at(picked, k) == Some(i),
    decreases i - k,
{
    if k < i {
        the_first_picked(picked, k + 1, i);
    }
}

/// A knob is washed in the tone it stands on.
pub proof fn a_knob_is_washed_in_its_tone(tones: Seq<Tone>, at: usize)
    ensures
        at < tones.len() ==> wash_at(tones, at) == tones[at as int].spec_wash(),
        Tone::Normal.spec_wash() == Tone::Alarm.spec_wash(),
        at >= tones.len() ==> wash_at(tones, at) == Tone::Normal.spec_wash(),
        Tone::Shed.spec_wash() == "--palette-wash-shed"@,
        Tone::Serve.spec_wash() == "--palette-wash-serve"@,
{
}

/// A knob is told where it stands, among how many, in what wash, and whether it shows: of as many as
/// there are, and of one where there are none.
pub proof fn a_knob_is_told_among_how_many(picked: Seq<bool>, tones: Seq<Tone>, stood_at: usize)
    ensures
        ({
            let at = stands(picked, stood_at);
            let shows = exists|i: int| 0 <= i < picked.len() && #[trigger] picked[i];
            let n = if tones.len() >= 1 {
                tones.len()
            } else {
                1
            };
            knob_text(picked, tones, stood_at) == "--knob-at:"@ + digits(at as nat) + ";--knob-n:"@
                + digits(n) + ";background-color:var("@ + wash_at(tones, at) + ");opacity:"@
                + if shows {
                "1"@
            } else {
                "0"@
            }
        }),
{
    none_picked(picked, 0);
}

proof fn none_picked(picked: Seq<bool>, k: int)
    requires
        0 <= k,
    ensures
        picked_at(picked, k) is Some <==> exists|i: int|
            k <= i < picked.len() && #[trigger] picked[i],
    decreases picked.len() - k,
{
    if k < picked.len() && !picked[k] {
        none_picked(picked, k + 1);
        if exists|i: int| k <= i < picked.len() && #[trigger] picked[i] {
            let i = choose|i: int| k <= i < picked.len() && #[trigger] picked[i];
            assert(k + 1 <= i);
        }
    }
}

} // verus!
