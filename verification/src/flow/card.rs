//! The card: what the reader has set, and what each message does to the columns.

use std::collections::VecDeque;

use vstd::prelude::*;

use crate::engine::outcome::Outcome;
use crate::atoms::lanes::Ink;
use crate::engine::clock::{Part, Ticks, MS};
use crate::flow::band::{a_band_stays_short, band, reads, Band, Felt};
use crate::flow::columns::{
    a_step_goes_its_share, a_step_never_overshoots, credited, eased, fills, follow, followed,
    headroom, is_share, is_slowest, sampled, shows_band, toward, Earned, Shown, ShownView, Shows,
    Trip, BASELINE, COLUMNS, PICK2,
};

verus! {

/// The most wall time one frame may advance, in microseconds: a tab returning from the background
/// hands over a delta of seconds, and that is one long freeze rather than one long frame.
pub const MAX_STEP: u64 = 32_000;

/// Microseconds between recuts of the columns' readings.
pub const RECUT: u64 = 250_000;

/// Where the dial stands until the reader moves it.
pub const OPENS_AT_PC: u32 = 90;

/// The crowd, and the smaller one whose counters mean something.
pub const CLIENTS: usize = 100;

pub const POOL_CLIENTS: usize = 20;

/// How many clients a card has.
pub fn crowd(shows: Shows) -> (n: usize)
    ensures
        n == (if shows == Shows::Pool {
            POOL_CLIENTS
        } else {
            CLIENTS
        }),
{
    match shows {
        Shows::Pool => POOL_CLIENTS,
        _ => CLIENTS,
    }
}

/// How much time a frame moves the fleet on: none while paused, and never more than the most.
pub fn step(wall: u64, playing: bool) -> (dt: u64)
    ensures
        dt == (if !playing {
            0
        } else if wall < MAX_STEP {
            wall
        } else {
            MAX_STEP
        }),
{
    if !playing {
        0
    } else if wall < MAX_STEP {
        wall
    } else {
        MAX_STEP
    }
}

/// The colour a departure travels in: a send, an answer home, or a refusal home.
pub fn launch_ink(homeward: bool, outcome: Option<Outcome>) -> (ink: Ink)
    ensures
        ink == (if !homeward {
            Ink::Sent
        } else if outcome matches Some(o) && o.spec_refused() {
            Ink::Refusal
        } else {
            Ink::Answer
        }),
{
    if !homeward {
        return Ink::Sent;
    }
    match outcome {
        Some(o) => if o.refused() {
            Ink::Refusal
        } else {
            Ink::Answer
        },
        None => Ink::Answer,
    }
}

/// Whether a column heads for what its window reads at `pc`: nothing where it has earned nothing.
pub open spec fn heads_for(heading: Option<ShownView>, window: Seq<Felt>, pc: int) -> bool {
    match heading {
        None => window.len() == 0,
        Some(s) => window.len() > 0 && exists|b: Band| #[trigger]
            reads(b, window, pc) && shows_band(s, b),
    }
}

/// Whether every column heads for what it has earned, read at `pc`.
pub open spec fn all_head_for(
    heading: Seq<Option<ShownView>>,
    earned: Seq<Seq<Felt>>,
    pc: int,
) -> bool {
    &&& heading.len() == COLUMNS
    &&& forall|i: int| 0 <= i < COLUMNS ==> heads_for(#[trigger] heading[i], earned[i], pc)
}

/// What a column shows, as it reads.
pub open spec fn shown_view(shown: Option<Shown>) -> Option<ShownView> {
    match shown {
        Some(s) => Some(s@),
        None => None,
    }
}

/// What the columns show, as they read.
pub open spec fn shown_views(shown: Seq<Option<Shown>>) -> Seq<Option<ShownView>> {
    shown.map_values(|s: Option<Shown>| shown_view(s))
}

/// Where every column's reading stands at `pc`. A column that has earned nothing has none.
pub fn bands_at(earned: &Earned, pc: u32) -> (heading: Vec<Option<Shown>>)
    requires
        earned.wf(),
        pc <= 100,
    ensures
        all_head_for(shown_views(heading@), earned@, pc as int),
{
    let mut heading: Vec<Option<Shown>> = Vec::new();
    let mut i: usize = 0;
    while i < COLUMNS
        invariant
            i <= COLUMNS,
            earned.wf(),
            pc <= 100,
            heading@.len() == i,
            forall|j: int|
                0 <= j < i ==> heads_for(
                    shown_view(#[trigger] heading@[j]),
                    earned@[j],
                    pc as int,
                ),
        decreases COLUMNS - i,
    {
        let window = earned.column(i);
        assert(sampled(window@)) by {
            assert(earned@[0] == earned.a@ && earned@[1] == earned.b@ && earned@[2] == earned.c@);
        }
        let one: Option<Shown> = match band(window, pc) {
            None => None,
            Some(b) => {
                proof {
                    a_band_stays_short(b, window@, pc as int);
                }
                let s = Shown::of(&b);
                assert(reads(b, window@, pc as int) && shows_band(s@, b));
                Some(s)
            },
        };
        assert(heads_for(shown_view(one), earned@[i as int], pc as int));
        heading.push(one);
        i += 1;
    }
    assert forall|j: int| 0 <= j < COLUMNS implies heads_for(
        #[trigger] shown_views(heading@)[j],
        earned@[j],
        pc as int,
    ) by {
        assert(heads_for(shown_view(heading@[j]), earned@[j], pc as int));
    }
    heading
}

/// What the reader, or the layout, does to the card.
#[derive(Clone, Copy, PartialEq, Eq, Structural, Debug)]
pub enum FlowMsg {
    /// The run control.
    Toggle,
    /// How hard the crowd sends.
    Qps,
    /// How fast the clock runs.
    Speed,
    /// Show the policy at this place.
    Policy(usize),
    /// Move the dial.
    Cut(u32),
    /// Resize every client's pool.
    Pool,
    /// Where something was laid out.
    Stage,
    Dot(usize),
    Server(usize),
}

/// What the reader has set and what the columns stand at.
pub struct Card {
    pub shows: Shows,
    pub playing: bool,
    /// The policy the crowd is using.
    pub chosen: usize,
    /// Where the dial stands.
    pub stands_at: u32,
    pub earned: Earned,
    /// How many trips have been credited.
    pub credited: usize,
    /// How long ago the readings were last cut.
    pub since_recut: u64,
    /// The reading each column is heading for.
    pub heading: Vec<Option<Shown>>,
    /// What each column is showing, which follows it.
    pub shown: Vec<Option<Shown>>,
    /// The axis the columns are to be drawn against, and the one they are.
    pub wants: Option<Ticks>,
    pub axis: Option<Ticks>,
}

#[verifier::ext_equal]
pub struct CardView {
    pub shows: Shows,
    pub playing: bool,
    pub chosen: usize,
    pub stands_at: u32,
    pub earned: Seq<Seq<Felt>>,
    pub credited: usize,
    pub since_recut: u64,
    pub heading: Seq<Option<ShownView>>,
    pub shown: Seq<Option<ShownView>>,
    pub wants: Option<Ticks>,
    pub axis: Option<Ticks>,
}

impl View for Card {
    type V = CardView;

    open spec fn view(&self) -> CardView {
        CardView {
            shows: self.shows,
            playing: self.playing,
            chosen: self.chosen,
            stands_at: self.stands_at,
            earned: self.earned@,
            credited: self.credited,
            since_recut: self.since_recut,
            heading: shown_views(self.heading@),
            shown: shown_views(self.shown@),
            wants: self.wants,
            axis: self.axis,
        }
    }
}

/// Every column empty.
pub open spec fn nothing_earned() -> Seq<Seq<Felt>> {
    Seq::new(COLUMNS as nat, |i: int| Seq::<Felt>::empty())
}

/// No column showing anything.
pub open spec fn nothing_shown() -> Seq<Option<ShownView>> {
    Seq::new(COLUMNS as nat, |i: int| None)
}

/// Whether the readings are due to be cut after `dt` more.
pub open spec fn recut_due(since: u64, dt: u64) -> bool {
    since + dt >= RECUT
}

/// The axis over what the columns keep: the slowest trip with headroom, and nothing where none of
/// them keeps any.
pub open spec fn wanted(axis: Option<Ticks>, earned: Seq<Seq<Felt>>) -> bool {
    exists|slowest: Option<Ticks>| #[trigger]
        is_slowest(slowest, earned) && axis == (match slowest {
            Some(t) => Some(headroom(t) as Ticks),
            None => None,
        })
}

/// What the columns show once each has followed its reading.
pub open spec fn all_followed(
    shown: Seq<Option<ShownView>>,
    heading: Seq<Option<ShownView>>,
    share: Part,
) -> Seq<Option<ShownView>> {
    Seq::new(
        shown.len(),
        |i: int|
            match heading[i] {
                Some(fresh) => Some(followed(shown[i], fresh, share)),
                None => shown[i],
            },
    )
}

/// Where the axis stands once it has followed: taken whole where there was none.
pub open spec fn axis_followed(axis: Option<Ticks>, wants: Option<Ticks>, share: Part) -> Option<
    Ticks,
> {
    match wants {
        None => axis,
        Some(want) => Some(
            match axis {
                None => want,
                Some(was) => eased(was as int, want as int, share) as Ticks,
            },
        ),
    }
}

/// What a message other than the dial's does to the card.
pub open spec fn turned(c: CardView, msg: FlowMsg) -> CardView {
    match msg {
        FlowMsg::Toggle => CardView { playing: !c.playing, ..c },
        FlowMsg::Qps => CardView {
            earned: nothing_earned(),
            heading: nothing_shown(),
            shown: nothing_shown(),
            wants: None,
            axis: None,
            ..c
        },
        FlowMsg::Policy(i) => CardView { chosen: i, ..c },
        FlowMsg::Pool => CardView {
            earned: c.earned.update(PICK2 as int, Seq::empty()),
            heading: c.heading.update(PICK2 as int, None),
            shown: c.shown.update(PICK2 as int, None),
            ..c
        },
        _ => c,
    }
}

/// Whether some readings are each one to a phase.
pub open spec fn readable(shown: Seq<Option<Shown>>) -> bool {
    &&& shown.len() == COLUMNS
    &&& forall|i: int| 0 <= i < COLUMNS ==> ((#[trigger] shown[i]) matches Some(s) ==> s@.wf())
}

/// The same readings again.
fn again(shown: &Vec<Option<Shown>>) -> (copy: Vec<Option<Shown>>)
    requires
        readable(shown@),
    ensures
        readable(copy@),
        shown_views(copy@) == shown_views(shown@),
{
    let mut copy: Vec<Option<Shown>> = Vec::new();
    let mut i: usize = 0;
    while i < COLUMNS
        invariant
            i <= COLUMNS,
            readable(shown@),
            copy@.len() == i,
            forall|j: int| 0 <= j < i ==> shown_view(#[trigger] copy@[j]) == shown_view(shown@[j]),
        decreases COLUMNS - i,
    {
        assert(shown@[i as int] matches Some(s) ==> s@.wf());
        let one: Option<Shown> = match &shown[i] {
            Some(s) => Some(s.again()),
            None => None,
        };
        copy.push(one);
        i += 1;
    }
    assert forall|j: int| 0 <= j < COLUMNS implies ((#[trigger] copy@[j]) matches Some(s)
        ==> s@.wf()) by {
        assert(shown_view(copy@[j]) == shown_view(shown@[j]));
        assert(shown@[j] matches Some(s) ==> s@.wf());
    }
    assert(shown_views(copy@) =~= shown_views(shown@));
    copy
}

impl Card {
    pub open spec fn wf(self) -> bool {
        &&& self.chosen < COLUMNS
        &&& self.stands_at <= 100
        &&& self.earned.wf()
        &&& readable(self.heading@)
        &&& readable(self.shown@)
        &&& self.since_recut <= RECUT
    }

    /// The card as it opens: at rest, and due to read whatever comes home first.
    pub fn new(shows: Shows) -> (c: Card)
        ensures
            c.wf(),
            c@ == (CardView {
                shows,
                playing: false,
                chosen: BASELINE,
                stands_at: OPENS_AT_PC,
                earned: nothing_earned(),
                credited: 0,
                since_recut: RECUT,
                heading: nothing_shown(),
                shown: nothing_shown(),
                wants: None,
                axis: None,
            }),
    {
        let c = Card {
            shows,
            playing: false,
            chosen: BASELINE,
            stands_at: OPENS_AT_PC,
            earned: Earned::new(),
            credited: 0,
            since_recut: RECUT,
            heading: vec![None, None, None],
            shown: vec![None, None, None],
            wants: None,
            axis: None,
        };
        assert(c@.earned =~= nothing_earned());
        assert(c@.heading =~= nothing_shown());
        assert(c@.shown =~= nothing_shown());
        c
    }

    /// Take a message, and say whether the wires have to be drawn again.
    ///
    /// A reading earned at one rate beside one earned at another compares the loads, not the
    /// policies, so a new rate starts every column over; a new pool starts over only the column of
    /// the policy that looks at one. Another policy resets nothing: what is in the air was sent
    /// under the old one and is still owed an answer under it. A moved dial asked for a different
    /// reading, so the columns are cut at once and take it whole.
    pub fn turn(&mut self, msg: FlowMsg) -> (relaid: bool)
        requires
            old(self).wf(),
            msg matches FlowMsg::Policy(i) ==> i < COLUMNS,
            msg matches FlowMsg::Cut(pc) ==> pc <= 100,
        ensures
            final(self).wf(),
            relaid == (msg is Pool || msg is Stage || msg is Dot || msg is Server),
            match msg {
                FlowMsg::Cut(pc) => {
                    &&& all_head_for(final(self)@.heading, old(self)@.earned, pc as int)
                    &&& final(self)@ == (CardView {
                        stands_at: pc,
                        since_recut: 0,
                        heading: final(self)@.heading,
                        shown: final(self)@.heading,
                        ..old(self)@
                    })
                },
                _ => final(self)@ == turned(old(self)@, msg),
            },
    {
        let ghost before = self@;
        match msg {
            FlowMsg::Toggle => {
                self.playing = !self.playing;
                false
            },
            FlowMsg::Qps => {
                self.earned.clear(COLUMNS);
                self.heading = vec![None, None, None];
                self.shown = vec![None, None, None];
                self.wants = None;
                self.axis = None;
                assert(self@.earned =~= nothing_earned());
                assert(self@.heading =~= nothing_shown());
                assert(self@.shown =~= nothing_shown());
                false
            },
            FlowMsg::Speed => false,
            FlowMsg::Policy(i) => {
                self.chosen = i;
                false
            },
            FlowMsg::Cut(pc) => {
                self.stands_at = pc;
                self.since_recut = 0;
                self.heading = bands_at(&self.earned, pc);
                assert forall|i: int| 0 <= i < COLUMNS implies ((
                #[trigger] self.heading@[i]) matches Some(s) ==> s@.wf()) by {
                    assert(heads_for(shown_views(self.heading@)[i], self.earned@[i], pc as int));
                }
                self.shown = again(&self.heading);
                false
            },
            FlowMsg::Pool => {
                self.earned.clear(PICK2);
                self.heading.set(PICK2, None);
                self.shown.set(PICK2, None);
                assert(self@.earned =~= before.earned.update(PICK2 as int, Seq::empty()));
                assert(self@.heading =~= before.heading.update(PICK2 as int, None));
                assert(self@.shown =~= before.shown.update(PICK2 as int, None));
                true
            },
            FlowMsg::Stage | FlowMsg::Dot(_) | FlowMsg::Server(_) => true,
        }
    }

    /// Whether the card goes on drawing: pausing stops departures, never travel already in the
    /// air.
    pub fn drawing(&self, airborne: bool) -> (b: bool)
        ensures
            b == (self.playing || airborne),
    {
        self.playing || airborne
    }

    /// A frame's landings: credit the trips answered since the last one, and say whether a note
    /// has become bars. `answered` is the fleet's own tally, which names the frame's landings.
    pub fn land(&mut self, trips: &VecDeque<Trip>, answered: usize) -> (filled: bool)
        requires
            old(self).wf(),
            answered >= old(self).credited,
            forall|i: int| 0 <= i < trips@.len() ==> (#[trigger] trips@[i]).felt.fits(),
        ensures
            final(self).wf(),
            ({
                let n = trips@.len() as int;
                let landed = answered - old(self).credited;
                let from = if landed < n {
                    n - landed
                } else {
                    0
                };
                &&& final(self)@ == (CardView {
                    earned: credited(old(self)@.earned, old(self).shows, trips@, from, n),
                    credited: answered,
                    ..old(self)@
                })
                &&& filled == fills(old(self)@.earned, old(self).shows, trips@, from, n)
            }),
    {
        let landed: usize = answered - self.credited;
        self.credited = answered;
        self.earned.credit(self.shows, trips, landed)
    }

    /// A frame of `dt`: cut the readings where they are due, and the axis with them.
    pub fn recut(&mut self, dt: u64) -> (due: bool)
        requires
            old(self).wf(),
            dt <= MAX_STEP,
        ensures
            final(self).wf(),
            due == recut_due(old(self).since_recut, dt),
            due ==> {
                &&& all_head_for(
                    final(self)@.heading,
                    old(self)@.earned,
                    old(self).stands_at as int,
                )
                &&& wanted(final(self).wants, old(self)@.earned)
                &&& final(self)@ == (CardView {
                    since_recut: 0,
                    heading: final(self)@.heading,
                    wants: final(self).wants,
                    ..old(self)@
                })
            },
            !due ==> final(self)@ == (CardView {
                since_recut: (old(self).since_recut + dt) as u64,
                ..old(self)@
            }),
    {
        let since: u64 = self.since_recut + dt;
        if since < RECUT {
            self.since_recut = since;
            return false;
        }
        let pc: u32 = self.stands_at;
        self.since_recut = 0;
        self.heading = bands_at(&self.earned, pc);
        assert forall|i: int| 0 <= i < COLUMNS implies ((#[trigger] self.heading@[i]) matches Some(s)
            ==> s@.wf()) by {
            assert(heads_for(shown_views(self.heading@)[i], self.earned@[i], pc as int));
        }
        let slowest: Option<Ticks> = self.earned.slowest();
        proof {
            if let Some(t) = slowest {
                let (c, i) = choose|c: int, i: int|
                    0 <= c < self.earned@.len() && 0 <= i < self.earned@[c].len() && (
                    #[trigger] self.earned@[c][i]).total == t;
                assert(sampled(self.earned@[c])) by {
                    assert(self.earned@[0] == self.earned.a@ && self.earned@[1] == self.earned.b@
                        && self.earned@[2] == self.earned.c@);
                }
                assert(self.earned@[c][i].fits());
            }
        }
        self.wants = match slowest {
            None => None,
            Some(t) => {
                let scaled: u64 = t * 21 / 20;
                Some(
                    if scaled > MS {
                        scaled
                    } else {
                        MS
                    },
                )
            },
        };
        assert(is_slowest(slowest, self.earned@));
        true
    }

    /// The reader's time passes: every column moves a share of the way to its reading, and the
    /// axis with them. A column showing nothing takes its reading whole.
    pub fn ease(&mut self, share: &Part)
        requires
            old(self).wf(),
            is_share(*share),
        ensures
            final(self).wf(),
            final(self)@ == (CardView {
                shown: all_followed(old(self)@.shown, old(self)@.heading, *share),
                axis: axis_followed(old(self).axis, old(self).wants, *share),
                ..old(self)@
            }),
    {
        let ghost before = self@;
        let mut next: Vec<Option<Shown>> = Vec::new();
        let mut i: usize = 0;
        while i < COLUMNS
            invariant
                i <= COLUMNS,
                *self == *old(self),
                self.wf(),
                before == self@,
                is_share(*share),
                next@.len() == i,
                forall|j: int|
                    0 <= j < i ==> shown_view(#[trigger] next@[j]) == all_followed(
                        before.shown,
                        before.heading,
                        *share,
                    )[j],
                forall|j: int| 0 <= j < i ==> ((#[trigger] next@[j]) matches Some(s) ==> s@.wf()),
            decreases COLUMNS - i,
        {
            assert(self.heading@[i as int] matches Some(s) ==> s@.wf());
            assert(self.shown@[i as int] matches Some(s) ==> s@.wf());
            assert(before.heading[i as int] == shown_view(self.heading@[i as int]));
            assert(before.shown[i as int] == shown_view(self.shown@[i as int]));
            let one: Option<Shown> = match &self.heading[i] {
                Some(fresh) => Some(follow(&self.shown[i], fresh, share)),
                None => match &self.shown[i] {
                    Some(s) => Some(s.again()),
                    None => None,
                },
            };
            next.push(one);
            i += 1;
        }
        self.shown = next;
        assert(self@.shown =~= all_followed(before.shown, before.heading, *share));
        self.axis = match self.wants {
            None => self.axis,
            Some(want) => Some(
                match self.axis {
                    None => want,
                    Some(was) => toward(was, want, share),
                },
            ),
        };
    }
}

/// However the card is eased, nothing it shows overshoots what it heads for: a column's trip ends
/// between where it stood and its reading, and with the whole share it is there.
pub proof fn a_column_never_overshoots(shown: ShownView, fresh: ShownView, share: Part)
    requires
        is_share(share),
    ensures
        ({
            let next = followed(Some(shown), fresh, share);
            &&& shown.total <= fresh.total ==> shown.total <= next.total <= fresh.total
            &&& fresh.total <= shown.total ==> fresh.total <= next.total <= shown.total
            &&& share.done == share.of ==> next.total == fresh.total
        }),
{
    a_step_never_overshoots(shown.total as int, fresh.total as int, share);
}

/// Each message turns what it names and nothing else: running over and back is where it was, a
/// new rate starts every column over, a new pool only the column that pools, and the rest leave the
/// card as it stands.
pub proof fn a_message_turns_what_it_names(c: CardView, i: usize, k: int)
    requires
        c.earned.len() == COLUMNS && c.heading.len() == COLUMNS && c.shown.len() == COLUMNS,
        0 <= k < COLUMNS,
    ensures
        turned(turned(c, FlowMsg::Toggle), FlowMsg::Toggle) == c,
        turned(c, FlowMsg::Toggle).playing != c.playing,
        turned(c, FlowMsg::Policy(i)) == (CardView { chosen: i, ..c }),
        ({
            let fresh = turned(c, FlowMsg::Qps);
            &&& fresh.earned[k].len() == 0 && fresh.heading[k] is None && fresh.shown[k] is None
            &&& fresh.wants is None && fresh.axis is None
            &&& fresh.playing == c.playing && fresh.chosen == c.chosen && fresh.stands_at
                == c.stands_at && fresh.credited == c.credited
        }),
        ({
            let pooled = turned(c, FlowMsg::Pool);
            &&& k == 2 ==> pooled.earned[k].len() == 0 && pooled.heading[k] is None
                && pooled.shown[k] is None
            &&& k != 2 ==> pooled.earned[k] == c.earned[k] && pooled.heading[k] == c.heading[k]
                && pooled.shown[k] == c.shown[k]
            &&& pooled.wants == c.wants && pooled.axis == c.axis
        }),
        turned(c, FlowMsg::Speed) == c && turned(c, FlowMsg::Stage) == c,
        turned(c, FlowMsg::Dot(i)) == c && turned(c, FlowMsg::Server(i)) == c,
{
}

/// The columns are cut anew once a quarter of a second has passed since they last were.
pub proof fn a_recut_comes_each_quarter_second(since: u64, dt: u64)
    ensures
        recut_due(since, dt) <==> since + dt >= 250_000,
{
}

/// A column heads for what was cut for it, its share of the way; one that nothing was cut for
/// stands where it stood.
pub proof fn each_column_follows_its_own(
    shown: Seq<Option<ShownView>>,
    heading: Seq<Option<ShownView>>,
    share: Part,
    i: int,
)
    requires
        0 <= i < shown.len(),
        shown.len() == heading.len(),
    ensures
        all_followed(shown, heading, share).len() == shown.len(),
        heading[i] is None ==> all_followed(shown, heading, share)[i] == shown[i],
        heading[i] matches Some(fresh) ==> {
            &&& shown[i] is None ==> all_followed(shown, heading, share)[i] == Some(fresh)
            &&& shown[i] matches Some(was) ==> (all_followed(shown, heading, share)[i] matches Some(
                now,
            ) && now == followed(Some(was), fresh, share))
        },
{
}

/// The axis goes its share of the way to what is wanted of it, never past it; it opens where it is
/// first wanted, and stands while nothing is.
pub proof fn the_axis_follows_what_is_wanted(axis: Option<Ticks>, want: Ticks, share: Part)
    requires
        is_share(share),
    ensures
        axis_followed(axis, None, share) == axis,
        axis_followed(None, Some(want), share) == Some(want),
        axis matches Some(was) ==> (axis_followed(axis, Some(want), share) matches Some(now) && {
            &&& was <= want ==> was <= now <= want
            &&& want <= was ==> want <= now <= was
            &&& was <= want ==> share.of * (now - was) <= (want - was) * share.done
            &&& was <= want ==> (want - was) * share.done < share.of * (now - was + 1)
            &&& want <= was ==> share.of * (was - now) <= (was - want) * share.done
            &&& want <= was ==> (was - want) * share.done < share.of * (was - now + 1)
        }),
{
    if let Some(was) = axis {
        a_step_never_overshoots(was as int, want as int, share);
        a_step_goes_its_share(was as int, want as int, share);
    }
}

/// The axis wanted clears every trip on the columns by a twentieth, to the tick below, and no axis
/// is wanted while there are none.
pub proof fn the_axis_wanted_clears_every_trip(
    axis: Option<Ticks>,
    earned: Seq<Seq<Felt>>,
    c: int,
    i: int,
)
    requires
        wanted(axis, earned),
        0 <= c < earned.len(),
        0 <= i < earned[c].len(),
        forall|k: int, j: int|
            0 <= k < earned.len() && 0 <= j < earned[k].len() ==> (#[trigger] earned[k][j]).fits(),
    ensures
        axis matches Some(axis) && 21 * earned[c][i].total < 20 * axis + 20 && axis
            >= 1_000_000_000,
{
    let slowest = choose|slowest: Option<Ticks>| #[trigger]
        is_slowest(slowest, earned) && axis == (match slowest {
            Some(t) => Some(headroom(t) as Ticks),
            None => None,
        });
    if slowest is None {
        assert(earned[c].len() == 0);
    } else {
        let t = slowest->0;
        let (k, j) = choose|k: int, j: int|
            0 <= k < earned.len() && 0 <= j < earned[k].len() && (#[trigger] earned[k][j]).total
                == t;
        assert(earned[k][j].fits());
        assert(earned[c][i].total <= t);
    }
}

/// A column heads for its own window's band, and for nothing while there is nothing in it.
pub proof fn a_column_heads_for_its_own_band(
    heading: Seq<Option<ShownView>>,
    earned: Seq<Seq<Felt>>,
    pc: int,
    i: int,
)
    requires
        all_head_for(heading, earned, pc),
        0 <= i < COLUMNS,
    ensures
        heading[i] is None <==> earned[i].len() == 0,
        heading[i] matches Some(s) ==> exists|b: Band| #[trigger]
            reads(b, earned[i], pc) && shows_band(s, b),
        heading.len() == COLUMNS,
{
    assert(heads_for(heading[i], earned[i], pc));
}

} // verus!
