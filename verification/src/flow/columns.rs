//! The policies' columns: what each has earned, what it shows of it, and how it stands against the
//! one they are all read against.

use std::collections::VecDeque;

use vstd::prelude::*;

use crate::atoms::cut::PhaseRow;
use crate::atoms::waterfall::{Against, Leg};
use crate::engine::clock::{Part, Ticks, MS};
use crate::engine::tagged::copy_all;
use crate::flow::band::{squarable, Band, Felt, GIVE_RUNS, LONGEST_TRIP, PHASE_COUNT};
use crate::flow::give::{give_of, is_give, mean_in};
use crate::text::{decimal, digits, push_text};

verus! {

/// How many of its policy's answered trips a column keeps.
pub const COLUMN_SAMPLE: usize = 4000;

/// How many policies there are, and so how many columns.
pub const COLUMNS: usize = 3;

/// The column the others are read against: picking blindly, every time.
pub const BASELINE: usize = 0;

/// The column the pool belongs to, and the only one a pool change resets.
pub const PICK2: usize = 2;

/// Which of the three cards this is.
#[derive(Clone, Copy, PartialEq, Eq, Structural, Debug)]
pub enum Shows {
    /// The loop itself: one rate, ten machines, and the spread between them.
    Loop,
    /// The same fleet with the choice on a pill and the experience underneath.
    Policies,
    /// The pill again, with the second pick paid for: counters are what the machines said, and a
    /// pool decides who a client can ask.
    Pool,
}

/// How a client chooses the machine it sends to.
#[derive(Clone, Copy, PartialEq, Eq, Structural, Debug)]
pub enum Policy {
    AlwaysRandom,
    RepickOnQueueTimeout,
    /// The better of two, told for nothing how each of them stands.
    PowerOfTwoVirtual,
    /// The better of two, going by what each of them last said.
    PowerOfTwo,
}

/// The policy in each column of a card. One label, two powers of two: the same idea either side of
/// what it is told for nothing.
pub open spec fn spec_cast(shows: Shows) -> Seq<Policy> {
    seq![
        Policy::AlwaysRandom,
        Policy::RepickOnQueueTimeout,
        if shows == Shows::Pool {
            Policy::PowerOfTwo
        } else {
            Policy::PowerOfTwoVirtual
        },
    ]
}

/// What each column is headed.
pub open spec fn spec_label(column: int) -> Seq<char> {
    if column == 0 {
        "Always Random"@
    } else if column == 1 {
        "Repick on Queue Timeout"@
    } else {
        "Power of Two"@
    }
}

/// The card's three policies, in the order they are introduced.
pub fn cast(shows: Shows) -> (cast: [(&'static str, Policy); 3])
    ensures
        forall|i: int|
            0 <= i < COLUMNS ==> (#[trigger] cast@[i]).1 == spec_cast(shows)[i] && cast@[i].0@
                == spec_label(i),
{
    let pick = match shows {
        Shows::Pool => Policy::PowerOfTwo,
        _ => Policy::PowerOfTwoVirtual,
    };
    [
        ("Always Random", Policy::AlwaysRandom),
        ("Repick on Queue Timeout", Policy::RepickOnQueueTimeout),
        ("Power of Two", pick),
    ]
}

/// One answered trip: the policy that sent it, and what it felt like.
#[derive(Clone, Copy)]
pub struct Trip {
    pub policy: Option<Policy>,
    pub felt: Felt,
}

/// The column a trip belongs to on a card: the policy that sent it, not the one the pill shows.
pub open spec fn spec_column(shows: Shows, policy: Option<Policy>) -> Option<int> {
    match policy {
        Some(Policy::AlwaysRandom) => Some(0int),
        Some(Policy::RepickOnQueueTimeout) => Some(1int),
        Some(Policy::PowerOfTwoVirtual) => if shows == Shows::Pool {
            None
        } else {
            Some(2int)
        },
        Some(Policy::PowerOfTwo) => if shows == Shows::Pool {
            Some(2int)
        } else {
            None
        },
        None => None,
    }
}

/// A trip's column is the one whose policy sent it, where the card has one.
pub proof fn a_trips_column_is_its_policys(shows: Shows, policy: Policy)
    ensures
        spec_column(shows, Some(policy)) matches Some(c) ==> 0 <= c < COLUMNS && spec_cast(shows)[c]
            == policy,
        spec_column(shows, Some(policy)) is None ==> !spec_cast(shows).contains(policy),
        spec_column(shows, None) is None,
{
}

/// The column a trip belongs to.
pub fn column_of(shows: Shows, policy: Option<Policy>) -> (c: Option<usize>)
    ensures
        c is Some <==> spec_column(shows, policy) is Some,
        c matches Some(c) ==> spec_column(shows, policy) == Some(c as int) && c < COLUMNS,
{
    let pooled: bool = match shows {
        Shows::Pool => true,
        _ => false,
    };
    match policy {
        Some(Policy::AlwaysRandom) => Some(0),
        Some(Policy::RepickOnQueueTimeout) => Some(1),
        Some(Policy::PowerOfTwoVirtual) => if pooled {
            None
        } else {
            Some(2)
        },
        Some(Policy::PowerOfTwo) => if pooled {
            Some(2)
        } else {
            None
        },
        None => None,
    }
}

/// A column with one more trip: a full one forgets its oldest.
pub open spec fn remembered(window: Seq<Felt>, felt: Felt) -> Seq<Felt> {
    if window.len() >= COLUMN_SAMPLE {
        window.drop_first().push(felt)
    } else {
        window.push(felt)
    }
}

/// The three columns with one trip credited.
pub open spec fn credited_one(earned: Seq<Seq<Felt>>, shows: Shows, trip: Trip) -> Seq<Seq<Felt>> {
    match spec_column(shows, trip.policy) {
        Some(c) => earned.update(c, remembered(earned[c], trip.felt)),
        None => earned,
    }
}

/// The three columns with the trips from `from` up to `n` credited, oldest first.
pub open spec fn credited(
    earned: Seq<Seq<Felt>>,
    shows: Shows,
    trips: Seq<Trip>,
    from: int,
    n: int,
) -> Seq<Seq<Felt>>
    decreases n - from,
{
    if n <= from {
        earned
    } else {
        credited_one(credited(earned, shows, trips, from, n - 1), shows, trips[n - 1])
    }
}

/// Whether crediting the trips from `from` up to `n` gives a column its first reading.
pub open spec fn fills(
    earned: Seq<Seq<Felt>>,
    shows: Shows,
    trips: Seq<Trip>,
    from: int,
    n: int,
) -> bool
    decreases n - from,
{
    if n <= from {
        false
    } else {
        let before = credited(earned, shows, trips, from, n - 1);
        fills(earned, shows, trips, from, n - 1) || (spec_column(shows, trips[n - 1].policy) matches
            Some(c) && before[c].len() == 0)
    }
}

/// What every column has earned.
pub struct Earned {
    pub a: VecDeque<Felt>,
    pub b: VecDeque<Felt>,
    pub c: VecDeque<Felt>,
}

impl View for Earned {
    type V = Seq<Seq<Felt>>;

    open spec fn view(&self) -> Seq<Seq<Felt>> {
        seq![self.a@, self.b@, self.c@]
    }
}

/// Whether a column keeps no more than its sample, nor a trip longer than the longest.
pub open spec fn sampled(window: Seq<Felt>) -> bool {
    &&& window.len() <= COLUMN_SAMPLE
    &&& forall|i: int| 0 <= i < window.len() ==> (#[trigger] window[i]).fits()
}

/// Credit one trip to a column; whether it was the column's first.
fn remember(window: &mut VecDeque<Felt>, felt: Felt) -> (first: bool)
    requires
        sampled(old(window)@),
        felt.fits(),
    ensures
        sampled(final(window)@),
        final(window)@ == remembered(old(window)@, felt),
        first == (old(window)@.len() == 0),
{
    let first: bool = window.len() == 0;
    if window.len() >= COLUMN_SAMPLE {
        let ghost was = window@;
        let gone = window.pop_front();
        assert(window@ =~= was.drop_first());
    }
    window.push_back(felt);
    first
}

impl Earned {
    /// Nothing yet.
    pub fn new() -> (e: Earned)
        ensures
            e.wf(),
            e@ == Seq::new(COLUMNS as nat, |i: int| Seq::<Felt>::empty()),
    {
        let e = Earned { a: VecDeque::new(), b: VecDeque::new(), c: VecDeque::new() };
        assert(e@ =~= Seq::new(COLUMNS as nat, |i: int| Seq::<Felt>::empty()));
        e
    }

    /// No column keeps more than its sample, nor a trip longer than the longest.
    pub open spec fn wf(self) -> bool {
        &&& sampled(self.a@)
        &&& sampled(self.b@)
        &&& sampled(self.c@)
    }

    /// What one column has earned.
    pub fn column(&self, i: usize) -> (window: &VecDeque<Felt>)
        requires
            i < COLUMNS,
        ensures
            window@ == self@[i as int],
    {
        match i {
            0 => &self.a,
            1 => &self.b,
            _ => &self.c,
        }
    }

    /// Fold the newest `landed` trips in, each credited to the policy that sent it: a trip in the
    /// air when the crowd changed its mind lands in the column that chose its machine. True when a
    /// column got its first reading.
    pub fn credit(&mut self, shows: Shows, trips: &VecDeque<Trip>, landed: usize) -> (filled: bool)
        requires
            old(self).wf(),
            forall|i: int| 0 <= i < trips@.len() ==> (#[trigger] trips@[i]).felt.fits(),
        ensures
            final(self).wf(),
            ({
                let n = trips@.len() as int;
                let from = if landed < n {
                    n - landed
                } else {
                    0
                };
                &&& final(self)@ == credited(old(self)@, shows, trips@, from, n)
                &&& filled == fills(old(self)@, shows, trips@, from, n)
            }),
    {
        let n: usize = trips.len();
        let from: usize = if landed < n {
            n - landed
        } else {
            0
        };
        let mut filled = false;
        let mut i: usize = from;
        while i < n
            invariant
                from <= i <= n,
                n == trips@.len(),
                forall|i: int| 0 <= i < trips@.len() ==> (#[trigger] trips@[i]).felt.fits(),
                self.wf(),
                self@ == credited(old(self)@, shows, trips@, from as int, i as int),
                filled == fills(old(self)@, shows, trips@, from as int, i as int),
            decreases n - i,
        {
            let trip: Trip = trips[i];
            assert(trips@[i as int].felt.fits());
            let ghost before = self@;
            if let Some(c) = column_of(shows, trip.policy) {
                let first: bool = match c {
                    0 => remember(&mut self.a, trip.felt),
                    1 => remember(&mut self.b, trip.felt),
                    _ => remember(&mut self.c, trip.felt),
                };
                assert(self@ =~= before.update(c as int, remembered(before[c as int], trip.felt)));
                filled = filled || first;
            }
            i += 1;
        }
        filled
    }
}

/// Whether an earlier column than `i` is empty.
pub open spec fn said(earned: Seq<Seq<Felt>>, i: int) -> bool {
    exists|j: int| 0 <= j < i && (#[trigger] earned[j]).len() == 0
}

/// What a column says when it has no reading to show: only the leftmost empty one speaks, and what
/// it needs depends on why it is empty.
pub open spec fn spec_note(earned: Seq<Seq<Felt>>, chosen: int, running: bool, i: int) -> Seq<char> {
    if earned[i].len() > 0 || said(earned, i) {
        Seq::empty()
    } else if i == chosen {
        if running {
            Seq::empty()
        } else {
            "Press \"Run\""@
        }
    } else {
        "Select \""@ + spec_label(i) + "\""@
    }
}

/// What each column says when it has no reading to show.
pub fn notes_for(earned: &Earned, chosen: usize, running: bool, shows: Shows) -> (notes: Vec<
    String,
>)
    ensures
        notes@.len() == COLUMNS,
        forall|i: int|
            0 <= i < COLUMNS ==> (#[trigger] notes@[i])@ == spec_note(
                earned@,
                chosen as int,
                running,
                i,
            ),
{
    let cast = cast(shows);
    let mut notes: Vec<String> = Vec::new();
    let mut spoken = false;
    let mut i: usize = 0;
    while i < COLUMNS
        invariant
            i <= COLUMNS,
            notes@.len() == i,
            spoken == said(earned@, i as int),
            forall|i: int| 0 <= i < COLUMNS ==> (#[trigger] cast@[i]).0@ == spec_label(i),
            forall|j: int|
                0 <= j < i ==> (#[trigger] notes@[j])@ == spec_note(
                    earned@,
                    chosen as int,
                    running,
                    j,
                ),
        decreases COLUMNS - i,
    {
        let mut note = String::new();
        assert(note@ =~= Seq::empty());
        let empty: bool = earned.column(i).len() == 0;
        if empty && !spoken {
            if i == chosen {
                if !running {
                    push_text(&mut note, "Press \"Run\"");
                    assert(note@ =~= "Press \"Run\""@);
                }
            } else {
                push_text(&mut note, "Select \"");
                push_text(&mut note, cast[i].0);
                push_text(&mut note, "\"");
                assert(note@ =~= "Select \""@ + spec_label(i as int) + "\""@);
            }
        }
        if empty {
            assert(earned@[i as int].len() == 0);
            spoken = true;
        }
        notes.push(note);
        i += 1;
    }
    notes
}

/// At most one column speaks at a time.
pub proof fn one_column_speaks(earned: Seq<Seq<Felt>>, chosen: int, running: bool, i: int, j: int)
    requires
        0 <= i < j < earned.len(),
    ensures
        spec_note(earned, chosen, running, i).len() == 0 || spec_note(
            earned,
            chosen,
            running,
            j,
        ).len() == 0,
{
    if earned[i].len() == 0 {
        assert(said(earned, j));
    }
}

/// What the phone's one column says with nothing to show: it mirrors the chosen policy, so the
/// only thing it can be waiting for is the fleet.
pub fn phone_note_for(has_reading: bool, running: bool) -> (s: String)
    ensures
        s@ == (if has_reading || running {
            Seq::empty()
        } else {
            "Press \"Run\""@
        }),
{
    if has_reading || running {
        let s = String::new();
        assert(s@ =~= Seq::empty());
        s
    } else {
        "Press \"Run\"".to_owned()
    }
}

/// What a column is showing: the reading it was last given, or one on its way there.
pub struct Shown {
    pub total: Ticks,
    pub phases: Vec<Ticks>,
    pub give: Vec<Ticks>,
}

#[verifier::ext_equal]
pub struct ShownView {
    pub total: Ticks,
    pub phases: Seq<Ticks>,
    pub give: Seq<Ticks>,
}

impl View for Shown {
    type V = ShownView;

    open spec fn view(&self) -> ShownView {
        ShownView { total: self.total, phases: self.phases@, give: self.give@ }
    }
}

impl ShownView {
    /// One reading to a phase.
    pub open spec fn wf(self) -> bool {
        self.phases.len() == PHASE_COUNT && self.give.len() == PHASE_COUNT
    }
}

/// Whether a column shows a band: its mean trip to the tick below, and each phase's give beside it.
pub open spec fn shows_band(s: ShownView, b: Band) -> bool {
    &&& s.wf()
    &&& s.total == b.mean.total as int / b.mean.trips as int
    &&& forall|p: int| 0 <= p < PHASE_COUNT ==> #[trigger] s.phases[p] == mean_in(b.mean, p)
    &&& forall|p: int| 0 <= p < PHASE_COUNT ==> is_give(#[trigger] s.give[p] as int, b.runs@, p)
}

impl Shown {
    /// A band as a column shows it.
    pub fn of(b: &Band) -> (s: Shown)
        requires
            squarable(b.mean),
            b.runs@.len() <= GIVE_RUNS,
            forall|i: int| 0 <= i < b.runs@.len() ==> squarable(#[trigger] b.runs@[i]),
        ensures
            shows_band(s@, *b),
    {
        let trips: u128 = b.mean.trips as u128;
        let mut phases: Vec<Ticks> = Vec::new();
        let mut give: Vec<Ticks> = Vec::new();
        let mut p: usize = 0;
        while p < PHASE_COUNT
            invariant
                p <= PHASE_COUNT,
                squarable(b.mean),
                trips == b.mean.trips,
                b.runs@.len() <= GIVE_RUNS,
                forall|i: int| 0 <= i < b.runs@.len() ==> squarable(#[trigger] b.runs@[i]),
                phases@.len() == p,
                give@.len() == p,
                forall|q: int| 0 <= q < p ==> #[trigger] phases@[q] == mean_in(b.mean, q),
                forall|q: int| 0 <= q < p ==> is_give(#[trigger] give@[q] as int, b.runs@, q),
            decreases PHASE_COUNT - p,
        {
            let sum: u128 = b.mean.phases[p];
            assert(sum / trips <= LONGEST_TRIP) by (nonlinear_arith)
                requires
                    sum <= trips * LONGEST_TRIP,
                    trips > 0,
            ;
            phases.push((sum / trips) as u64);
            give.push(give_of(&b.runs, p));
            p += 1;
        }
        let sum: u128 = b.mean.total;
        assert(sum / trips <= LONGEST_TRIP) by (nonlinear_arith)
            requires
                sum <= trips * LONGEST_TRIP,
                trips > 0,
        ;
        Shown { total: (sum / trips) as u64, phases, give }
    }

    /// The same reading again.
    pub fn again(&self) -> (s: Shown)
        ensures
            s@ == self@,
    {
        Shown { total: self.total, phases: copy_all(&self.phases), give: copy_all(&self.give) }
    }
}

/// One reading's step toward the one it is heading for: a share of the distance.
pub open spec fn eased(was: int, now: int, share: Part) -> int {
    if now >= was {
        was + (now - was) * share.done / share.of as int
    } else {
        was - (was - now) * share.done / share.of as int
    }
}

/// A share of a whole.
pub open spec fn is_share(share: Part) -> bool {
    0 < share.of && share.done <= share.of
}

/// A step never overshoots: it ends between where it was and where it was going, and the whole
/// share gets there.
pub proof fn a_step_never_overshoots(was: int, now: int, share: Part)
    requires
        is_share(share),
    ensures
        was <= now ==> was <= eased(was, now, share) <= now,
        now <= was ==> now <= eased(was, now, share) <= was,
        share.done == share.of ==> eased(was, now, share) == now,
{
    let (d, of) = (share.done as int, share.of as int);
    let gap = if now >= was {
        now - was
    } else {
        was - now
    };
    assert(0 <= gap * d / of <= gap) by (nonlinear_arith)
        requires
            0 <= gap,
            0 <= d <= of,
            of > 0,
    ;
    if d == of {
        assert(gap * of / of == gap) by (nonlinear_arith)
            requires
                of > 0,
        ;
    }
}

/// A share of the way from one reading to another.
pub fn toward(was: Ticks, now: Ticks, share: &Part) -> (x: Ticks)
    requires
        is_share(*share),
    ensures
        x == eased(was as int, now as int, *share),
{
    proof {
        a_step_never_overshoots(was as int, now as int, *share);
    }
    let gap: u64 = if now >= was {
        now - was
    } else {
        was - now
    };
    assert(0 <= gap * share.done <= u128::MAX) by (nonlinear_arith)
        requires
            gap <= u64::MAX,
            share.done <= u64::MAX,
    ;
    assert(gap as u128 * share.done as u128 == gap * share.done) by (nonlinear_arith);
    let step: u128 = gap as u128 * share.done as u128 / share.of as u128;
    if now >= was {
        was + step as u64
    } else {
        was - step as u64
    }
}

/// Each of some readings, a share of the way to each of others.
pub open spec fn all_eased(was: Seq<Ticks>, now: Seq<Ticks>, share: Part) -> Seq<Ticks> {
    Seq::new(was.len(), |i: int| eased(was[i] as int, now[i] as int, share) as Ticks)
}

fn all_toward(was: &Vec<Ticks>, now: &Vec<Ticks>, share: &Part) -> (x: Vec<Ticks>)
    requires
        is_share(*share),
        was@.len() == now@.len(),
    ensures
        x@ == all_eased(was@, now@, *share),
{
    let mut x: Vec<Ticks> = Vec::new();
    let mut i: usize = 0;
    while i < was.len()
        invariant
            i <= was@.len(),
            was@.len() == now@.len(),
            is_share(*share),
            x@.len() == i,
            forall|j: int| 0 <= j < i ==> #[trigger] x@[j] == all_eased(was@, now@, *share)[j],
        decreases was@.len() - i,
    {
        x.push(toward(was[i], now[i], share));
        i += 1;
    }
    assert(x@ =~= all_eased(was@, now@, *share));
    x
}

/// A column's bars a share of the way to what its policy has just earned; all of the way where it
/// shows nothing.
pub open spec fn followed(shown: Option<ShownView>, fresh: ShownView, share: Part) -> ShownView {
    match shown {
        None => fresh,
        Some(s) => ShownView {
            total: eased(s.total as int, fresh.total as int, share) as Ticks,
            phases: all_eased(s.phases, fresh.phases, share),
            give: all_eased(s.give, fresh.give, share),
        },
    }
}

/// Move a column's bars toward what its policy has just earned. A column with nothing shown takes
/// the reading whole; one that has a reading follows from where it stands.
pub fn follow(shown: &Option<Shown>, fresh: &Shown, share: &Part) -> (next: Shown)
    requires
        is_share(*share),
        fresh@.wf(),
        shown matches Some(s) ==> s@.wf(),
    ensures
        next@.wf(),
        next@ == followed(
            match shown {
                Some(s) => Some(s@),
                None => None,
            },
            fresh@,
            *share,
        ),
{
    match shown {
        None => fresh.again(),
        Some(s) => Shown {
            total: toward(s.total, fresh.total, share),
            phases: all_toward(&s.phases, &fresh.phases, share),
            give: all_toward(&s.give, &fresh.give, share),
        },
    }
}

/// What a reading spent waiting, over its first `n` phases.
pub open spec fn waited(phases: Seq<Ticks>, rows: Seq<PhaseRow>, n: int) -> int
    decreases n,
{
    if n <= 0 {
        0
    } else {
        waited(phases, rows, n - 1) + if rows[n - 1].waiting {
            phases[n - 1] as int
        } else {
            0
        }
    }
}

/// How a column's waiting stands against the one they are all read against: the baseline says
/// that it is one, and the others say how far from it they are. Where the baseline shows nothing,
/// nothing carries a difference, since a difference from no reading is not zero.
pub open spec fn spec_stands(column: int, ms: Ticks, baseline: Option<int>) -> Option<Against> {
    match baseline {
        None => None,
        Some(base) => if column == BASELINE {
            Some(Against::Baseline)
        } else if base > 0 {
            Some(Against::By { more: (ms - base) as i128, of: base as u128 })
        } else {
            None
        },
    }
}

/// How a column's waiting stands against the baseline's.
pub fn stands(column: usize, ms: Ticks, baseline: Option<u128>) -> (a: Option<Against>)
    requires
        baseline matches Some(base) ==> base <= 4 * u64::MAX,
    ensures
        a == spec_stands(
            column as int,
            ms,
            match baseline {
                Some(base) => Some(base as int),
                None => None,
            },
        ),
{
    match baseline {
        None => None,
        Some(base) => {
            if column == BASELINE {
                Some(Against::Baseline)
            } else if base > 0 {
                Some(Against::By { more: ms as i128 - base as i128, of: base })
            } else {
                None
            }
        },
    }
}

/// The baseline's own waiting, where it shows any reading.
pub open spec fn base_of(shown: Seq<Option<Shown>>, rows: Seq<PhaseRow>) -> Option<int> {
    match shown[BASELINE as int] {
        Some(s) => Some(waited(s.phases@, rows, PHASE_COUNT as int)),
        None => None,
    }
}

/// A column's row for one phase.
pub open spec fn spec_leg(
    s: ShownView,
    rows: Seq<PhaseRow>,
    column: int,
    base: Option<int>,
    p: int,
) -> Leg {
    Leg {
        label: rows[p].label,
        ms: Some(s.phases[p]),
        give: if s.give[p] > 0 {
            Some(s.give[p])
        } else {
            None
        },
        against: if rows[p].waiting {
            spec_stands(column, s.phases[p], base)
        } else {
            None
        },
        ink: rows[p].ink,
    }
}

/// What a reading spent waiting.
fn waiting(phases: &Vec<Ticks>, rows: &Vec<PhaseRow>) -> (sum: u128)
    requires
        phases@.len() == PHASE_COUNT,
        rows@.len() == PHASE_COUNT,
    ensures
        sum == waited(phases@, rows@, PHASE_COUNT as int),
        sum <= 4 * u64::MAX,
{
    let mut sum: u128 = 0;
    let mut i: usize = 0;
    while i < PHASE_COUNT
        invariant
            i <= PHASE_COUNT,
            phases@.len() == PHASE_COUNT,
            rows@.len() == PHASE_COUNT,
            sum == waited(phases@, rows@, i as int),
            sum <= i * u64::MAX,
        decreases PHASE_COUNT - i,
    {
        if rows[i].waiting {
            sum = sum + phases[i] as u128;
        }
        i += 1;
        assert(i * u64::MAX == (i - 1) * u64::MAX + u64::MAX) by (nonlinear_arith);
    }
    sum
}

/// What a column draws.
pub open spec fn draws(
    legs: Option<Vec<Leg>>,
    shown: Seq<Option<Shown>>,
    rows: Seq<PhaseRow>,
    column: int,
) -> bool {
    match shown[column] {
        None => legs is None,
        Some(s) => legs matches Some(legs) && legs@ == Seq::new(
            PHASE_COUNT as nat,
            |p: int| spec_leg(s@, rows, column, base_of(shown, rows), p),
        ),
    }
}

/// What the columns draw: each reading cut into its phases, and on the waiting, where the column
/// stands against the one they are all read against. Read off what the columns are showing, so the
/// comparison under a bar is with the bars either side of it.
pub fn columns_of(shown: &Vec<Option<Shown>>, rows: &Vec<PhaseRow>) -> (columns: Vec<
    Option<Vec<Leg>>,
>)
    requires
        shown@.len() > 0,
        rows@.len() == PHASE_COUNT,
        forall|i: int|
            0 <= i < shown@.len() ==> ((#[trigger] shown@[i]) matches Some(s) ==> s@.wf()),
    ensures
        columns@.len() == shown@.len(),
        forall|i: int|
            0 <= i < shown@.len() ==> draws(#[trigger] columns@[i], shown@, rows@, i),
{
    assert(shown@[BASELINE as int] matches Some(s) ==> s@.wf());
    let baseline: Option<u128> = match &shown[BASELINE] {
        Some(s) => Some(waiting(&s.phases, rows)),
        None => None,
    };
    let ghost base = base_of(shown@, rows@);
    let mut columns: Vec<Option<Vec<Leg>>> = Vec::new();
    let mut i: usize = 0;
    while i < shown.len()
        invariant
            i <= shown@.len(),
            rows@.len() == PHASE_COUNT,
            base == base_of(shown@, rows@),
            base == (match baseline {
                Some(b) => Some(b as int),
                None => None,
            }),
            baseline matches Some(b) ==> b <= 4 * u64::MAX,
            forall|i: int|
                0 <= i < shown@.len() ==> ((#[trigger] shown@[i]) matches Some(s) ==> s@.wf()),
            columns@.len() == i,
            forall|j: int| 0 <= j < i ==> draws(#[trigger] columns@[j], shown@, rows@, j),
        decreases shown@.len() - i,
    {
        assert(shown@[i as int] matches Some(s) ==> s@.wf());
        let one: Option<Vec<Leg>> = match &shown[i] {
            None => None,
            Some(s) => {
                let mut legs: Vec<Leg> = Vec::new();
                let mut p: usize = 0;
                while p < PHASE_COUNT
                    invariant
                        p <= PHASE_COUNT,
                        rows@.len() == PHASE_COUNT,
                        s@.wf(),
                        base == (match baseline {
                            Some(b) => Some(b as int),
                            None => None,
                        }),
                        baseline matches Some(b) ==> b <= 4 * u64::MAX,
                        legs@.len() == p,
                        forall|q: int|
                            0 <= q < p ==> #[trigger] legs@[q] == spec_leg(
                                s@,
                                rows@,
                                i as int,
                                base,
                                q,
                            ),
                    decreases PHASE_COUNT - p,
                {
                    let row: PhaseRow = rows[p];
                    let ms: Ticks = s.phases[p];
                    let give: Ticks = s.give[p];
                    legs.push(
                        Leg {
                            label: row.label,
                            ms: Some(ms),
                            give: if give > 0 {
                                Some(give)
                            } else {
                                None
                            },
                            against: if row.waiting {
                                stands(i, ms, baseline)
                            } else {
                                None
                            },
                            ink: row.ink,
                        },
                    );
                    p += 1;
                }
                assert(legs@ =~= Seq::new(
                    PHASE_COUNT as nat,
                    |p: int| spec_leg(s@, rows@, i as int, base, p),
                ));
                Some(legs)
            },
        };
        columns.push(one);
        i += 1;
    }
    columns
}

/// The slowest trip any column keeps.
pub open spec fn is_slowest(slowest: Option<Ticks>, earned: Seq<Seq<Felt>>) -> bool {
    match slowest {
        None => forall|c: int| 0 <= c < earned.len() ==> (#[trigger] earned[c]).len() == 0,
        Some(t) => {
            &&& exists|c: int, i: int|
                0 <= c < earned.len() && 0 <= i < earned[c].len() && (#[trigger] earned[c][i]).total
                    == t
            &&& forall|c: int, i: int|
                0 <= c < earned.len() && 0 <= i < earned[c].len() ==> (
                #[trigger] earned[c][i]).total <= t
        },
    }
}

/// The slowest trip in one window, or `so_far` where that is slower.
fn slower(window: &VecDeque<Felt>, so_far: Option<Ticks>) -> (slowest: Option<Ticks>)
    ensures
        slowest is None <==> so_far is None && window@.len() == 0,
        slowest matches Some(t) ==> {
            &&& so_far == Some(t) || exists|i: int|
                0 <= i < window@.len() && (#[trigger] window@[i]).total == t
            &&& so_far matches Some(s) ==> s <= t
            &&& forall|i: int| 0 <= i < window@.len() ==> (#[trigger] window@[i]).total <= t
        },
{
    let mut slowest: Option<Ticks> = so_far;
    let mut i: usize = 0;
    while i < window.len()
        invariant
            i <= window@.len(),
            slowest is None <==> so_far is None && i == 0,
            slowest matches Some(t) ==> {
                &&& so_far == Some(t) || exists|j: int|
                    0 <= j < i && (#[trigger] window@[j]).total == t
                &&& so_far matches Some(s) ==> s <= t
                &&& forall|j: int| 0 <= j < i ==> (#[trigger] window@[j]).total <= t
            },
        decreases window@.len() - i,
    {
        let total: Ticks = window[i].total;
        assert(window@[i as int].total == total);
        let keep: bool = match slowest {
            Some(t) => t >= total,
            None => false,
        };
        if !keep {
            slowest = Some(total);
        }
        i += 1;
    }
    slowest
}

/// The axis over the columns: the slowest trip any of them keeps, with headroom, and never less
/// than a millisecond.
pub open spec fn headroom(slowest: Ticks) -> int {
    if slowest * 21 / 20 > MS {
        slowest * 21 / 20
    } else {
        MS as int
    }
}

impl Earned {
    /// The slowest trip any column keeps.
    pub fn slowest(&self) -> (t: Option<Ticks>)
        ensures
            is_slowest(t, self@),
    {
        let a: Option<Ticks> = slower(&self.a, None);
        let b: Option<Ticks> = slower(&self.b, a);
        let c: Option<Ticks> = slower(&self.c, b);
        assert(self@[0] == self.a@ && self@[1] == self.b@ && self@[2] == self.c@);
        proof {
            if let Some(t) = c {
                if b != Some(t) {
                    let i = choose|i: int|
                        0 <= i < self.c@.len() && (#[trigger] self.c@[i]).total == t;
                    assert(self@[2][i].total == t);
                } else if a != Some(t) {
                    let i = choose|i: int|
                        0 <= i < self.b@.len() && (#[trigger] self.b@[i]).total == t;
                    assert(self@[1][i].total == t);
                } else {
                    let i = choose|i: int|
                        0 <= i < self.a@.len() && (#[trigger] self.a@[i]).total == t;
                    assert(self@[0][i].total == t);
                }
                assert forall|k: int, i: int|
                    0 <= k < self@.len() && 0 <= i < self@[k].len() implies (
                #[trigger] self@[k][i]).total <= t by {
                    if k == 0 {
                        assert(self.a@[i].total <= a->0);
                    } else if k == 1 {
                        assert(self.b@[i].total <= b->0);
                    } else {
                        assert(self.c@[i].total <= t);
                    }
                }
            }
        }
        c
    }

    /// Forget one column, or every one where `column` names none of them.
    pub fn clear(&mut self, column: usize)
        requires
            old(self).wf(),
        ensures
            final(self).wf(),
            final(self)@ == Seq::new(
                COLUMNS as nat,
                |i: int|
                    if column >= COLUMNS || i == column {
                        Seq::<Felt>::empty()
                    } else {
                        old(self)@[i]
                    },
            ),
    {
        if column == 0 || column >= COLUMNS {
            self.a = VecDeque::new();
        }
        if column == 1 || column >= COLUMNS {
            self.b = VecDeque::new();
        }
        if column == 2 || column >= COLUMNS {
            self.c = VecDeque::new();
        }
        assert(self@ =~= Seq::new(
            COLUMNS as nat,
            |i: int|
                if column >= COLUMNS || i == column {
                    Seq::<Felt>::empty()
                } else {
                    old(self)@[i]
                },
        ));
    }
}

/// A pool's size, as its rail reads it.
pub fn fmt_pool(v: u64, fleet: u64) -> (s: String)
    ensures
        s@ == digits(v as nat) + " of "@ + digits(fleet as nat),
{
    let mut s = decimal(v);
    push_text(&mut s, " of ");
    push_text(&mut s, &decimal(fleet));
    s
}

/// What a reading waited is its waiting rows' own: changing what it spent in a row that is not
/// waiting changes nothing, and a reading that spent nothing in its waiting rows waited nothing.
pub proof fn only_the_waiting_rows_wait(
    a: Seq<Ticks>,
    b: Seq<Ticks>,
    rows: Seq<PhaseRow>,
    n: int,
)
    requires
        0 <= n <= rows.len(),
        n <= a.len() && n <= b.len(),
        forall|p: int| 0 <= p < n && (#[trigger] rows[p]).waiting ==> a[p] == b[p],
    ensures
        waited(a, rows, n) == waited(b, rows, n),
        (forall|p: int| 0 <= p < n && (#[trigger] rows[p]).waiting ==> a[p] == 0) ==> waited(
            a,
            rows,
            n,
        ) == 0,
    decreases n,
{
    if n > 0 {
        only_the_waiting_rows_wait(a, b, rows, n - 1);
        if forall|p: int| 0 <= p < n && (#[trigger] rows[p]).waiting ==> a[p] == 0 {
            assert(rows[n - 1].waiting ==> a[n - 1] == 0);
        }
        assert(rows[n - 1].waiting ==> a[n - 1] == b[n - 1]);
    }
}

/// Every waiting row counts whole: spending that much more in one is waiting that much longer.
pub proof fn a_waiting_row_counts_whole(
    phases: Seq<Ticks>,
    rows: Seq<PhaseRow>,
    n: int,
    p: int,
    to: Ticks,
)
    requires
        0 <= p < n <= rows.len(),
        n <= phases.len(),
        rows[p].waiting,
    ensures
        waited(phases.update(p, to), rows, n) - waited(phases, rows, n) == to - phases[p],
    decreases n,
{
    let after = phases.update(p, to);
    if p == n - 1 {
        assert forall|q: int| 0 <= q < n - 1 && (#[trigger] rows[q]).waiting implies phases[q]
            == after[q] by {}
        only_the_waiting_rows_wait(phases, after, rows, n - 1);
    } else {
        a_waiting_row_counts_whole(phases, rows, n - 1, p, to);
    }
}

/// With one waiting row, what was waited is what was spent in it.
pub proof fn one_waiting_row_is_the_waiting(phases: Seq<Ticks>, rows: Seq<PhaseRow>, n: int, p: int)
    requires
        0 <= p < n <= rows.len(),
        n <= phases.len(),
        forall|q: int| 0 <= q < n ==> ((#[trigger] rows[q]).waiting <==> q == p),
    ensures
        waited(phases, rows, n) == phases[p],
{
    assert(rows[p].waiting);
    a_waiting_row_counts_whole(phases, rows, n, p, 0);
    let none = phases.update(p, 0);
    only_the_waiting_rows_wait(none, none, rows, n);
}

/// How a drawn column compares: a row that is not waiting compares nothing; the baseline says that
/// it is one; and any other column's waiting row is off what the baseline waited in all its waiting
/// rows by the difference it states, out of all of it.
pub proof fn a_leg_is_read_against_the_baselines_waiting(
    legs: Option<Vec<Leg>>,
    shown: Seq<Option<Shown>>,
    rows: Seq<PhaseRow>,
    column: int,
    p: int,
)
    requires
        draws(legs, shown, rows, column),
        legs is Some,
        0 <= column < shown.len(),
        0 <= p < PHASE_COUNT,
        rows.len() == PHASE_COUNT,
        forall|i: int| 0 <= i < shown.len() ==> ((#[trigger] shown[i]) matches Some(s) ==> s@.wf()),
    ensures
        ({
            let leg = legs->0@[p];
            let mine = shown[column]->0@;
            &&& leg.ms == Some(mine.phases[p])
            &&& leg.label == rows[p].label && leg.ink == rows[p].ink
            &&& leg.give == if mine.give[p] == 0 {
                None
            } else {
                Some(mine.give[p])
            }
            &&& !rows[p].waiting ==> leg.against is None
            &&& shown[0] is None ==> leg.against is None
            &&& rows[p].waiting && shown[0] is Some && column == 0 ==> leg.against == Some(
                Against::Baseline,
            )
            &&& rows[p].waiting && shown[0] is Some && column != 0 ==> {
                let base = waited(shown[0]->0@.phases, rows, 4);
                &&& base == 0 ==> leg.against is None
                &&& base > 0 ==> (leg.against matches Some(Against::By { more, of }) && of == base
                    && more + of == mine.phases[p])
            }
        }),
{
    let leg = legs->0@[p];
    assert(shown[0] matches Some(s) ==> s@.wf());
    assert(shown[column] matches Some(s) ==> s@.wf());
    if shown[0] is Some {
        waiting_is_bounded(shown[0]->0@.phases, rows, 4);
    }
}

proof fn waiting_is_bounded(phases: Seq<Ticks>, rows: Seq<PhaseRow>, n: int)
    requires
        0 <= n <= 4,
    ensures
        0 <= waited(phases, rows, n) <= n * u64::MAX,
    decreases n,
{
    if n > 0 {
        waiting_is_bounded(phases, rows, n - 1);
        assert(n * u64::MAX == (n - 1) * u64::MAX + u64::MAX) by (nonlinear_arith);
    }
}

/// A column that rolls keeps the newest of everything it was given.
pub proof fn a_column_keeps_its_newest(window: Seq<Felt>, felt: Felt)
    requires
        window.len() <= COLUMN_SAMPLE,
    ensures
        ({
            let after = remembered(window, felt);
            let ever = window.push(felt);
            &&& after.last() == felt
            &&& after.len() == if ever.len() <= COLUMN_SAMPLE {
                ever.len()
            } else {
                COLUMN_SAMPLE as nat
            }
            &&& after == ever.skip(ever.len() - after.len())
        }),
{
    let after = remembered(window, felt);
    let ever = window.push(felt);
    assert(after =~= ever.skip(ever.len() - after.len()));
}

/// The trips from `from` up to `n` that a policy sent.
pub open spec fn sent_by(trips: Seq<Trip>, policy: Policy, from: int, n: int) -> Seq<Felt>
    decreases n - from,
{
    if n <= from {
        Seq::empty()
    } else if trips[n - 1].policy == Some(policy) {
        sent_by(trips, policy, from, n - 1).push(trips[n - 1].felt)
    } else {
        sent_by(trips, policy, from, n - 1)
    }
}

/// Each column holds the trips of its own policy and no other's: what it held and then, in the
/// order they were answered, what its policy sent, the newest [`COLUMN_SAMPLE`] of them.
pub proof fn a_column_holds_its_own_policys_trips(
    earned: Seq<Seq<Felt>>,
    shows: Shows,
    trips: Seq<Trip>,
    from: int,
    n: int,
    c: int,
)
    requires
        earned.len() == COLUMNS,
        0 <= c < COLUMNS,
        earned[c].len() <= COLUMN_SAMPLE,
        0 <= from <= n <= trips.len(),
    ensures
        credited(earned, shows, trips, from, n).len() == COLUMNS,
        ({
            let ever = earned[c] + sent_by(trips, spec_cast(shows)[c], from, n);
            let gone = if ever.len() <= COLUMN_SAMPLE {
                0
            } else {
                ever.len() - COLUMN_SAMPLE
            };
            credited(earned, shows, trips, from, n)[c] == ever.skip(gone)
        }),
    decreases n - from,
{
    let policy = spec_cast(shows)[c];
    if n <= from {
        assert((earned[c] + sent_by(trips, policy, from, n)).skip(0) =~= earned[c]);
    } else {
        a_column_holds_its_own_policys_trips(earned, shows, trips, from, n - 1, c);
        let before = credited(earned, shows, trips, from, n - 1);
        let trip = trips[n - 1];
        if trip.policy is Some {
            a_trips_column_is_its_policys(shows, trip.policy->0);
        }
        let was = earned[c] + sent_by(trips, policy, from, n - 1);
        if trip.policy == Some(policy) {
            assert(spec_cast(shows)[c] == policy);
            assert(spec_cast(shows).contains(policy));
            assert(spec_column(shows, trip.policy) == Some(c));
            a_column_keeps_its_newest(before[c], trip.felt);
            let ever = earned[c] + sent_by(trips, policy, from, n);
            assert(was.push(trip.felt) =~= ever);
            let gone = if ever.len() <= COLUMN_SAMPLE {
                0
            } else {
                ever.len() - COLUMN_SAMPLE
            };
            assert(credited(earned, shows, trips, from, n)[c] =~= ever.skip(gone));
        }
    }
}

/// A step goes its share of the way, to the tick short of it: neither further, nor a tick less.
pub proof fn a_step_goes_its_share(was: int, now: int, share: Part)
    requires
        is_share(share),
    ensures
        was <= now ==> share.of * (eased(was, now, share) - was) <= (now - was) * share.done,
        was <= now ==> (now - was) * share.done < share.of * (eased(was, now, share) - was + 1),
        now <= was ==> share.of * (was - eased(was, now, share)) <= (was - now) * share.done,
        now <= was ==> (was - now) * share.done < share.of * (was - eased(was, now, share) + 1),
{
    let way = if now >= was {
        now - was
    } else {
        was - now
    };
    let x = way * share.done;
    let q = x / share.of as int;
    vstd::arithmetic::div_mod::lemma_fundamental_div_mod(x, share.of as int);
    assert(share.of * (q + 1) == share.of * q + share.of) by (nonlinear_arith);
    assert(0 * share.done == 0 && share.of * 0 == 0);
    assert(now == was ==> q == 0);
}

/// A column moves all together: its total, each phase and each give go the same share of their own
/// ways, and a column with nothing on it yet shows what there is at once.
pub proof fn a_column_moves_together(shown: ShownView, fresh: ShownView, share: Part, p: int)
    requires
        is_share(share),
        shown.wf(),
        fresh.wf(),
        0 <= p < PHASE_COUNT,
    ensures
        followed(None, fresh, share) == fresh,
        ({
            let next = followed(Some(shown), fresh, share);
            &&& next.wf()
            &&& next.total == eased(shown.total as int, fresh.total as int, share)
            &&& next.phases[p] == eased(shown.phases[p] as int, fresh.phases[p] as int, share)
            &&& next.give[p] == eased(shown.give[p] as int, fresh.give[p] as int, share)
        }),
        followed(Some(fresh), fresh, share) == fresh,
{
    a_step_never_overshoots(shown.total as int, fresh.total as int, share);
    a_step_never_overshoots(shown.phases[p] as int, fresh.phases[p] as int, share);
    a_step_never_overshoots(shown.give[p] as int, fresh.give[p] as int, share);
    let still = followed(Some(fresh), fresh, share);
    assert forall|i: int| 0 <= i < PHASE_COUNT implies still.phases[i] == fresh.phases[i]
        && still.give[i] == fresh.give[i] by {
        a_step_never_overshoots(fresh.phases[i] as int, fresh.phases[i] as int, share);
        a_step_never_overshoots(fresh.give[i] as int, fresh.give[i] as int, share);
    }
    a_step_never_overshoots(fresh.total as int, fresh.total as int, share);
    assert(still.phases =~= fresh.phases);
    assert(still.give =~= fresh.give);
}

/// The axis leaves a twentieth above the slowest trip, to the tick below, and is never shorter than
/// a millisecond.
pub proof fn the_axis_clears_the_slowest_by_a_twentieth(slowest: Ticks)
    ensures
        headroom(slowest) >= 1_000_000_000,
        headroom(slowest) > 1_000_000_000 ==> 20 * headroom(slowest) <= 21 * slowest,
        21 * slowest < 20 * headroom(slowest) + 20,
        slowest >= 1_000_000_000 ==> headroom(slowest) >= slowest,
{
}

/// What a column shows is its band's mean, shared out among its trips to the tick below, in all and
/// in each phase, with each phase's own give.
pub proof fn a_column_shows_its_bands_mean(s: ShownView, b: Band, p: int)
    requires
        shows_band(s, b),
        b.mean.trips > 0,
        0 <= p < PHASE_COUNT,
    ensures
        b.mean.trips * s.total <= b.mean.total < b.mean.trips * (s.total + 1),
        b.mean.trips * s.phases[p] <= b.mean.phases@[p] < b.mean.trips * (s.phases[p] + 1),
        is_give(s.give[p] as int, b.runs@, p),
{
    let trips = b.mean.trips as int;
    vstd::arithmetic::div_mod::lemma_fundamental_div_mod(b.mean.total as int, trips);
    assert(trips * (s.total + 1) == trips * s.total + trips) by (nonlinear_arith);
    vstd::arithmetic::div_mod::lemma_fundamental_div_mod(b.mean.phases@[p] as int, trips);
    assert(s.phases[p] == mean_in(b.mean, p));
    assert(trips * (s.phases[p] + 1) == trips * s.phases[p] + trips) by (nonlinear_arith);
}

proof fn a_column_never_empties(
    earned: Seq<Seq<Felt>>,
    shows: Shows,
    trips: Seq<Trip>,
    from: int,
    n: int,
    c: int,
)
    requires
        earned.len() == COLUMNS,
        0 <= c < COLUMNS,
        0 <= from <= n <= trips.len(),
    ensures
        credited(earned, shows, trips, from, n).len() == COLUMNS,
        credited(earned, shows, trips, from, n)[c].len() == 0 <==> earned[c].len() == 0 && forall|
            i: int,
        |
            from <= i < n ==> spec_column(shows, (#[trigger] trips[i]).policy) != Some(c),
    decreases n - from,
{
    if n > from {
        a_column_never_empties(earned, shows, trips, from, n - 1, c);
        let was = credited(earned, shows, trips, from, n - 1);
        let now = credited(earned, shows, trips, from, n);
        if let Some(k) = spec_column(shows, trips[n - 1].policy) {
            assert(0 <= k < COLUMNS);
            if k == c {
                assert(now[c] == remembered(was[c], trips[n - 1].felt));
            }
        }
    }
}

/// A landing fills a column that had nothing on it exactly where some trip of it belongs to a
/// column that had nothing on it before.
pub proof fn a_first_trip_fills_its_column(
    earned: Seq<Seq<Felt>>,
    shows: Shows,
    trips: Seq<Trip>,
    from: int,
    n: int,
)
    requires
        earned.len() == COLUMNS,
        0 <= from <= n <= trips.len(),
    ensures
        fills(earned, shows, trips, from, n) <==> exists|i: int|
            from <= i < n && (spec_column(shows, (#[trigger] trips[i]).policy) matches Some(c)
                && earned[c].len() == 0),
    decreases n - from,
{
    if n > from {
        a_first_trip_fills_its_column(earned, shows, trips, from, n - 1);
        let trip = trips[n - 1];
        if let Some(c) = spec_column(shows, trip.policy) {
            assert(0 <= c < COLUMNS);
            a_column_never_empties(earned, shows, trips, from, n - 1, c);
            if earned[c].len() == 0 && credited(earned, shows, trips, from, n - 1)[c].len() > 0 {
                let i = choose|i: int|
                    from <= i < n - 1 && spec_column(shows, (#[trigger] trips[i]).policy) == Some(c);
                assert(spec_column(shows, trips[i].policy) matches Some(k) && earned[k].len() == 0);
                assert(fills(earned, shows, trips, from, n - 1));
            }
        }
        if fills(earned, shows, trips, from, n - 1) {
            let i = choose|i: int|
                from <= i < n - 1 && (spec_column(shows, (#[trigger] trips[i]).policy) matches Some(
                    c,
                ) && earned[c].len() == 0);
            assert(from <= i < n);
        }
    }
}

/// What speaks is the first column that has nothing on it, and only that: to select it, or where it
/// is selected, to run.
pub proof fn the_first_empty_column_speaks(
    earned: Seq<Seq<Felt>>,
    chosen: int,
    running: bool,
    i: int,
)
    requires
        0 <= i < earned.len(),
    ensures
        earned[i].len() > 0 ==> spec_note(earned, chosen, running, i).len() == 0,
        (exists|j: int| 0 <= j < i && (#[trigger] earned[j]).len() == 0) ==> spec_note(
            earned,
            chosen,
            running,
            i,
        ).len() == 0,
        earned[i].len() == 0 && (forall|j: int| 0 <= j < i ==> (#[trigger] earned[j]).len() > 0)
            ==> spec_note(earned, chosen, running, i) == if i != chosen {
            "Select \""@ + spec_label(i) + "\""@
        } else if running {
            Seq::empty()
        } else {
            "Press \"Run\""@
        },
{
}

/// The columns are headed for their policies, in the order they are introduced.
pub proof fn a_column_is_headed_for_its_policy()
    ensures
        spec_label(0) == "Always Random"@,
        spec_label(1) == "Repick on Queue Timeout"@,
        spec_label(2) == "Power of Two"@,
{
}

} // verus!
