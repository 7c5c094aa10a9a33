//! One request's round trip, phase by phase, each drawn where it happened: every phase sits at its
//! own offset, so the rows read as a life rather than as bars sharing a baseline.

use vstd::prelude::*;

use crate::atoms::stage::{painted, spec_painted, Paint};
use crate::engine::clock::{Ticks, MS};
use crate::text::{
    decimal, digits, nearest_even, nearest_up, percent, percent_text, push_text,
    ratio_nearest_even, to_nearest_up, wide_decimal,
};

verus! {

/// What a leg is read against.
#[derive(Clone, Copy, PartialEq, Eq, Structural, Debug)]
pub enum Against {
    /// The reading the others are compared with. It has nothing to be nearer to.
    Baseline,
    /// How much longer than the baseline this one is, out of the baseline itself: negative where
    /// it is shorter.
    By { more: i128, of: u128 },
}

/// One phase of the trip.
#[derive(Clone, Copy, PartialEq, Eq, Debug)]
pub struct Leg {
    pub label: &'static str,
    /// How long the request spent here, or nothing where there is no request yet: a row with
    /// nothing in it is not a row that took no time.
    pub ms: Option<Ticks>,
    /// How far either side of the reading the truth could plausibly sit.
    pub give: Option<Ticks>,
    /// How this leg stands against the same leg of whatever it is being read against.
    pub against: Option<Against>,
    /// The colour this phase wears everywhere else.
    pub ink: Paint,
}

/// A leg, where it starts, and what it is measured against, so that a segment can never be placed
/// by one reading and scaled by another.
#[derive(Clone, Copy, PartialEq, Eq, Debug)]
pub struct Placed {
    pub leg: Leg,
    /// How long the trip had run before this leg began.
    pub at: u128,
    /// The whole trip.
    pub trip: u128,
    pub axis: Ticks,
}

/// How long a leg took, where it took any time at all.
pub open spec fn took(leg: Leg) -> Ticks {
    match leg.ms {
        Some(ms) => ms,
        None => 0,
    }
}

/// What the first `n` legs come to.
pub open spec fn run_of(legs: Seq<Leg>, n: int) -> int
    decreases n,
{
    if n <= 0 {
        0
    } else {
        run_of(legs, n - 1) + took(legs[n - 1])
    }
}

/// The axis a trip is drawn against: never shorter than a millisecond.
pub open spec fn spec_axis(axis: Ticks) -> Ticks {
    if axis > MS {
        axis
    } else {
        MS
    }
}

/// The legs laid end to end against one axis.
pub fn placed(legs: &Vec<Leg>, axis: Ticks) -> (rows: Vec<Placed>)
    ensures
        rows@ == Seq::new(
            legs@.len(),
            |i: int|
                Placed {
                    leg: legs@[i],
                    at: run_of(legs@, i) as u128,
                    trip: run_of(legs@, legs@.len() as int) as u128,
                    axis: spec_axis(axis),
                },
        ),
        0 <= run_of(legs@, legs@.len() as int) <= u128::MAX,
{
    let axis: Ticks = if axis > MS {
        axis
    } else {
        MS
    };
    let mut trip: u128 = 0;
    let mut i: usize = 0;
    while i < legs.len()
        invariant
            i <= legs@.len(),
            trip == run_of(legs@, i as int),
            trip <= i * u64::MAX,
        decreases legs@.len() - i,
    {
        let ms: u64 = match legs[i].ms {
            Some(ms) => ms,
            None => 0,
        };
        proof {
            assert(i * u64::MAX + u64::MAX == (i + 1) * u64::MAX) by (nonlinear_arith);
            assert((i + 1) * u64::MAX <= u128::MAX) by (nonlinear_arith)
                requires
                    i + 1 <= 0x1_0000_0000_0000_0000,
            ;
        }
        trip = trip + ms as u128;
        i += 1;
    }
    let mut rows: Vec<Placed> = Vec::new();
    let mut at: u128 = 0;
    let mut i: usize = 0;
    while i < legs.len()
        invariant
            i <= legs@.len(),
            at == run_of(legs@, i as int),
            trip == run_of(legs@, legs@.len() as int),
            rows@.len() == i,
            forall|j: int|
                0 <= j < i ==> #[trigger] rows@[j] == (Placed {
                    leg: legs@[j],
                    at: run_of(legs@, j) as u128,
                    trip,
                    axis,
                }),
        decreases legs@.len() - i,
    {
        let leg: Leg = legs[i];
        rows.push(Placed { leg, at, trip, axis });
        proof {
            runs_only_grow(legs@, i + 1, legs@.len() as int);
        }
        let ms: u64 = match leg.ms {
            Some(ms) => ms,
            None => 0,
        };
        at = at + ms as u128;
        i += 1;
    }
    rows
}

proof fn runs_only_grow(legs: Seq<Leg>, m: int, n: int)
    requires
        0 <= m <= n,
    ensures
        0 <= run_of(legs, m) <= run_of(legs, n),
    decreases n,
{
    if m < n {
        runs_only_grow(legs, m, n - 1);
    } else if m > 0 {
        runs_only_grow(legs, m - 1, m - 1);
    }
}

/// The legs leave no gap and no overlap: each starts where the one before it ended, and the last
/// of them ends where the trip does.
pub proof fn the_legs_lie_end_to_end(legs: Seq<Leg>, i: int)
    requires
        0 <= i < legs.len(),
    ensures
        run_of(legs, 0) == 0,
        run_of(legs, i) + took(legs[i]) == run_of(legs, i + 1),
        run_of(legs, i + 1) <= run_of(legs, legs.len() as int),
{
    runs_only_grow(legs, i + 1, legs.len() as int);
}

/// A reading in whole milliseconds.
pub open spec fn whole_ms(ms: nat) -> Seq<char> {
    digits(nearest_up(ms, MS as nat)) + " ms"@
}

/// A row's reading: its own time, or that there is none.
pub fn reading(r: &Placed) -> (s: String)
    ensures
        s@ == (match r.leg.ms {
            Some(ms) => whole_ms(ms as nat),
            None => "– ms"@,
        }),
{
    match r.leg.ms {
        Some(ms) => {
            let mut s = decimal(to_nearest_up(ms, MS));
            push_text(&mut s, " ms");
            s
        },
        None => "– ms".to_owned(),
    }
}

/// A signed percentage, to the nearest whole one, with its sign.
pub open spec fn signed_percent(more: int, of: nat) -> Seq<char> {
    if more >= 0 {
        "+"@ + digits(nearest_even((100 * more) as nat, of)) + "%"@
    } else {
        "-"@ + digits(nearest_even((-100 * more) as nat, of)) + "%"@
    }
}

/// What a row reads against, under its own reading.
pub open spec fn spec_against(against: Option<Against>) -> Seq<char> {
    match against {
        Some(Against::Baseline) => "baseline"@,
        Some(Against::By { more, of }) => signed_percent(more as int, of as nat),
        None => Seq::empty(),
    }
}

/// A comparison that can be written: against something, and not past what a percentage holds.
pub open spec fn comparable(against: Option<Against>) -> bool {
    against matches Some(Against::By { more, of }) ==> 0 < of
        < 0x1_0000_0000_0000_0000_0000_0000_0000 && -0x1_0000_0000_0000_0000_0000_0000_0000 < more
        < 0x1_0000_0000_0000_0000_0000_0000_0000
}

/// What a row reads against: nothing at all where there is nothing to compare it with.
pub fn against(r: &Placed) -> (s: String)
    requires
        comparable(r.leg.against),
    ensures
        s@ == spec_against(r.leg.against),
{
    match r.leg.against {
        Some(Against::Baseline) => "baseline".to_owned(),
        Some(Against::By { more, of }) => {
            let (sign, size): (&str, u128) = if more >= 0 {
                ("+", more as u128)
            } else {
                ("-", (-more) as u128)
            };
            let mut s = sign.to_owned();
            push_text(&mut s, &wide_decimal(ratio_nearest_even(100 * size, of)));
            push_text(&mut s, "%");
            s
        },
        None => {
            let s = String::new();
            assert(s@ =~= Seq::empty());
            s
        },
    }
}

/// Time the row saved, and only that: a leg shorter than the baseline's takes the colour a served
/// request wears everywhere else.
pub fn gain(r: &Placed) -> (s: String)
    ensures
        s@ == (if r.leg.against matches Some(Against::By { more, .. }) && more < 0 {
            spec_painted("color"@, Paint::Green)
        } else {
            Seq::empty()
        }),
{
    if let Some(Against::By { more, of: _ }) = r.leg.against {
        if more < 0 {
            return painted("color", Paint::Green);
        }
    }
    let s = String::new();
    assert(s@ =~= Seq::empty());
    s
}

/// What the total row reads.
pub fn total_reading(trip: u64) -> (s: String)
    ensures
        s@ == (if trip > 0 {
            whole_ms(trip as nat)
        } else {
            "– ms"@
        }),
{
    if trip > 0 {
        let mut s = decimal(to_nearest_up(trip, MS));
        push_text(&mut s, " ms");
        s
    } else {
        "– ms".to_owned()
    }
}

/// A stretch of the track: where it begins, how wide it is, and its colour.
pub open spec fn stretch(from: nat, wide: nat, axis: nat, ink: Paint) -> Seq<char> {
    "left:"@ + percent_text(from, axis) + ";width:"@ + percent_text(wide, axis) + ";"@
        + spec_painted("background"@, ink)
}

fn stretched(from: u128, wide: u128, axis: u128, ink: Paint) -> (s: String)
    requires
        0 < axis < 0x1_0000_0000_0000_0000_0000_0000_0000,
        from < 0x1_0000_0000_0000_0000_0000_0000_0000,
        wide < 0x1_0000_0000_0000_0000_0000_0000_0000,
    ensures
        s@ == stretch(from as nat, wide as nat, axis as nat, ink),
{
    let mut s = "left:".to_owned();
    push_text(&mut s, &percent(from, axis));
    push_text(&mut s, ";width:");
    push_text(&mut s, &percent(wide, axis));
    push_text(&mut s, ";");
    push_text(&mut s, &painted("background", ink));
    s
}

impl Placed {
    /// A row that can be drawn: on an axis, and no longer a trip than a percentage holds.
    pub open spec fn drawable(self) -> bool {
        &&& self.axis > 0
        &&& self.at < 0x1000_0000_0000_0000_0000_0000_0000
        &&& self.trip < 0x1000_0000_0000_0000_0000_0000_0000
    }
}

/// A phase's segment: where it began and how long it ran, both against the shared axis.
pub fn segment(r: &Placed) -> (s: String)
    requires
        r.drawable(),
    ensures
        s@ == stretch(r.at as nat, took(r.leg) as nat, r.axis as nat, r.leg.ink),
{
    let ms: u64 = match r.leg.ms {
        Some(ms) => ms,
        None => 0,
    };
    stretched(r.at, ms as u128, r.axis as u128, r.leg.ink)
}

/// Where a reading's give begins and ends: centred where the phase ends, and clamped to the track.
pub open spec fn give_span(at: int, ms: int, give: int, axis: int) -> (int, int) {
    (
        if at + ms > give {
            at + ms - give
        } else {
            0
        },
        if at + ms + give < axis {
            at + ms + give
        } else {
            axis
        },
    )
}

/// The reading's give, where it has any.
pub open spec fn spec_whisker(r: Placed) -> Seq<char> {
    match (r.leg.give, r.leg.ms) {
        (Some(give), Some(ms)) if give > 0 => {
            let (lo, hi) = give_span(r.at as int, ms as int, give as int, r.axis as int);
            stretch(
                lo as nat,
                if hi > lo {
                    (hi - lo) as nat
                } else {
                    0
                },
                r.axis as nat,
                r.leg.ink,
            )
        },
        _ => "display:none"@,
    }
}

/// The reading's give, as a hairline.
pub fn whisker(r: &Placed) -> (s: String)
    requires
        r.drawable(),
    ensures
        s@ == spec_whisker(*r),
{
    match (r.leg.give, r.leg.ms) {
        (Some(give), Some(ms)) => {
            if give == 0 {
                return "display:none".to_owned();
            }
            let end: u128 = r.at + ms as u128;
            let lo: u128 = if end > give as u128 {
                end - give as u128
            } else {
                0
            };
            let hi: u128 = if end + (give as u128) < r.axis as u128 {
                end + give as u128
            } else {
                r.axis as u128
            };
            let wide: u128 = if hi > lo {
                hi - lo
            } else {
                0
            };
            stretched(lo, wide, r.axis as u128, r.leg.ink)
        },
        _ => "display:none".to_owned(),
    }
}

/// A phase's share of the trip, inside the total bar.
pub fn share(r: &Placed) -> (s: String)
    requires
        r.drawable(),
    ensures
        s@ == "width:"@ + percent_text(
            took(r.leg) as nat,
            if r.trip > 0 {
                r.trip as nat
            } else {
                1
            },
        ) + ";"@ + spec_painted("background"@, r.leg.ink),
{
    let ms: u64 = match r.leg.ms {
        Some(ms) => ms,
        None => 0,
    };
    let trip: u128 = if r.trip > 0 {
        r.trip
    } else {
        1
    };
    let mut s = "width:".to_owned();
    push_text(&mut s, &percent(ms as u128, trip));
    push_text(&mut s, ";");
    push_text(&mut s, &painted("background", r.leg.ink));
    s
}

/// The total bar: the whole trip against the axis.
pub fn trip_bar(rows: &Vec<Placed>) -> (s: String)
    requires
        rows@.len() > 0 ==> rows@[0].drawable(),
    ensures
        s@ == (if rows@.len() > 0 {
            "width:"@ + percent_text(rows@[0].trip as nat, rows@[0].axis as nat)
        } else {
            "width:0"@
        }),
{
    if rows.len() == 0 {
        return "width:0".to_owned();
    }
    let mut s = "width:".to_owned();
    push_text(&mut s, &percent(rows[0].trip, rows[0].axis as u128));
    s
}

/// A leg that took nothing known takes no room; one that took a time takes that time.
pub proof fn a_leg_takes_its_time(leg: Leg)
    ensures
        leg.ms matches Some(ms) ==> took(leg) == ms,
        leg.ms is None ==> took(leg) == 0,
{
}

/// An axis is a millisecond at least.
pub proof fn an_axis_is_a_millisecond_at_least(axis: Ticks)
    ensures
        spec_axis(axis) >= 1_000_000_000,
        axis >= 1_000_000_000 ==> spec_axis(axis) == axis,
        axis < 1_000_000_000 ==> spec_axis(axis) == 1_000_000_000,
{
}

/// A whisker reaches its give either side of its leg's end, but not past either end of the axis.
pub proof fn a_whisker_reaches_its_give(at: int, ms: int, give: int, axis: int)
    requires
        0 <= at && 0 <= ms && 0 <= give,
        at + ms <= axis,
    ensures
        ({
            let (lo, hi) = give_span(at, ms, give, axis);
            &&& 0 <= lo <= at + ms <= hi <= axis
            &&& at + ms - give >= 0 ==> lo == at + ms - give
            &&& at + ms - give <= 0 ==> lo == 0
            &&& at + ms + give <= axis ==> hi == at + ms + give
            &&& at + ms + give >= axis ==> hi == axis
        }),
{
}

/// There is no whisker where there is no give or nothing to give of; and where there is, it is drawn
/// as wide as it reaches, in its leg's own colour.
pub proof fn a_whisker_is_as_wide_as_it_reaches(r: Placed)
    ensures
        r.leg.give is None || r.leg.give == Some(0u64) || r.leg.ms is None ==> spec_whisker(r)
            == "display:none"@,
        r.leg.give matches Some(give) && give > 0 && r.leg.ms is Some && r.at + r.leg.ms->0
            <= r.axis ==> {
            let (lo, hi) = give_span(
                r.at as int,
                r.leg.ms->0 as int,
                r.leg.give->0 as int,
                r.axis as int,
            );
            spec_whisker(r) == stretch(lo as nat, (hi - lo) as nat, r.axis as nat, r.leg.ink)
        },
{
}

/// What is more than the baseline reads with a plus and what is less with a minus, by the same
/// figure either way; as much as the baseline again is a hundred percent.
pub proof fn more_is_plus_and_less_is_minus(more: int, of: nat)
    requires
        of > 0,
        more > 0,
    ensures
        signed_percent(more, of)[0] == '+',
        signed_percent(-more, of)[0] == '-',
        signed_percent(more, of).skip(1) == signed_percent(-more, of).skip(1),
        signed_percent(of as int, of) == "+"@ + digits(100) + "%"@,
        signed_percent(0, of) == "+"@ + digits(0) + "%"@,
{
    reveal_strlit("+");
    reveal_strlit("-");
    let body = digits(nearest_even((100 * more) as nat, of)) + "%"@;
    assert(-100 * -more == 100 * more);
    assert(signed_percent(more, of).skip(1) =~= body);
    assert(signed_percent(-more, of).skip(1) =~= body);
    assert((100 * of) / of == 100 && (100 * of) % of == 0) by (nonlinear_arith)
        requires
            of > 0,
    ;
    assert(0nat / of == 0 && 0nat % of == 0) by (nonlinear_arith)
        requires
            of > 0,
    ;
    assert(nearest_even((100 * of) as nat, of) == 100);
    assert(nearest_even(0, of) == 0);
    assert((100 * (of as int)) as nat == 100 * of);
}

/// A time reads in whole milliseconds, to the nearest.
pub proof fn a_time_reads_in_whole_milliseconds(ms: nat)
    ensures
        exists|n: nat|
            whole_ms(ms) == #[trigger] digits(n) + " ms"@ && 2_000_000_000 * n <= 2 * ms
                + 1_000_000_000 && 2 * ms < 2_000_000_000 * n + 1_000_000_000,
{
    crate::text::a_rounding_is_the_nearest(ms, 1_000_000_000);
    let n = nearest_up(ms, 1_000_000_000);
    assert(whole_ms(ms) == digits(n) + " ms"@);
}

/// A column is read against the baseline, or is it, or is read against nothing.
pub proof fn a_column_reads_against_the_baseline(more: i128, of: u128)
    ensures
        spec_against(None).len() == 0,
        spec_against(Some(Against::Baseline)) == "baseline"@,
        spec_against(Some(Against::By { more, of })) == signed_percent(more as int, of as nat),
{
}

} // verus!
