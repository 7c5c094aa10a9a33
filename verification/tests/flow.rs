use std::collections::VecDeque;

use blog_app::atoms::cut::PhaseRow;
use blog_app::atoms::lanes::Ink;
use blog_app::atoms::stage::Paint;
use blog_app::atoms::waterfall::Against;
use blog_app::engine::{Outcome, Part, Ticks, MS};
use blog_app::flow::band::{band, cut, place, Band, Felt, PHASE_COUNT};
use blog_app::flow::card::{crowd, launch_ink, step, Card, FlowMsg, RECUT};
use blog_app::flow::columns::{
    cast, columns_of, column_of, fmt_pool, follow, notes_for, phone_note_for, stands, toward,
    Earned, Policy, Shown, Shows, Trip, BASELINE, COLUMN_SAMPLE, PICK2,
};
use blog_app::flow::give::give_of;

/// One frame of virtual time, as the card is driven.
const FRAME_MS: f64 = 16.0;

/// What a frame leaves of the gap to a reading, as a share of a billion.
fn eased(frame_ms: f64) -> Part {
    let share = 1.0 - (-frame_ms / 250.0f64).exp();
    Part {
        done: (share * 1e9) as u64,
        of: 1_000_000_000,
    }
}

/// A trip of `ms`, spread over the phases so that no two of them hold the same number — a mean
/// that mixed one phase into another would read as a different trip rather than as the same one.
fn trip(ms: u64) -> Felt {
    let phases = [ms * MS, 2 * ms * MS, 3 * ms * MS, 4 * ms * MS];
    Felt {
        total: phases.iter().sum(),
        phases,
    }
}

/// A hundred and one trips, one at each percentile of a scale that runs 0 to 100 — so the rank
/// a dial names is the number it names.
fn ranked() -> VecDeque<Felt> {
    (0..=100).map(trip).collect()
}

/// A reading's trip, in whole milliseconds.
fn mean_ms(b: &Band) -> u64 {
    (b.mean.total as f64 / b.mean.trips as f64 / MS as f64).round() as u64
}

fn total_ms(f: Felt) -> u64 {
    f.total / MS
}

#[test]
fn a_reading_is_the_mean_of_the_band_around_the_dial() {
    let reading = band(&ranked(), 50).expect("a hundred trips is a reading");
    assert_eq!(
        mean_ms(&reading),
        total_ms(trip(50)),
        "p45 to p55 of a straight ranking averages to the trip at p50"
    );
}

#[test]
fn a_band_at_the_end_of_the_scale_is_clamped_and_not_slid() {
    let top = band(&ranked(), 99).expect("a hundred trips is a reading");
    assert_eq!(
        mean_ms(&top),
        total_ms(trip(97)),
        "p99 reads p94 to p100"
    );
    let bottom = band(&ranked(), 1).expect("a hundred trips is a reading");
    assert_eq!(
        mean_ms(&bottom),
        total_ms(trip(3)),
        "and p1 reads p0 to p6"
    );
}

#[test]
fn the_phases_of_a_band_still_add_up_to_its_trip() {
    let reading = band(&ranked(), 90).expect("a hundred trips is a reading");
    let phases: u128 = reading.mean.phases.iter().sum();
    assert_eq!(
        phases, reading.mean.total,
        "one set of trips, so the parts are still the whole"
    );
}

/// The give of each phase of a reading.
fn gives(b: &Band) -> Vec<Ticks> {
    (0..PHASE_COUNT).map(|p| give_of(&b.runs, p)).collect()
}

/// Runs of a steady window agree with each other, so its reading carries no give — a whisker on
/// a number that is not in doubt would be noise about noise.
#[test]
fn a_steady_window_has_no_give() {
    let steady: VecDeque<Felt> = (0..800).map(|_| trip(50)).collect();
    let reading = band(&steady, 90).expect("a full window is a reading");
    assert!(gives(&reading).iter().all(|&g| g == 0), "no spread between runs");
}

/// A window still drifting disagrees with itself run to run, and the give says so — the honest
/// sign that the number on the row is not yet a number.
#[test]
fn a_drifting_window_carries_give() {
    let drifting: VecDeque<Felt> = (0..800).map(trip).collect();
    let reading = band(&drifting, 50).expect("a full window is a reading");
    assert!(gives(&reading).iter().any(|&g| g > 0), "runs of a ramp disagree");
    // Eight means a hundred apart: the standard error of each is the root of 7500.
    assert_eq!(gives(&reading)[0], 86_602_540_378);
    assert_eq!(gives(&reading)[1], 173_205_080_756);
}

/// A window too short to split into two runs has no spread to read: the reading stands, with no
/// give rather than a false certainty of zero drawn as a dot.
#[test]
fn a_window_of_one_run_carries_no_give() {
    let brief: VecDeque<Felt> = [trip(10)].into();
    let reading = band(&brief, 50).expect("one trip is still a reading");
    assert!(gives(&reading).iter().all(|&g| g == 0));
}

fn record(policy: Policy) -> Trip {
    Trip {
        policy: Some(policy),
        felt: Felt {
            total: 10 * MS,
            phases: [0, 0, 0, 10 * MS],
        },
    }
}

fn lens(earned: &Earned) -> Vec<usize> {
    (0..3).map(|i| earned.column(i).len()).collect()
}

/// A trip is credited to the column of the policy that *sent* it. Switching leaves trips in the
/// air, and each lands in the column that chose its machine — never the one the pill happens to
/// be showing when it comes home.
#[test]
fn a_trip_lands_in_the_column_of_the_policy_that_sent_it() {
    let mut earned = Earned::new();
    let records: VecDeque<Trip> = [
        record(Policy::AlwaysRandom),
        record(Policy::PowerOfTwoVirtual),
    ]
    .into();
    assert!(
        earned.credit(Shows::Policies, &records, 2),
        "first readings turn notes into bars"
    );
    assert_eq!(lens(&earned), vec![1, 0, 1], "each lands in its own column");
    assert!(
        !earned.credit(Shows::Policies, &records, 0),
        "a frame with no landings fills nothing"
    );
}

/// The two cards share labels and differ in one policy: the pool card's pick-2 is the paid one,
/// so a record it stamps lands in the pool card's third column and not the policy card's.
#[test]
fn the_pool_cast_swaps_only_the_paid_pick_two() {
    let pool = cast(Shows::Pool);
    assert_eq!(pool[PICK2].1, Policy::PowerOfTwo);
    assert_eq!(cast(Shows::Policies)[PICK2].1, Policy::PowerOfTwoVirtual);
    assert_eq!(pool[BASELINE].1, Policy::AlwaysRandom);

    let mut earned = Earned::new();
    let records: VecDeque<Trip> = [record(Policy::PowerOfTwo)].into();
    assert!(
        earned.credit(Shows::Pool, &records, 1),
        "the paid pick-2 fills its column"
    );
    assert_eq!(earned.column(PICK2).len(), 1);
}

/// A column's window is a window: full, it forgets its oldest trip for each new one, so a column
/// left running forever costs what a full one does.
#[test]
fn a_full_column_forgets_its_oldest_trip() {
    let mut earned = Earned::new();
    let records: VecDeque<Trip> = (0..COLUMN_SAMPLE + 3)
        .map(|_| record(Policy::AlwaysRandom))
        .collect();
    earned.credit(Shows::Policies, &records, records.len());
    assert_eq!(earned.column(0).len(), COLUMN_SAMPLE);
}

/// A trip as a reading, certain of itself — what the ease tests move around.
fn steady(felt: Felt) -> Shown {
    Shown {
        total: felt.total,
        phases: felt.phases.to_vec(),
        give: vec![0; PHASE_COUNT],
    }
}

#[test]
fn a_column_with_nothing_shown_takes_its_reading_whole() {
    let shown = follow(&None, &steady(trip(40)), &eased(FRAME_MS));
    assert_eq!(
        shown.total,
        trip(40).total,
        "a first bar has nowhere to ease from"
    );
}

#[test]
fn a_second_of_frames_settles_a_bar_on_its_reading() {
    let mut shown = Some(steady(trip(0)));
    let fresh = trip(100);
    for _ in 0..(1000.0 / FRAME_MS) as usize {
        shown = Some(follow(&shown, &steady(trip(100)), &eased(FRAME_MS)));
    }
    let settled = shown.expect("a bar that was shown is shown still").total;
    let left = 1.0 - settled as f64 / fresh.total as f64;
    assert!(
        left < 0.02,
        "a second of frames leaves {:.1}% of the gap",
        left * 100.0
    );
}

#[test]
fn a_percentile_names_the_nearest_place() {
    assert_eq!(place(0, 100), 0);
    assert_eq!(place(50, 100), 50);
    assert_eq!(place(100, 7), 7);
    assert_eq!(place(50, 1), 1, "a tie goes up");
    assert_eq!(place(49, 1), 0);
}

#[test]
fn a_cut_of_nothing_is_no_reading() {
    let window: Vec<Felt> = (0..10).map(trip).collect();
    assert!(cut(&window, 3, 3, 50).is_none());
    let part = cut(&window, 0, 10, 0).expect("ten trips is a reading");
    assert_eq!(part.trips, 1, "p0 to p5 of ten is the first of them");
    assert!(band(&VecDeque::new(), 50).is_none());
}

#[test]
fn a_step_stops_short_of_where_it_heads() {
    let half = Part { done: 1, of: 2 };
    assert_eq!(toward(100, 200, &half), 150);
    assert_eq!(toward(200, 100, &half), 150);
    assert_eq!(toward(7, 7, &half), 7);
    assert_eq!(toward(3, 9, &Part { done: 5, of: 5 }), 9);
}

#[test]
fn a_trip_nobody_chose_lands_nowhere() {
    assert_eq!(column_of(Shows::Policies, None), None);
    assert_eq!(column_of(Shows::Policies, Some(Policy::PowerOfTwo)), None);
    assert_eq!(
        column_of(Shows::Policies, Some(Policy::RepickOnQueueTimeout)),
        Some(1)
    );
}

#[test]
fn one_column_says_what_to_do_next() {
    let mut earned = Earned::new();
    let rest = notes_for(&earned, BASELINE, false, Shows::Policies);
    assert_eq!(rest[BASELINE], "Press \"Run\"");
    assert_ne!(rest[PICK2], rest[BASELINE]);
    let running = notes_for(&earned, BASELINE, true, Shows::Policies);
    assert_eq!(running[BASELINE], "");
    let records: VecDeque<Trip> = [record(Policy::AlwaysRandom)].into();
    earned.credit(Shows::Policies, &records, 1);
    let filled = notes_for(&earned, BASELINE, true, Shows::Policies);
    assert_eq!(filled[BASELINE], "");
    assert!(filled[1].starts_with("Select \""), "the leftmost empty one speaks");
    assert_eq!(filled[PICK2], "");
    assert_eq!(phone_note_for(true, true), "");
}

#[test]
fn a_column_is_read_against_the_first() {
    assert_eq!(stands(BASELINE, 5, Some(7)), Some(Against::Baseline));
    assert_eq!(
        stands(PICK2, 30, Some(40)),
        Some(Against::By { more: -10, of: 40 })
    );
    assert_eq!(stands(PICK2, 30, Some(0)), None);
    assert_eq!(stands(PICK2, 30, None), None);
}

fn rows() -> Vec<PhaseRow> {
    (0..4)
        .map(|i| PhaseRow {
            label: ["network", "queue", "ready", "work"][i],
            ink: Paint::Blue,
            waiting: i == 1 || i == 2,
        })
        .collect()
}

#[test]
fn only_a_column_with_a_reading_has_legs() {
    let shown = vec![Some(steady(trip(10))), None, Some(steady(trip(20)))];
    let columns = columns_of(&shown, &rows());
    let first = columns[0].as_ref().expect("a reading is drawn");
    assert_eq!(first.len(), 4);
    assert_eq!(first[2].ms, Some(30 * MS));
    assert!(columns[1].is_none());
    assert!(columns[2].is_some());
}

#[test]
fn the_card_cuts_its_readings_when_they_are_due() {
    let mut card = Card::new(Shows::Policies);
    assert!(card.recut(0), "the first reading is owed at once");
    assert!(!card.recut(16_000));
    assert!(!card.turn(FlowMsg::Toggle));
    assert!(card.playing && card.drawing(false));
    card.turn(FlowMsg::Toggle);
    assert!(!card.drawing(false) && card.drawing(true));
    let trips: VecDeque<Trip> = [record(Policy::AlwaysRandom), record(Policy::AlwaysRandom)].into();
    assert!(card.land(&trips, 2));
    assert!(!card.land(&trips, 2), "the same tally lands nothing again");
    let mut frames = 1;
    while !card.recut(32_000) {
        frames += 1;
    }
    assert_eq!(frames, RECUT.div_ceil(32_000) as usize);
    assert_eq!(card.wants, Some(10_500_000_000), "the slowest trip, with headroom");
    card.turn(FlowMsg::Cut(50));
    assert_eq!(card.stands_at, 50);
    assert_eq!(card.shown[0].as_ref().map(|s| s.total), Some(10 * MS));
    assert!(card.heading[1].is_none() && card.shown[1].is_none());
    assert!(card.turn(FlowMsg::Pool), "another pool is other wires");
    assert_eq!(card.earned.column(0).len(), 2);
    assert!(card.turn(FlowMsg::Stage) && card.turn(FlowMsg::Dot(3)) && card.turn(FlowMsg::Server(1)));
    card.turn(FlowMsg::Qps);
    assert_eq!(card.earned.column(0).len(), 0);
    assert!(card.shown.iter().all(|s| s.is_none()) && card.wants.is_none());
    card.turn(FlowMsg::Policy(PICK2));
    assert_eq!(card.chosen, PICK2);
}

#[test]
fn a_card_eases_its_columns_and_its_axis() {
    let half = Part { done: 1, of: 2 };
    let mut card = Card::new(Shows::Policies);
    let trips: VecDeque<Trip> = [record(Policy::AlwaysRandom)].into();
    card.land(&trips, 1);
    assert!(card.recut(0));
    card.ease(&half);
    assert_eq!(card.shown[0].as_ref().map(|s| s.total), Some(10 * MS), "whole at first");
    assert_eq!(card.axis, Some(10_500_000_000));
    let slow = Trip {
        policy: Some(Policy::AlwaysRandom),
        felt: Felt { total: 30 * MS, phases: [0, 0, 0, 30 * MS] },
    };
    let trips: VecDeque<Trip> = [slow].into();
    card.land(&trips, 2);
    card.turn(FlowMsg::Cut(100));
    assert_eq!(card.shown[0].as_ref().map(|s| s.total), Some(30 * MS), "the dial takes it whole");
    while !card.recut(32_000) {}
    card.ease(&half);
    assert_eq!(card.axis, Some((10_500_000_000 + 31_500_000_000) / 2), "half of the way");
    assert!(card.shown[1].is_none() && card.shown[2].is_none());
}

#[test]
fn a_frame_is_never_longer_than_the_most() {
    assert_eq!(step(16_000, true), 16_000);
    assert_eq!(step(5_000_000, true), 32_000);
    assert_eq!(step(16_000, false), 0);
    assert_eq!(crowd(Shows::Pool), 20);
    assert_eq!(crowd(Shows::Loop), 100);
}

#[test]
fn a_departure_travels_in_what_became_of_it() {
    assert_eq!(launch_ink(false, None), Ink::Sent);
    assert_eq!(launch_ink(true, Some(Outcome::Success)), Ink::Answer);
    assert_eq!(launch_ink(true, Some(Outcome::Rejected)), Ink::Refusal);
    assert_eq!(launch_ink(true, None), Ink::Answer);
}

#[test]
fn a_columns_axis_reaches_its_slowest_trip() {
    let mut earned = Earned::new();
    assert!(earned.slowest().is_none());
    let slow: Ticks = 90 * MS;
    let trips: VecDeque<Trip> = [Trip {
        policy: Some(Policy::AlwaysRandom),
        felt: Felt {
            total: slow,
            phases: [0, slow, 0, 0],
        },
    }]
    .into();
    earned.credit(Shows::Policies, &trips, 1);
    assert_eq!(earned.slowest(), Some(slow));
    earned.clear(0);
    assert!(earned.slowest().is_none());
    assert_eq!(fmt_pool(3, 10), "3 of 10");
}
