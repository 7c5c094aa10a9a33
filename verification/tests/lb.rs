use std::collections::VecDeque;

use blog_app::atoms::lanes::Ink;
use blog_app::engine::{Outcome, MS};
use blog_app::lb::{
    axis_for, cut_sample, edges, every, fmt_life, launches, strip_rows, Desk, LbMsg, Leg, Rotation,
    Sample, Timeline, Trip, WireEvent, CUTS, SAMPLE, WINDOW,
};

fn steady(ms: u64) -> VecDeque<Trip> {
    (0..100)
        .map(|_| Trip {
            total: ms * MS,
            wait: ms * MS / 2,
        })
        .collect()
}

/// One window, both readings, five ordered cuts — a sample is a partition of nothing: just the
/// same trips read five ways, so the cuts cannot cross.
#[test]
fn a_sample_cuts_both_metrics_in_order() {
    let window: VecDeque<Trip> = (1..=200)
        .map(|i| Trip {
            total: i * MS,
            wait: i * MS / 2,
        })
        .collect();
    let s = cut_sample(&window);
    for w in s.total.windows(2) {
        assert!(w[0] <= w[1], "cuts in order: {:?}", s.total);
    }
    assert!(s.wait[4] <= s.total[4], "waiting is part of the trip");
}

/// The rows draw what the metric pill says from the same stored history.
#[test]
fn switching_metric_rereads_history() {
    let mut samples: VecDeque<Sample> = VecDeque::new();
    samples.push_back(cut_sample(&steady(100)));
    let total = strip_rows(&samples, 0, 200 * MS);
    let wait = strip_rows(&samples, 1, 200 * MS);
    assert_eq!(total[1].reading, "100 ms");
    assert_eq!(wait[1].reading, "50 ms");
    assert_ne!(
        total[1].points, wait[1].points,
        "the lines move with the reading"
    );
}

#[test]
fn the_cuts_are_the_nearest_ranks() {
    let window: VecDeque<Trip> = (0..=100)
        .rev()
        .map(|i| Trip {
            total: i * MS,
            wait: 0,
        })
        .collect();
    let s = cut_sample(&window);
    assert_eq!(s.total.len(), CUTS);
    for (row, &v) in s.total.iter().enumerate() {
        assert_eq!(s.of(0, row), v);
        assert_eq!(s.of(1, row), 0);
        assert_eq!(v % MS, 0);
    }
    assert_eq!(s.total[4], 99 * MS);
}

#[test]
fn the_axis_has_headroom_over_the_tallest() {
    let mut samples: VecDeque<Sample> = VecDeque::new();
    assert_eq!(axis_for(&samples, 0), MS * 105 / 100);
    samples.push_back(cut_sample(&steady(100)));
    samples.push_back(cut_sample(&steady(20)));
    assert_eq!(axis_for(&samples, 0), 105 * MS);
}

#[test]
fn rows_with_no_history_read_nothing() {
    let rows = strip_rows(&VecDeque::new(), 0, MS);
    assert_eq!(rows.len(), CUTS);
    for r in rows {
        assert_eq!(r.points, "");
        assert_eq!(r.reading, "– ms");
    }
}

#[test]
fn a_timeline_samples_when_it_is_due_and_has_anything_to_cut() {
    let mut t = Timeline::new();
    assert!(!t.sample(SAMPLE), "nothing to cut from");
    t.land(&steady(100), 40);
    assert_eq!(t.window.len(), 40, "only the ones just answered");
    assert!(t.sample(0), "it was due already");
    assert_eq!((t.sampled, t.samples.len(), t.since), (1, 1, 0));
    assert!(!t.sample(SAMPLE - 1));
    assert!(t.sample(1));
    for _ in 0..30 {
        let more = t.credited + 100;
        t.land(&steady(10), more);
    }
    assert_eq!(t.window.len(), WINDOW, "a full window forgets its oldest");
    let was = t.axis;
    t.show(1);
    assert_eq!(t.showing, 1);
    assert_ne!(t.axis, was);
}

#[test]
fn a_living_client_has_one_wire() {
    assert_eq!(
        edges(&vec![Some(2), None, Some(0)]),
        vec![(0, 2), (2, 0)]
    );
    assert_eq!(every(2, 3).len(), 6);
    assert_eq!(every(2, 2), vec![(0, 0), (0, 1), (1, 0), (1, 1)]);
    assert!(every(0, 3).is_empty());
}

#[test]
fn each_hop_gets_its_own_departures() {
    let (edge, hop) = launches(&vec![
        WireEvent {
            leg: Leg::Edge { client: 4, lb: 1 },
            homeward: false,
            outcome: None,
        },
        WireEvent {
            leg: Leg::Server {
                sender: 1,
                server: 7,
            },
            homeward: true,
            outcome: Some(Outcome::QueueTimeout),
        },
    ]);
    assert_eq!(edge.len(), 1);
    assert_eq!((edge[0].from, edge[0].to, edge[0].ink), (4, 1, Ink::Sent));
    assert_eq!(hop.len(), 1);
    assert_eq!((hop[0].from, hop[0].to), (1, 7));
    assert_eq!(hop[0].ink, Ink::Refusal);
    assert_eq!(fmt_life(1500), "1.5 s");
}

#[test]
fn the_desk_marks_what_changes_the_load() {
    let whole = Rotation {
        lbs: 5,
        servers: 10,
    };
    let mut desk = Desk::new(whole, vec![Some(0), None]);
    assert!(!desk.turn(LbMsg::Toggle) && desk.playing);
    assert!(desk.timeline.marked.is_empty());
    assert!(!desk.turn(LbMsg::Qps));
    assert!(desk.turn(LbMsg::Lbs(2)));
    assert!(desk.turn(LbMsg::Servers(4)));
    assert_eq!(desk.rotation, Rotation { lbs: 2, servers: 4 });
    assert_eq!(desk.timeline.marked.len(), 1, "all of one moment is one mark");
    assert!(!desk.turn(LbMsg::Speed) && desk.turn(LbMsg::Chip));
    assert!(!desk.turn(LbMsg::Metric(1)));
    assert_eq!(desk.timeline.showing, 1);
    assert!(!desk.rehome(vec![Some(0), None]));
    assert!(desk.rehome(vec![Some(0), Some(1)]));
    assert!(desk.rehome(vec![Some(0)]));
    assert!(desk.drawing(false, false));
    desk.turn(LbMsg::Toggle);
    assert!(!desk.drawing(false, false) && desk.drawing(false, true));
}
