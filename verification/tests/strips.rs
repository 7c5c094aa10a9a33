use std::collections::VecDeque;

use blog_app::atoms::strips::{mark_path, note, POINTS};

/// A mark scrolls with the samples it was dropped between and leaves with them.
#[test]
fn a_mark_rides_the_timeline_and_falls_off_its_end() {
    let mut marked = VecDeque::new();
    note(&mut marked, 10);
    note(&mut marked, 10);
    assert_eq!(marked.len(), 1, "a dragged slider is one change");
    let on_stage = mark_path(&marked, 20, 15);
    assert!(on_stage.contains("M "), "still on stage: {on_stage}");
    let gone = mark_path(&marked, 200, POINTS.min(120));
    assert_eq!(gone, "", "scrolled out with its history");
}

/// Where a mark is drawn is how far it stands behind the newest sample, whatever the count.
#[test]
fn a_path_moves_with_its_samples() {
    let early = VecDeque::from([5u64, 7]);
    let late = VecDeque::from([1_000_005u64, 1_000_007]);
    let drawn = mark_path(&early, 20, 20);
    assert_eq!(drawn, "M 25.2 0 V 26 M 35.3 0 V 26");
    assert_eq!(mark_path(&late, 1_000_020, 20), drawn);
    assert_eq!(mark_path(&early, 20, 12), "", "both are older than the samples kept");
}

/// More samples than fill the strip still have a place, past its edge.
#[test]
fn a_long_history_draws_past_the_strip() {
    let marked = VecDeque::from([150u64]);
    assert_eq!(mark_path(&marked, 200, 200), "M 756.3 0 V 26");
}
