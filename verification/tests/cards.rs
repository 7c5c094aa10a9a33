use std::collections::VecDeque;

use blog_app::autoscale::{
    queue_axis, steering, strip_rows, Arm, AutoscaleMsg, Decided, Desk, Sample, Steer, ONE, SAMPLE,
};
use blog_app::cluster::{Cluster, CLUSTER_SPEED, HEALTHY_RATE, SERVERS};
use blog_app::code_tabs::{group_of, shown, turn, CodeGroup, CodeTab, TabsMsg};
use blog_app::fan::{
    goes_on, load_colour, per_server, shed_flags, sticky_by, waiting_style, Batch, FanMsg,
    LoadColour,
};
use blog_app::fleet::{FleetAsk, FleetMsg, Zoom};
use blog_app::pace::Pace;

#[test]
fn an_arm_takes_the_rotation_its_scaler_wants() {
    let mut arm = Arm::new(Steer::Queue);
    let moved = arm.frame(16_000, 5, 300_000, 0);
    assert!(moved.rotation && !moved.sample);
    assert_eq!(arm.rotation, 5);
    let moved = arm.frame(SAMPLE - 16_000, 5, 300_000, 7 * ONE);
    assert!(!moved.rotation && moved.sample);
    assert_eq!(arm.samples.len(), 1);
    assert_eq!(arm.samples[0].machines, 5 * ONE);
    assert_eq!(arm.busy(&vec![1, 2, 3, 4, 5, 6]), 15, "only those in rotation");
    for _ in 0..200 {
        arm.frame(SAMPLE, 5, 0, 0);
    }
    assert_eq!(arm.samples.len(), 120, "the history is a window");
}

#[test]
fn the_queue_row_grows_only_when_it_has_to() {
    let at = |signal: u64| Sample {
        arrivals: 0,
        machines: 0,
        signal,
    };
    let calm: VecDeque<Sample> = [at(ONE)].into();
    assert_eq!(queue_axis(&calm), queue_axis(&VecDeque::new()));
    let worse: VecDeque<Sample> = [at(90 * ONE), at(ONE)].into();
    assert!(queue_axis(&worse) >= 90 * ONE);
    let rows = strip_rows(&worse, Steer::Cpu);
    assert_eq!(rows.len(), strip_rows(&worse, Steer::Queue).len());
    assert_eq!(rows.last().unwrap().reading, "1%");
    assert_eq!(
        steering(Steer::Queue, 95_400, 90_000),
        "clear · 95% of 90%"
    );
    assert_eq!(steering(Steer::Cpu, 500, 75_000), "cpu · 0% of 75%");
}

#[test]
fn the_scaler_out_of_sight_goes_on_running() {
    let mut desk = Desk::new(300_000);
    let (five, three) = (
        Decided { want: 5, signal: 1 },
        Decided { want: 3, signal: 2 },
    );
    let moved = desk.frame(SAMPLE, five, three);
    assert!(moved.rotation && moved.sample);
    assert_eq!(desk.arms[1].samples.len(), 1);
    assert_eq!(desk.sampled, 1);
    assert!(!desk.turn(AutoscaleMsg::Qps(400_000)));
    assert!(!desk.turn(AutoscaleMsg::Qps(500_000)));
    assert_eq!((desk.arrivals, desk.marked.len()), (500_000, 1));
    assert!(!desk.turn(AutoscaleMsg::Steer(7)), "no such scaler");
    assert!(desk.turn(AutoscaleMsg::Steer(1)));
    assert_eq!(desk.at, 1);
    assert!(!desk.frame(SAMPLE, five, three).rotation);
    assert!(!desk.turn(AutoscaleMsg::Toggle) && desk.playing);
}

#[test]
fn a_batch_is_wired_to_where_it_stuck() {
    let assignment = vec![0, 3, 3, 9];
    assert_eq!(per_server(&assignment)[3], 2);
    assert_eq!(per_server(&assignment).iter().sum::<usize>(), 4);
    let retried = vec![0, 0, 0, 5, 0, 0, 0, 0, 0, 0];
    let shed = shed_flags(&assignment, &retried);
    assert_eq!(shed, vec![false, true, true, false]);
    assert_eq!(sticky_by(&assignment, &shed, true), vec![(1, 3), (2, 3)]);
    assert_eq!(sticky_by(&assignment, &shed, false), vec![(0, 0), (3, 9)]);
    assert_eq!(sticky_by(&assignment, &Vec::new(), true), vec![]);
    assert_eq!(load_colour(0), LoadColour::Resting);
    assert_eq!(load_colour(1), LoadColour::Resting);
    assert_eq!(load_colour(2), LoadColour::Two);
    assert_eq!(load_colour(3), LoadColour::Three);
    assert_eq!(load_colour(8), LoadColour::Piled);
    assert_eq!(waiting_style(0), "");
    assert_eq!(waiting_style(2), "background:var(--stage-orange)");
    assert!(goes_on(true, true) && goes_on(false, false) && !goes_on(true, false));
}

#[test]
fn a_second_send_is_a_fresh_batch() {
    let mut batch = Batch::new();
    batch.turn(FanMsg::Stage);
    assert!(!batch.running);
    batch.turn(FanMsg::Send);
    assert!(batch.running);
    let mut shed = vec![false; 10];
    assert!(!batch.frame(shed.clone(), false, true));
    shed[4] = true;
    assert!(batch.frame(shed.clone(), false, true));
    assert!(!batch.frame(shed.clone(), true, true) && batch.running);
    batch.frame(shed, true, false);
    assert!(!batch.running, "settled and decayed");
    batch.turn(FanMsg::Send);
    assert!(batch.running && batch.shed.iter().all(|s| !s));
}

#[test]
fn a_frame_is_spent_in_whole_steps() {
    let mut pace = Pace::new();
    assert_eq!(pace.frame(16_000), 0);
    assert_eq!(pace.frame(16_000), 0);
    assert_eq!(pace.frame(16_000), 1, "three sixteens are a thirty-third and a bit");
    assert_eq!(pace.frame(0), 0);
    assert_eq!(pace.frame(-5), 0);
    assert_eq!(pace.frame(60_000_000), 3, "a long freeze is not caught up on");
}

#[test]
fn the_reader_drills_in_and_climbs_out() {
    let mut zoom = Zoom::new();
    assert!(zoom.invited && !zoom.running);
    assert_eq!(zoom.turn(FleetMsg::Tick(40_000)), FleetAsk::Steps(1));
    assert_eq!(zoom.turn(FleetMsg::Qps(90_000)), FleetAsk::Retune(0, 90_000));
    assert!(zoom.rates[1..].iter().all(|&r| r == HEALTHY_RATE), "and nobody else's");
    assert_eq!(zoom.turn(FleetMsg::Up), FleetAsk::Nothing);
    assert!(!zoom.invited);
    assert_eq!(zoom.turn(FleetMsg::Tick(40_000)), FleetAsk::Whole);
    assert_eq!(zoom.turn(FleetMsg::Qps(1)), FleetAsk::Nothing);
    let shown = zoom.turn(FleetMsg::Focus(0));
    assert_eq!(shown, FleetAsk::Show(90_000), "the knob shows what it runs");
    assert_eq!(zoom.turn(FleetMsg::Focus(4)), FleetAsk::Show(HEALTHY_RATE));
    let restarts = zoom.restarts;
    zoom.turn(FleetMsg::Resize);
    assert_eq!(zoom.restarts, restarts + 1);
    zoom.turn(FleetMsg::Start);
    zoom.turn(FleetMsg::Start);
    assert!(zoom.running);
    zoom.turn(FleetMsg::Toggle);
    assert!(!zoom.running);
}

#[test]
fn a_cluster_opens_level_and_is_moved_one_at_a_time() {
    let mut cluster = Cluster::new();
    assert_eq!(cluster.fleet_counts().len(), SERVERS);
    assert!(cluster.fleet_counts().iter().all(|c| c.untouched()));
    assert!(cluster.servers.iter().all(|s| s.speed == CLUSTER_SPEED && s.at == 0));
    assert!(!cluster.set_qps(2, 80_000), "it was never silent");
    assert_eq!(cluster.servers[2].arrivals.rate, 80_000);
    assert_eq!(cluster.servers[3].arrivals.rate, HEALTHY_RATE);
    assert!(!cluster.set_qps(2, 0));
    assert!(cluster.set_qps(2, 10), "back from silence");
    assert!(!cluster.set_qps(SERVERS, 10), "no such server");
    let seeds: Vec<u64> = cluster.servers.iter().map(|s| s.rng.state).collect();
    for (i, s) in seeds.iter().enumerate() {
        assert!(!seeds[..i].contains(s));
    }
}

#[test]
fn a_marker_names_its_group() {
    let tab = |code: &str| CodeTab {
        label: "t".to_string(),
        code: code.to_string(),
    };
    let groups = vec![
        CodeGroup {
            id: "empty".to_string(),
            tabs: vec![],
        },
        CodeGroup {
            id: "two".to_string(),
            tabs: vec![tab("a"), tab("b")],
        },
    ];
    assert_eq!(shown(&groups, "two", 1), "b");
    assert_eq!(shown(&groups, "two", 9), "b", "past the last is the last");
    assert_eq!(shown(&groups, "empty", 0), "");
    assert_eq!(shown(&groups, "none", 0), "");
    assert!(group_of(&groups, "two").is_some() && group_of(&groups, "tw").is_none());
    assert_eq!(turn(0, TabsMsg::Pick(1)), 1);
}
