use std::collections::VecDeque;

use blog_app::atoms::stage::Paint;
use blog_app::atoms::tenant_stage::Measured;
use blog_app::blame::controls::{Controls, Record, Traffic, ORIENT};
use blog_app::blame::desk::{BlameAsk, BlameMsg, Desk, OPENING};
use blog_app::blame::frame::{Band, Cell, Meter, Row, Total, TRACK};
use blog_app::blame::panel::{Echo, Panel, GHOST_FADE, WINDOW};
use blog_app::blame::seats::{holds, Seats, LANES};
use blog_app::blame::styles::{
    band_style, bar_style, cell_style, fill_style, label_style, line_style, meter_style,
    processing_style, queued_style, row_opacity, swatch_style, total_swatch,
};
use blog_app::blame::tracks::{Landed, Track};
use blog_app::engine::machine::{SimEngine, ENGINE_SEED};
use blog_app::engine::obs::Obs;
use blog_app::engine::request::tenants;
use blog_app::engine::sim::{Hop, Station};
use blog_app::engine::spans::BlameSpan;
use blog_app::engine::stack::Billing;
use blog_app::engine::{Outcome, Part, MS};

const STEP: u64 = 33_333;

/// The ghost fade is the reader's, not the machine's: paced by the wall clock, so it reads the
/// same at every speed.
#[test]
fn the_ghost_fade_is_paced_by_the_wall_clock_not_the_speed_knob() {
    // Half the fade's worth of real frames, at whatever the speed knob is on.
    let half_faded = |speed: u64| {
        let mut panel = Panel::new();
        panel.ghosts.push_back(Echo {
            tenant: Some(0),
            pos: 0,
            n: 1,
            out: 0,
            born: 0,
        });
        for _ in 0..GHOST_FADE / 2 / STEP {
            panel.tick_real(STEP as i64);
            panel.t += STEP * speed;
        }
        let cell = panel.build().cells.first().copied()?;
        let style = cell_style(&cell);
        let from = style.find("opacity:")? + "opacity:".len();
        style[from..from + 5].parse::<f64>().ok()
    };
    let (crawling, racing) = (half_faded(10_000), half_faded(3_000_000));
    assert_eq!(crawling, racing, "the fade ignores the speed knob entirely");
    let o = crawling.expect("the ghost is still on screen half way through its fade");
    assert!(
        (o - 0.425).abs() < 0.03,
        "half the fade is half the opacity: {o}"
    );
}

fn span(id: u32, from: u64, to: u64, pos: usize, n: usize, accrual: u64) -> BlameSpan {
    BlameSpan {
        id,
        t_a: from * MS,
        t_b: to * MS,
        pos,
        n,
        accrual,
    }
}

fn landed(id: u32) -> Landed {
    Landed {
        id,
        at: 0,
        tenant: Some(1),
    }
}

#[test]
fn a_track_keeps_the_bill_of_cells_it_has_scrolled_past() {
    let mut track = Track::open(&landed(7), &span(7, 5, 10, 0, 2, 3 * MS));
    track.charge(&span(7, 5, 10, 0, 2, 3 * MS));
    track.charge(&span(7, 10, 20, 0, 2, 4 * MS));
    track.charge(&span(7, 20, 30, 1, 3, 0));
    assert_eq!(track.cells.len(), 2, "a span that continues one extends it");
    assert_eq!(track.owed, 7 * MS);
    assert_eq!((track.at, track.since, track.out), (0, 5 * MS, None));
    let now = 21 * MS + WINDOW;
    track.window(now, WINDOW);
    assert_eq!(track.cells.len(), 1);
    assert_eq!(track.owed, 7 * MS, "what is billed stays billed");
}

#[test]
fn seats_are_kept_while_they_are_held() {
    let mut seats = Seats::new();
    assert_eq!(seats.lanes.len(), LANES);
    assert!(seats.recycle(&vec![4, 9]).is_empty());
    let at = |s: &Seats, id: u32| s.lanes.iter().position(|l| *l == Some(id));
    let (four, nine) = (at(&seats, 4).unwrap(), at(&seats, 9).unwrap());
    assert_eq!(seats.recycle(&vec![9, 11]), vec![4], "one left");
    assert_eq!(at(&seats, 9), Some(nine), "and the other stayed put");
    assert!(at(&seats, 11).is_some() && at(&seats, 4).is_none());
    assert_ne!(four, nine);
    let crowd: Vec<u32> = (0..20).collect();
    seats.recycle(&crowd);
    assert_eq!(seats.lanes.iter().flatten().count(), LANES, "a full block is full");
    assert!(holds(&crowd, 3) && !holds(&crowd, 20));
}

#[test]
fn the_panel_asks_for_one_thing_at_a_time() {
    let mut c = Controls::new();
    assert!(c.untouched && !c.invited, "the switch is what it opens on");
    c.tick(ORIENT);
    assert!(!c.offered, "not while the switch's invitation stands");
    c.breakdown();
    assert!(c.by_tenant && !c.untouched && !c.invited);
    c.tick(ORIENT - 1);
    assert!(!c.offered, "nor before the reader has had time to look");
    c.tick(ORIENT);
    assert!(c.offered && c.invited);
    c.speed(10, 30);
    assert!(c.invited, "a slower move does not take it");
    c.speed(40, 30);
    assert!(!c.invited && c.taken);
    c.toggle();
    c.show(1);
    assert_eq!(c.view, 1);
}

#[test]
fn a_summary_is_cut_when_it_is_due() {
    let mut c = Controls::new();
    assert!(c.summary_due(0, 100), "the first is due at once");
    assert!(!c.summary_due(99, 100));
    assert!(c.summary_due(100, 100));
    c.reset();
    assert!(c.summary_due(0, 100), "and a fresh machine owes one again");
}

#[test]
fn traffic_is_read_off_the_outcomes() {
    let names = tenants();
    let of = |outcomes: &[(usize, Outcome)]| {
        let done: VecDeque<Record> = outcomes
            .iter()
            .map(|&(k, outcome)| Record {
                tenant: names[k].id,
                outcome,
            })
            .collect();
        Traffic::of_each(&done)
    };
    assert_eq!(of(&[]), vec![Traffic::Served; 3]);
    let mixed = of(&[
        (0, Outcome::Success),
        (1, Outcome::QueueTimeout),
        (1, Outcome::QueueTimeout),
        (1, Outcome::Success),
    ]);
    assert_eq!(mixed[0], Traffic::Served);
    assert_eq!(mixed[1], Traffic::Shed);
    assert_eq!(mixed[2], Traffic::Served);
}

/// A frame in which one request lands, is admitted, and is billed.
fn one_request() -> Panel {
    let mut panel = Panel::new();
    panel.land(3, 810 * MS, Some(2));
    let mut obs = Obs::default();
    obs.t = 900 * MS;
    obs.blame.shut = vec![(840 * MS, 860 * MS)];
    obs.blame.spans = vec![span(3, 820, 860, 0, 1, 20 * MS)];
    obs.blame.occupiers = vec![3];
    obs.blame.inflight = 1;
    panel.absorb(&obs);
    panel
}

#[test]
fn a_live_request_is_drawn_from_where_it_landed() {
    let mut panel = one_request();
    let frame = panel.build();
    assert_eq!(frame.bands.len(), 1);
    assert_eq!(frame.cells.len(), 1);
    let row = &frame.rows[0];
    assert_eq!((row.key, row.finished, row.showing), (3, false, true));
    assert_eq!(row.paint, tenants()[2].tint);
    assert_eq!(row.label, "", "it has not cleared now yet");
    assert_eq!(frame.meters.iter().filter(|m| m.taken).count(), 1);
    let taken = frame.meters.iter().find(|m| m.taken).unwrap();
    assert_eq!(taken.accrued, "20,000");
    assert_eq!(taken.name, format!("#3 {}", tenants()[2].id));
    let free = frame.meters.iter().find(|m| !m.taken).unwrap();
    assert_eq!((free.name.as_str(), free.accrued.as_str()), ("free lane", "—"));
}

#[test]
fn a_departure_leaves_an_echo_and_a_reading() {
    let mut panel = one_request();
    let mut obs = Obs::default();
    obs.t = 950 * MS;
    obs.departures = vec![(3, Outcome::Success)];
    panel.absorb(&obs);
    panel.bank(&vec![(tenants()[2].id, 1_234_567 * MS / 1000)]);
    assert_eq!(panel.fares[2], 1_234_567 * MS / 1000);
    let mut later = Obs::default();
    later.t = 1500 * MS;
    panel.absorb(&later);
    let frame = panel.build();
    let row = &frame.rows[0];
    assert!(row.finished);
    assert!(
        row.label.ends_with(" µs blame)") && row.label.contains(" ms queue + "),
        "{}",
        row.label
    );
    assert_eq!(frame.totals[2].total, "1,234,567 µs");
}

#[test]
fn what_is_drawn_carries_its_place() {
    let band = Band {
        key: 0,
        x: TRACK / 4,
        w: TRACK / 1000,
    };
    assert_eq!(band_style(&band), "left:25.000%;width:0.100%");
    let mut cell = Cell {
        key: 1,
        paint: Paint::Teal,
        solid: false,
        fade: None,
        x: 0,
        w: TRACK / 2,
        pos: 1,
        n: 3,
    };
    assert_eq!(
        cell_style(&cell),
        "background:var(--stage-teal);opacity:0.200;left:0.000%;width:50.000%;top:9.33px;height:9.33px"
    );
    cell.solid = true;
    cell.fade = Some(Part { done: 1, of: 2 });
    cell.n = 1;
    cell.pos = 0;
    assert_eq!(
        cell_style(&cell),
        "background:var(--stage-teal);opacity:0.425;left:0.000%;width:50.000%;top:0.00px;height:21.00px"
    );
}

#[test]
fn a_bar_is_cut_where_it_was_let_in() {
    let mut row = Row {
        key: 1,
        up: 0,
        finished: true,
        showing: true,
        paint: Paint::Amber,
        x: 100,
        since: 125,
        end: 300,
        w: 200,
        label: String::new(),
        label_left: TRACK / 8,
    };
    assert_eq!(
        queued_style(&row),
        "background:var(--stage-amber);left:0%;width:12.500%"
    );
    assert_eq!(
        processing_style(&row),
        "background:var(--stage-amber);left:12.500%;width:87.500%"
    );
    assert_eq!(label_style(&row), "left:12.500%");
    assert_eq!(row_opacity(&row), "opacity:0.62");
    row.end = 125;
    assert!(processing_style(&row).ends_with("width:0.400%"), "a sliver is still drawn");
    row.since = 80;
    assert!(queued_style(&row).ends_with("width:0.000%"));
    assert!(processing_style(&row).contains("left:-10.000%"));
    row.x = TRACK / 2;
    row.w = TRACK / 4;
    assert_eq!(bar_style(&row), "left:50.000%;width:25.000%");
}

#[test]
fn a_meter_wears_its_tenant() {
    let mut meter = Meter {
        key: 0,
        taken: true,
        paint: Paint::Purple,
        name: "#1 a".to_string(),
        filled: Part { done: 1, of: 3 },
        tick: String::new(),
        accrued: String::new(),
    };
    assert_eq!(meter_style(&meter), "opacity:1.00");
    assert_eq!(swatch_style(&meter), "background:var(--stage-purple)");
    assert_eq!(
        fill_style(&meter),
        "background:var(--stage-purple);width:33.33%"
    );
    meter.taken = false;
    assert_eq!(meter_style(&meter), "opacity:0.35");
    let total = Total {
        key: 0,
        paint: Paint::Blue,
        id: "a",
        total: String::new(),
    };
    assert_eq!(total_swatch(&total), "background:var(--stage-blue)");
    assert_eq!(line_style(Paint::Blue), "stroke:var(--stage-blue)");
}

#[test]
fn a_message_asks_for_what_it_means() {
    let mut desk = Desk::new();
    assert_eq!(desk.speed, OPENING);
    assert_eq!(desk.rates, vec![100_000, 60_000, 80_000]);
    assert_eq!(desk.turn(BlameMsg::Tick(40_000)), BlameAsk::Steps(1));
    assert_eq!(desk.panel.real_t, 40_000);
    assert_eq!(desk.turn(BlameMsg::Tick(-9)), BlameAsk::Steps(0));
    assert_eq!(desk.panel.real_t, 40_000, "a clock that steps back stands still");
    assert_eq!(desk.turn(BlameMsg::Resize), BlameAsk::Redraw);
    assert_eq!(desk.turn(BlameMsg::View(1)), BlameAsk::Nothing);
    assert_eq!(desk.controls.view, 1);
    let moved = desk.turn(BlameMsg::Rate("Bob", 5_000));
    assert_eq!(moved, BlameAsk::Retune("Bob", 5_000));
    assert_eq!(desk.rates, vec![100_000, 5_000, 80_000]);
    desk.turn(BlameMsg::Rate("nobody", 7));
    assert_eq!(desk.rates, vec![100_000, 5_000, 80_000]);
    desk.turn(BlameMsg::Toggle);
    assert!(desk.controls.running);
    let at = Measured::Tenant(2);
    assert_eq!(desk.turn(BlameMsg::Measured(at)), BlameAsk::Place(at));
}

#[test]
fn the_speed_is_offered_after_the_breakdown_and_taken_by_more() {
    let mut desk = Desk::new();
    desk.turn(BlameMsg::Tick(ORIENT as i64));
    assert!(!desk.controls.invited, "the breakdown's invitation still stands");
    desk.turn(BlameMsg::Breakdown);
    desk.turn(BlameMsg::Tick(1));
    assert!(desk.controls.invited && desk.controls.by_tenant);
    assert_eq!(desk.turn(BlameMsg::Speed(OPENING)), BlameAsk::Pace(OPENING));
    assert!(desk.controls.invited, "touched, but not taken");
    desk.turn(BlameMsg::Speed(OPENING + 1));
    assert!(!desk.controls.invited && desk.controls.taken);
}

#[test]
fn a_fresh_machine_keeps_the_knobs() {
    let mut desk = Desk::new();
    desk.turn(BlameMsg::Rate("Alice", 1_000));
    desk.turn(BlameMsg::Speed(80));
    desk.turn(BlameMsg::Tick(40_000));
    desk.panel.land(3, 5 * MS, Some(0));
    assert_eq!(desk.turn(BlameMsg::Reset), BlameAsk::Rebuild);
    assert_eq!(desk.rates, vec![1_000, 60_000, 80_000]);
    assert_eq!(desk.speed, 80);
    assert!(desk.panel.landed.is_empty() && desk.panel.real_t == 0 && desk.pace.held == 0);
}

#[test]
fn a_step_lands_bills_and_banks() {
    let mut engine = SimEngine::tenanted(ENGINE_SEED, Billing::Measured);
    engine.obs.t = 10 * MS;
    engine.obs.hops = vec![
        Hop { id: 4, station: Station::SynBacklog { idx: 0 }, t: 2 * MS },
        Hop { id: 5, station: Station::Io { p: Part { done: 0, of: 1 } }, t: 3 * MS },
    ];
    engine.obs.blame.spans = vec![span(4, 3, 10, 0, 1, 9)];
    engine.obs.blame.occupiers = vec![4];
    engine.ledger.bank("Bob", 11);
    let mut desk = Desk::new();
    assert!(desk.fold(&mut engine).is_none(), "no long sample is due yet");
    assert!(desk.panel.landed.is_empty(), "let in by the first interval it occupies");
    assert_eq!(desk.panel.tracks.len(), 1);
    assert_eq!(desk.panel.tracks[0].owed, 9);
    assert_eq!(desk.panel.fares, vec![0, 11, 0]);
    assert!(engine.ledger.fares.is_empty());
    engine.obs.t = 60 * MS;
    engine.obs.hops.clear();
    engine.obs.blame.spans.clear();
    let sample = desk.fold(&mut engine).expect("a long sample is due");
    assert_eq!(sample.over, 60 * MS);
}

#[test]
fn a_summary_reads_how_the_traffic_went() {
    let mut desk = Desk::new();
    let engine = SimEngine::tenanted(ENGINE_SEED, Billing::Measured);
    let done: VecDeque<Record> =
        [Record { tenant: "Charlie", outcome: Outcome::QueueTimeout }].into();
    assert!(desk.sum_up(0, 5 * MS, &done), "due at once");
    assert_eq!(desk.shed, vec![false, false, true]);
    assert!(!desk.sum_up(4 * MS, 5 * MS, &VecDeque::new()));
    let wires = desk.wires(&engine);
    assert_eq!(wires.len(), 3);
    assert!(wires[2].shed && !wires[0].shed && wires[1].tenant == 1);
    assert!(wires.iter().all(|w| w.server == 0 && w.sent.is_empty()));
    assert!(desk.core_ink(&engine).is_empty());
    assert!(desk.sum_up(5 * MS, 5 * MS, &VecDeque::new()));
    assert_eq!(desk.shed, vec![false, false, false]);
}
