use std::collections::VecDeque;

use blog_app::compose::{Gate, PolicyStage};
use blog_app::engine::arrivals::Arrivals;
use blog_app::engine::client::{Ask, Client, Event, Leg, NetLegs};
use blog_app::engine::clock::{Marks, ACCEPT_CPU_MS, NET_MS, RATE_WINDOW_MS};
use blog_app::engine::frame::{Act, Frame, Heard};
use blog_app::engine::handler::{Handler, Need, Turn};
use blog_app::engine::ledger::Ledger;
use blog_app::engine::machine::{gate_open, SimEngine, DEFAULT_SPEED, FASTEST, SLOWEST, TOP_RATE};
use blog_app::engine::meters::trim_window;
use blog_app::engine::mix::TenantMix;
use blog_app::engine::obs::Obs;
use blog_app::engine::outcome::{lane_of, Exit, LayerFault, Load, QueueFault, Refusal};
use blog_app::engine::request::{
    make_phases, tenant_of, tenants, Behavior, Phase, SOLO, TENANT_COUNT, WHOLE_WEIGHT,
};
use blog_app::engine::rng::{Rng, UNIT};
use blog_app::engine::sim::{Sim, Station};
use blog_app::engine::spans::{BlameFrame, BlameSampler, BlameSpan};
use blog_app::engine::stack::{Billing, CORES};
use blog_app::engine::tagged::{drop_id, take_all};
use blog_app::engine::{Outcome, Part, Ticks, HOMEWARD, MS};

fn sim() -> Sim {
    Sim::new(1000 * MS, false, 100, Gate::RuntimeCpu)
}

fn legs() -> NetLegs {
    NetLegs {
        inbound: NET_MS * MS,
        outbound: NET_MS * MS,
    }
}

/// A client behind a request queue, stepped to where the stack has it.
fn called(sim: &mut Sim, id: u32) -> (Client, Ticks) {
    let land = 20 * MS;
    let mut c = Client::new(id, land, legs(), Behavior::Good, true);
    assert_eq!(c.step(sim, Event::Begin, 0), Ask::Until(14 * MS));
    assert_eq!(c.step(sim, Event::Woke, 14 * MS), Ask::Until(land));
    assert_eq!(sim.net_in.len(), 1);
    assert_eq!(c.step(sim, Event::Woke, land), Ask::Core);
    assert_eq!((sim.net_in.len(), sim.ready.len()), (0, 1));
    assert_eq!(
        c.step(sim, Event::Core, land),
        Ask::Sleep(ACCEPT_CPU_MS * MS)
    );
    assert_eq!((sim.cpu.len(), sim.ready.len()), (1, 0));
    let now = land + ACCEPT_CPU_MS * MS;
    assert_eq!(c.step(sim, Event::Woke, now), Ask::Call { release: true });
    assert_eq!((sim.cpu.len(), sim.queue_stubs.len()), (0, 1));
    (c, now)
}

#[test]
fn a_served_client_is_told_once_its_reply_is_home() {
    let mut sim = sim();
    let (mut c, now) = called(&mut sim, 1);
    let verdict = now + 30 * MS;
    assert_eq!(
        c.step(&mut sim, Event::Served, verdict),
        Ask::Sleep(NET_MS * MS)
    );
    assert_eq!((sim.net_out.len(), sim.stats.success), (1, 0));
    let home = verdict + NET_MS * MS;
    match c.step(&mut sim, Event::Woke, home) {
        Ask::Finished(Some(answer)) => {
            assert_eq!(answer.outcome, Outcome::Success);
            assert_eq!(answer.round_trip, home - 14 * MS);
        }
        other => panic!("{other:?}"),
    }
    assert_eq!((sim.stats.success, sim.stats.arrived), (1, 1));
    assert_eq!(sim.departures, vec![(1, Outcome::Success)]);
    assert_eq!(sim.latencies.len(), 1);
    assert_eq!(sim.net_out.len(), 0);
    assert_eq!(c.leg, Leg::Done);
    assert_eq!(c.step(&mut sim, Event::Woke, home), Ask::Nothing);
}

#[test]
fn each_refusal_is_its_own_verdict() {
    let told = |refusal: Refusal| {
        let mut sim = sim();
        let (mut c, now) = called(&mut sim, 1);
        c.step(&mut sim, Event::Refused(refusal), now);
        c.step(&mut sim, Event::Woke, now + NET_MS * MS);
        (sim.departures.first().map(|d| d.1), sim.queue_stubs.len())
    };
    assert_eq!(
        told(Refusal::QueueTimeout),
        (Some(Outcome::QueueTimeout), 0)
    );
    assert_eq!(told(Refusal::Rejected), (Some(Outcome::Rejected), 0));
    assert_eq!(told(Refusal::RateLimited), (Some(Outcome::RateLimited), 0));
    assert_eq!(told(Refusal::Dropped), (None, 0), "nothing travels back");
    let mut sim = sim();
    let (mut c, now) = called(&mut sim, 1);
    assert_eq!(c.step(&mut sim, Event::Unready, now), Ask::Finished(None));
}

#[test]
fn an_answer_too_late_is_a_timeout() {
    let late = |processing: bool| {
        let mut sim = Sim::new(50 * MS, processing, 100, Gate::RuntimeCpu);
        let (mut c, now) = called(&mut sim, 1);
        let ask = c.step(&mut sim, Event::Served, now + 60 * MS);
        (ask, sim)
    };
    let (ask, sim) = late(false);
    assert!(matches!(ask, Ask::Finished(Some(a)) if a.outcome == Outcome::ResponseTimeout));
    assert_eq!(sim.stats.response_timeout, 1);
    let (ask, sim) = late(true);
    assert_eq!(ask, Ask::Sleep(NET_MS * MS), "the work was done, and its answer travels");
    assert_eq!(sim.net_out.len(), 1);
}

#[test]
fn a_server_that_hangs_keeps_the_core() {
    let mut sim = sim();
    let mut c = Client::new(4, 20 * MS, legs(), Behavior::AcceptHang, false);
    c.step(&mut sim, Event::Begin, 0);
    c.step(&mut sim, Event::Woke, 14 * MS);
    assert_eq!(
        c.step(&mut sim, Event::Woke, 20 * MS),
        Ask::CoreBefore(1020 * MS)
    );
    c.step(&mut sim, Event::Core, 21 * MS);
    assert!(sim.cpu[0].hung);
    c.step(&mut sim, Event::Woke, 1030 * MS);
    assert_eq!(sim.stats.response_timeout, 1, "the client gave up once");
    c.step(&mut sim, Event::Woke, 2000 * MS);
    assert_eq!(sim.stats.response_timeout, 1);
    assert_eq!(sim.cpu.len(), 1, "and the worker never comes back");

    let mut never = Client::new(5, 20 * MS, legs(), Behavior::AcceptHang, false);
    never.step(&mut sim, Event::Begin, 0);
    never.step(&mut sim, Event::Woke, 14 * MS);
    never.step(&mut sim, Event::Woke, 20 * MS);
    assert_eq!(
        never.step(&mut sim, Event::GaveUp, 1020 * MS),
        Ask::Finished(None)
    );
    assert_eq!(sim.stats.response_timeout, 2);
}

#[test]
fn a_handler_walks_its_phases() {
    let mut sim = sim();
    sim.io_speed = 50;
    sim.take_in(9, true, 0);
    assert_eq!((sim.occupiers.len(), sim.ready.len()), (1, 1));
    let plan = vec![Phase::Cpu(5 * MS), Phase::Io(10 * MS), Phase::Cpu(MS)];
    let mut h = Handler::new(9, plan, true);
    assert_eq!(h.turn(&mut sim, Turn::Begin, 0), Need::Core { release: false });
    assert_eq!(
        h.turn(&mut sim, Turn::Core, 0),
        Need::Sleep {
            release: false,
            span: ACCEPT_CPU_MS * MS
        }
    );
    assert_eq!(
        h.turn(&mut sim, Turn::Woke, MS),
        Need::Sleep {
            release: false,
            span: 5 * MS
        }
    );
    assert_eq!(
        h.turn(&mut sim, Turn::Woke, 6 * MS),
        Need::Sleep {
            release: true,
            span: 20 * MS
        },
        "a slow dependency takes longer"
    );
    assert_eq!((sim.cpu.len(), sim.io.len()), (0, 1));
    assert_eq!(
        h.turn(&mut sim, Turn::Woke, 26 * MS),
        Need::Core { release: false }
    );
    assert_eq!(h.turn(&mut sim, Turn::Begin, 26 * MS), Need::Nothing);
    h.turn(&mut sim, Turn::Core, 26 * MS);
    assert_eq!(
        h.turn(&mut sim, Turn::Woke, 27 * MS),
        Need::Finished { release: true }
    );
    sim.vacate(9);
    assert!(sim.occupiers.is_empty() && sim.ready.is_empty() && sim.cpu.is_empty());
}

#[test]
fn verdicts_travel_in_their_lanes() {
    for (i, o) in HOMEWARD.iter().enumerate() {
        assert_eq!(lane_of(*o), Some(i));
        assert_eq!(o.reply().map(|r| r.outcome()), Some(*o));
    }
    assert_eq!(lane_of(Outcome::ResponseTimeout), None);
    assert!(Outcome::Success.served() && !Outcome::Success.refused());
    assert!(Outcome::Rejected.refused());
    assert!(!Outcome::RateLimited.refused(), "asking elsewhere gets the same answer");
    assert_eq!(Outcome::Success.reply().unwrap().exit(), Exit::Success);
    assert_eq!(Outcome::QueueTimeout.reply().unwrap().exit(), Exit::Timeout);
    assert_eq!(Refusal::of_queue(QueueFault::Timeout), Refusal::QueueTimeout);
    assert_eq!(Refusal::of_queue(QueueFault::Lost), Refusal::Dropped);
    assert_eq!(Refusal::of_reject(LayerFault::Turned), Refusal::Rejected);
    assert_eq!(Refusal::of_quota(LayerFault::Turned), Refusal::RateLimited);
    assert_eq!(
        Refusal::of_quota(LayerFault::Inner(Refusal::QueueTimeout)),
        Refusal::QueueTimeout
    );
}

#[test]
fn the_lighter_load_has_less_waiting_first() {
    let load = |queued: usize, processed: usize| Load { queued, processed };
    assert!(load(1, 9).lighter(&load(2, 0)));
    assert!(load(1, 1).lighter(&load(1, 2)));
    assert!(!load(1, 1).lighter(&load(1, 1)));
}

#[test]
fn the_earliest_sender_sends_first() {
    let mut a = Arrivals::new(1000);
    let mut b = Arrivals::new(1000);
    let silent = Arrivals::new(0);
    a.release(0, 30 * MS);
    b.release(0, 20 * MS);
    assert_eq!(a.due(10 * MS), None);
    assert_eq!(a.due(24 * MS), Some(30 * MS), "it is sent a leg before it lands");
    let first = Arrivals::earliest(&vec![a, b, silent], 100 * MS);
    assert_eq!(first, Some((1, 20 * MS)));
    b.sent(20 * MS, 50 * MS);
    assert_eq!(b.next, Some(70 * MS));
    b.hold();
    assert_eq!(b.due(u64::MAX), None);
    assert!(!b.set_rate(0) && b.set_rate(5));
}

#[test]
fn the_mix_knows_whose_a_request_is() {
    let mut mix = TenantMix::new(3);
    for k in 0..TENANT_COUNT {
        mix.release(k, 0, (k as u64 + 1) * MS);
    }
    let mut next = 40;
    let (k, req) = mix.arrival(100 * MS, false, &mut next).unwrap();
    assert_eq!((k, req.id, next), (0, 40, 41));
    assert_eq!(req.tenant, tenants()[0].id);
    assert_eq!(mix.whose(40), Some(0));
    mix.sent(0, req.enq_t, 500 * MS);
    assert_eq!(mix.arrival(100 * MS, false, &mut next).unwrap().0, 1);
    mix.forget(&vec![(40, Outcome::Success)]);
    assert_eq!(mix.whose(40), None);
    assert_eq!(mix.set_rate("nobody", 9), None);
    assert_eq!(mix.set_rate(tenants()[2].id, 0), None);
    assert_eq!(mix.set_rate(tenants()[2].id, 9), Some(2));
    assert_eq!(tenant_of(Some(tenants()[1].id)), Some(1));
    assert_eq!(tenant_of(Some(SOLO)), None);
    assert_eq!(tenant_of(None), None);
}

#[test]
fn a_plan_is_bursts_with_waits_between() {
    let mut rng = Rng::new(1);
    for _ in 0..50 {
        let plan = make_phases(&mut rng, false, WHOLE_WEIGHT);
        assert_eq!(plan.len() % 2, 1);
        for (i, p) in plan.iter().enumerate() {
            match p {
                Phase::Cpu(d) => assert!(i % 2 == 0 && *d >= 12 * MS && *d <= 32 * MS),
                Phase::Io(d) => assert!(i % 2 == 1 && *d >= 16 * MS && *d <= 60 * MS),
            }
        }
        assert_eq!(make_phases(&mut rng, true, WHOLE_WEIGHT).len(), 1);
    }
    assert_eq!(Behavior::from_name("never-accept"), Behavior::NeverAccept);
    assert_eq!(Behavior::from_name("?"), Behavior::Good);
}

/// The stream is xorshift, from a seed stirred once.
#[test]
fn draws_follow_the_seed() {
    let mut rng = Rng::new(0);
    assert_eq!(rng.state, 0x9e37_79b9_7f4a_7c15);
    let mut x = rng.state;
    x ^= x << 13;
    x ^= x >> 7;
    x ^= x << 17;
    assert_eq!(rng.u64(), x);
    assert!(rng.fraction() < UNIT);
    for _ in 0..100 {
        assert!(rng.below(3) < 3);
        assert_eq!(rng.below(1), 0);
    }
}

/// What a draw comes to, worked in doubles.
fn below(m: u64, n: usize) -> usize {
    ((m as f64 / (1u64 << 53) as f64 * n as f64) as usize).min(n - 1)
}

fn length(ms: f64) -> Ticks {
    std::time::Duration::from_secs_f64(ms).as_nanos() as Ticks
}

/// A share that rounds up to a whole number is that number.
#[test]
fn a_pick_rounds_as_a_double_does() {
    let mut rng = Rng {
        state: 0xb4a8_37fd_92e3_ba74,
    };
    assert_eq!(rng.below(10), 9);
    let mut rng = Rng::new(7);
    let most = usize::MAX;
    for n in [1, 2, 3, 7, 10, 1000, (1 << 53) - 1, (1 << 53) + 1, most - 1025, most - 1, most] {
        for _ in 0..200 {
            let mut ahead = Rng { state: rng.state };
            let m = ahead.fraction();
            assert_eq!(rng.below(n), below(m, n), "{m} of {n}");
        }
    }
}

/// Bursts and waits are the lengths doubles come to, to the tick.
#[test]
fn a_plan_is_worked_in_doubles() {
    let mut rng = Rng::new(3);
    let weights = [0, 1, 3, 100_000, 333_333, 999_999, 1_000_000, 1_500_000, 2_000_000, 7_777_777];
    for work in weights.into_iter().chain([123_456_789, u32::MAX]) {
        for _ in 0..100 {
            let mut ahead = Rng { state: rng.state };
            let mut f = || ahead.fraction() as f64 / (1u64 << 53) as f64;
            f();
            let w = work as f64 / 1_000_000.0;
            for phase in make_phases(&mut rng, false, work) {
                match phase {
                    Phase::Cpu(d) => assert_eq!(d, length((12.0 + f() * 20.0) * w)),
                    Phase::Io(d) => assert_eq!(d, length((16.0 + f() * 44.0).floor())),
                }
            }
        }
    }
    let mut rng = Rng::new(5);
    let mut ahead = Rng { state: rng.state };
    let m = ahead.fraction() as f64 / (1u64 << 53) as f64;
    let plan = make_phases(&mut rng, true, WHOLE_WEIGHT);
    assert_eq!(plan, [Phase::Cpu(length(12.0 + m * 20.0))]);
}

#[test]
fn a_window_forgets_what_is_past() {
    let mut w: VecDeque<Ticks> = [0, 10 * MS, 5_000 * MS].into();
    trim_window(&mut w, 5_005 * MS);
    assert_eq!(w.len(), 2);
    trim_window(&mut w, (RATE_WINDOW_MS + 5_000) * MS + 1);
    assert!(w.is_empty());
}

#[test]
fn the_average_is_over_the_whole_window() {
    let mut sim = sim();
    sim.util_sample(0);
    sim.claim_core(1, 0, 10 * MS, 0, false);
    sim.util_sample(100 * MS);
    assert_eq!(sim.os_cpu_busy(200 * MS), 100 * MS);
    sim.claim_core(2, 0, 10 * MS, 0, false);
    sim.util_sample(200 * MS);
    assert_eq!(sim.os_cpu_busy(300 * MS), 300 * MS);
}

#[test]
fn the_first_free_core_is_taken() {
    let mut sim = sim();
    assert_eq!(sim.claim_core(1, 0, MS, 0, false), 0);
    assert_eq!(sim.claim_core(2, 0, MS, 0, false), 1);
    drop_id(&mut sim.cpu, 1);
    assert_eq!(sim.claim_core(3, 0, MS, 0, false), 0);
    assert_eq!(sim.committed(), 2);
    assert_eq!(sim.counts().busy, 2);
    assert!(gate_open(&sim, Some(3), false) && !gate_open(&sim, Some(2), false));
    assert!(gate_open(&sim, None, false) && gate_open(&sim, None, true));
    sim.enter_run_queue(9, MS);
    assert!(matches!(
        sim.hops.last().unwrap().station,
        Station::RunQueue { idx: 0 }
    ));
    assert_eq!(take_all(&mut sim.hops).len(), 1);
    assert!(sim.hops.is_empty());
}

#[test]
fn a_span_is_what_the_meter_wound() {
    let mut sampler = BlameSampler::default();
    let mut frame = BlameFrame::default();
    sampler.event(&mut frame, 10 * MS, 0, true, &vec![5, 6]);
    assert!(frame.spans.is_empty(), "one reading is not an interval");
    sampler.event(&mut frame, 30 * MS, 10 * MS, false, &vec![5]);
    assert_eq!(frame.shut, vec![(10 * MS, 30 * MS)]);
    assert_eq!(frame.spans.len(), 2);
    for (pos, span) in frame.spans.iter().enumerate() {
        assert_eq!((span.pos, span.n), (pos, 2));
        assert_eq!(span.accrual, 10 * MS);
        assert!(span.minting());
    }
    sampler.event(&mut frame, 40 * MS, 10 * MS, false, &vec![5]);
    assert!(!frame.spans.last().unwrap().minting());
}

#[test]
fn a_span_extends_the_one_it_continues() {
    let first = BlameSpan {
        id: 1,
        t_a: 0,
        t_b: 10,
        pos: 0,
        n: 2,
        accrual: 4,
    };
    let next = BlameSpan {
        t_a: 10,
        t_b: 20,
        ..first
    };
    let mut span = first;
    assert!(span.extend(&next));
    assert_eq!((span.t_a, span.t_b, span.accrual), (0, 20, 8));
    assert!(!span.extend(&BlameSpan { n: 3, ..next }));
    assert_eq!(span.t_b, 20);
}

#[test]
fn a_fare_is_banked_to_a_tenant() {
    let mut ledger = Ledger::default();
    ledger.bank(tenants()[1].id, 5);
    ledger.bank("nobody", 7);
    let fares = ledger.drain();
    assert!(fares.iter().any(|f| *f == (tenants()[1].id, 5)));
    assert!(ledger.drain().is_empty());
}

#[test]
fn rates_are_read_over_the_window() {
    let mut obs = Obs::default();
    obs.success_5s = 10;
    obs.done_5s = 12;
    obs.timeout_5s = 3;
    assert_eq!(obs.goodput_ps(), Part { done: 10, of: 5 });
    assert_eq!(obs.offered_throughput_ps(), Part { done: 15, of: 5 });
}

#[test]
fn the_knobs_stay_within_their_bounds() {
    let mut e = SimEngine::new(75_000, PolicyStage::Queue, None, false, Behavior::Good);
    assert_eq!(e.speed, DEFAULT_SPEED);
    e.set_speed(0);
    assert_eq!(e.speed, SLOWEST);
    e.set_speed(u64::MAX);
    assert_eq!(e.speed, FASTEST);
    e.set_speed(1_000_000);
    assert_eq!(e.runs(16_000), 16 * MS);
    assert!(!e.set_lambda(u64::MAX));
    assert_eq!(e.arrivals.rate, TOP_RATE);
    e.set_response_timeout_ms(0);
    assert_eq!(e.sim.response_timeout, MS);
    e.set_io_speed(1);
    assert_eq!(e.sim.io_speed, 10);
    e.set_io_speed(900);
    assert_eq!(e.sim.io_speed, 400);
    assert!(e.set_concurrency_limit(0, 0).is_some(), "the ceiling shown is the slider's");
    assert_eq!(e.concurrency_limit, 1);
    let mut bare = SimEngine::new(75_000, PolicyStage::App, None, false, Behavior::Good);
    assert!(bare.set_concurrency_limit(5, 0).is_none(), "nothing to rebuild");
    bare.set_processing_timeout(true);
    assert!(bare.sim.processing_timeout_enabled);
    assert_eq!(bare.set_tenant_qps(tenants()[0].id, 5), None);
}

#[test]
fn a_leg_is_as_far_as_its_clock_says() {
    assert_eq!(Part::none().done, 0);
    assert_eq!(Part::of(10, 20, 15), Part { done: 5, of: 20 });
    assert_eq!(Part::of(10, 20, 5).done, 0, "not before it set off");
    assert_eq!(Part::of(10, 20, 99), Part { done: 20, of: 20 });
}

#[test]
fn a_reply_carries_its_own_outcome_home() {
    for (outcome, exit) in [
        (Outcome::Success, Exit::Success),
        (Outcome::QueueTimeout, Exit::Timeout),
        (Outcome::Rejected, Exit::Timeout),
        (Outcome::RateLimited, Exit::Timeout),
        (Outcome::ProcessingTimeout, Exit::Processing),
    ] {
        let reply = outcome.reply().unwrap();
        assert_eq!((reply.outcome(), reply.exit()), (outcome, exit));
        assert_eq!(reply.outcome().reply(), Some(reply));
    }
    assert_eq!(Outcome::ResponseTimeout.reply(), None, "nobody waits for it");
}

#[test]
fn an_instant_is_reported_once_and_a_frames_end_always() {
    let mut marks = Marks::new();
    assert!(marks.park(0), "the first instant");
    assert!(!marks.park(0), "already reported");
    assert!(marks.park(MS));
    marks.run_to(5 * MS);
    assert!(!marks.park(MS), "a frame's start is the last one's end");
    assert!(marks.park(5 * MS));
    assert!(marks.park(5 * MS), "the end is reported however often");
    assert_eq!(marks.reported, Some(5 * MS));
}

#[test]
fn a_step_is_asked_for_before_it_is_taken() {
    let mut sim = sim();
    let c = Client::new(1, 20 * MS, legs(), Behavior::Good, true);
    assert!(c.can_step(&sim, Event::Begin, 0));
    assert!(!c.can_step(&sim, Event::Begin, Ticks::MAX), "no clock left to travel on");
    sim.stats.arrived = u32::MAX;
    assert!(!c.can_step(&sim, Event::Begin, 0), "no tally left to count it by");

    let h = Handler::new(9, vec![Phase::Cpu(5 * MS)], true);
    assert!(h.can_turn(&sim, Turn::Core));
    while sim.cpu.len() < CORES {
        let id = sim.cpu.len() as u32;
        let mut busy = Handler::new(id, vec![Phase::Cpu(5 * MS)], false);
        sim.take_in(id, false, 0);
        busy.turn(&mut sim, Turn::Begin, 0);
        busy.turn(&mut sim, Turn::Core, 0);
    }
    assert!(!h.can_turn(&sim, Turn::Core), "no core is left to hold");
    assert!(h.can_turn(&sim, Turn::Begin));
}

#[test]
fn a_frame_is_closed_where_its_counts_have_room() {
    let mut e = SimEngine::new(75_000, PolicyStage::Queue, None, false, Behavior::Good);
    assert!(e.can_settle(0));
    assert!(e.can_close());
    assert!(!e.can_settle(Ticks::MAX), "the meter's next reading is past the clock");
    e.sim.stats.rejected = u32::MAX;
    e.sim.stats.queue_timeout = 1;
    assert!(!e.can_settle(0), "two tallies that do not add up");
    assert!(!e.can_close());
}

#[test]
fn a_frame_sends_then_runs_then_is_read() {
    let run = || {
        let mut e = SimEngine::new(75_000, PolicyStage::Queue, None, false, Behavior::Good);
        e.set_speed(1_000_000);
        e.release(0, 20 * MS);
        let frame = e.frame(0, 16_000);
        assert!(matches!(frame, Frame::Sending { t_end, owed: None } if t_end == 16 * MS));
        let (frame, act) = e.tick(frame, Heard::Gap { gap: MS });
        assert!(matches!(act, Act::Nothing), "no gap is owed yet");
        let (frame, act) = e.tick(frame, Heard::Begin);
        let Act::Send { req, draw, rate } = act else {
            panic!("a send is due");
        };
        assert_eq!((req.id, req.enq_t, req.tenant, rate), (0, 20 * MS, SOLO, 75_000));
        assert!(draw < UNIT);
        assert!(!e.can_hear(&frame, Heard::Gap { gap: Ticks::MAX }));
        let (frame, act) = e.tick(frame, Heard::Gap { gap: 50 * MS });
        assert!(matches!(act, Act::Run { t_end } if t_end == 16 * MS));
        assert_eq!(e.arrivals.next, Some(70 * MS));
        let settled = Heard::Settled {
            now: 16 * MS,
            metered: None,
        };
        let (frame, act) = e.tick(frame, settled);
        assert!(matches!(act, Act::Look { busy: None }), "nothing steers the ceiling");
        let over = Heard::Over {
            now: 16 * MS,
            accounts: None,
            pct: None,
            ceiling: None,
        };
        let (frame, act) = e.tick(frame, over);
        assert!(matches!((frame, act), (Frame::Closed, Act::Done)));
        (e.rng.state, e.next_id, draw, req.phases, e.obs.stats.arrived)
    };
    assert!(run() == run(), "the same frame told the same");
}

#[test]
fn a_tenants_send_owes_its_own_stream_a_gap() {
    let mut e = SimEngine::tenanted(7, Billing::Measured);
    let mix = e.tenants.as_mut().unwrap();
    mix.release(1, 0, 10 * MS);
    let rate = mix.streams[1].clock.rate;
    let (frame, act) = e.tick(Frame::to(16 * MS), Heard::Begin);
    assert!(matches!(act, Act::Send { rate: at, .. } if at == rate));
    let (_, act) = e.tick(frame, Heard::Gap { gap: 90 * MS });
    assert!(matches!(act, Act::Run { .. }));
    assert_eq!(e.tenants.unwrap().streams[1].clock.next, Some(100 * MS));
}
