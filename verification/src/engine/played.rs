//! An engine ticked frame by frame, with everything that happens on its server in between.

use vstd::prelude::*;

use crate::compose::{Gate, PolicyStage};
use crate::engine::arrivals::{is_earliest, none_due, Arrivals};
use crate::engine::client::{Client, Leg, NetLegs};
use crate::engine::clock::Ticks;
use crate::engine::course::{
    can, engines_that_open_alike_are_alike, in_order, moves_nobody, next, opened, runs, solo_sent,
    tenant_sent, told_more, whatever_happens_keeps_order, Happening, World,
};
use crate::engine::frame::{
    first_due, goes_on, hearable, paid, sends, the_first_is_the_only_one, ticked, ActView,
    FrameView, Heard, ReqView,
};
use crate::engine::machine::{opens, Accounts, DigestView, EngineView, Metered, SimEngine};
use crate::engine::mix::clocks;
use crate::engine::request::{Behavior, TENANT_COUNT};

verus! {

/// A world and the frame it is in.
pub struct Play {
    pub world: World,
    pub frame: FrameView,
}

/// What moves it on.
pub enum Move {
    /// A frame of `wall` microseconds of the reader's time opens at `now`.
    Open { now: Ticks, wall: u64 },
    /// The engine is ticked: the frame is told something, and what it sends goes over these legs.
    Tick { heard: Heard, net: NetLegs },
    /// Something happens on the server.
    Meanwhile { what: Happening },
}

/// The client a request goes out with.
pub open spec fn client_for(e: EngineView, req: ReqView, net: NetLegs) -> Client {
    Client {
        id: req.id,
        enq_t: req.enq_t,
        net,
        behavior: e.behavior,
        uses_app_queue: e.obs.layers.queue,
        leg: Leg::Unsent,
    }
}

/// The world once its engine has been ticked to `e` and `f`, and what was asked for is done.
pub open spec fn acted(w: World, e: EngineView, f: FrameView, act: ActView, net: NetLegs) -> World {
    let after = World {
        engine: e,
        digest: match f {
            FrameView::Running { digest } => digest,
            _ => w.digest,
        },
        ..w
    };
    match act {
        ActView::Send { req, .. } => World {
            clients: w.clients.insert(req.id, client_for(w.engine, req, net)),
            plans: w.plans.insert(req.id, req.phases),
            ..after
        },
        ActView::Done => World { told: told_more(w), ..after },
        _ => after,
    }
}

/// The play after a move.
#[verifier::opaque]
pub open spec fn played(p: Play, m: Move) -> Play {
    match m {
        Move::Open { now, wall } => {
            let t_end = (now + wall * p.world.engine.speed) as u64;
            Play { frame: FrameView::Sending { t_end, owed: None }, ..p }
        },
        Move::Tick { heard, net } => {
            let (e, frame, act) = ticked(p.world.engine, p.frame, heard);
            Play { world: acted(p.world, e, frame, act, net), frame }
        },
        Move::Meanwhile { what } => Play { world: next(p.world, what), ..p },
    }
}

/// Whether the frame and the world have gathered the same.
pub open spec fn in_step(p: Play) -> bool {
    p.frame matches FrameView::Running { digest } ==> digest == p.world.digest
}

/// Whether a move can be made here.
#[verifier::opaque]
pub open spec fn playable(p: Play, m: Move) -> bool {
    match m {
        Move::Open { now, wall } => now + wall * p.world.engine.speed <= u64::MAX,
        Move::Tick { heard, .. } => {
            &&& hearable(p.world.engine, p.frame, heard)
            &&& p.world.engine.tenants matches Some(mix) ==> mix.streams.len() == TENANT_COUNT
        },
        Move::Meanwhile { what } => can(p.world, what) && !(what is OpenFrame) && !(what is Settle),
    }
}

/// Whether the plays are what these moves made, one after another, and each could be made where
/// it was.
pub open spec fn plays(ps: Seq<Play>, ms: Seq<Move>) -> bool {
    &&& ps.len() == ms.len() + 1
    &&& forall|i: int|
        0 <= i < ms.len() ==> playable(ps[i], #[trigger] ms[i]) && ps[i + 1] == played(
            ps[i],
            ms[i],
        )
}

/// Two plays that open alike and go through the same moves are alike throughout.
pub proof fn identical_plays_are_identical(a: Seq<Play>, b: Seq<Play>, ms: Seq<Move>, n: int)
    requires
        plays(a, ms),
        plays(b, ms),
        a[0] == b[0],
        0 <= n <= ms.len(),
    ensures
        a[n] == b[n],
    decreases n,
{
    if n > 0 {
        identical_plays_are_identical(a, b, ms, n - 1);
        assert(playable(a[n - 1], ms[n - 1]) && playable(b[n - 1], ms[n - 1]));
    }
}

/// Two engines opened on the same seed and the same settings, ticked alike while the same things
/// happen on their servers, read the same after every tick, tally for tally.
pub proof fn engines_ticked_alike_read_alike(
    a: SimEngine,
    b: SimEngine,
    seed: u64,
    rate: u64,
    stage: PolicyStage,
    gate: Option<Gate>,
    cpu_only: bool,
    behavior: Behavior,
    digest: DigestView,
    pa: Seq<Play>,
    pb: Seq<Play>,
    ms: Seq<Move>,
    n: int,
)
    requires
        opens(a, seed, rate, stage, gate, cpu_only, behavior),
        opens(b, seed, rate, stage, gate, cpu_only, behavior),
        a.speed == b.speed,
        plays(pa, ms),
        plays(pb, ms),
        pa[0] == (Play { world: opened(a@, digest), frame: FrameView::Closed }),
        pb[0] == (Play { world: opened(b@, digest), frame: FrameView::Closed }),
        0 <= n <= ms.len(),
    ensures
        pa[n] == pb[n],
        pa[n].world.engine.obs == pb[n].world.engine.obs,
        pa[n].world.engine.obs.stats.arrived == pb[n].world.engine.obs.stats.arrived,
        pa[n].world.engine.obs.stats.success == pb[n].world.engine.obs.stats.success,
        pa[n].world.engine.obs.stats.queue_timeout == pb[n].world.engine.obs.stats.queue_timeout,
        pa[n].world.engine.obs.stats.response_timeout
            == pb[n].world.engine.obs.stats.response_timeout,
{
    engines_that_open_alike_are_alike(a, b, digest, seed, rate, stage, gate, cpu_only, behavior);
    identical_plays_are_identical(pa, pb, ms, n);
}

// ----- a tick is a course of events ------------------------------------------

/// Of clocks with a send due, one has the earliest.
proof fn some_clock_is_first(clocks: Seq<Arrivals>, t_end: Ticks)
    requires
        !none_due(clocks, t_end),
    ensures
        first_due(clocks, t_end) matches Some((k, at)) && is_earliest(clocks, t_end, k, at),
    decreases clocks.len(),
{
    let last = clocks.len() - 1;
    let before = clocks.drop_last();
    assert(forall|j: int| 0 <= j < last ==> before[j] == clocks[j]);
    if none_due(before, t_end) {
        assert forall|j: int| 0 <= j < last implies (#[trigger] clocks[j]).spec_due(
            t_end,
        ) is None by {
            assert(before[j].spec_due(t_end) is None);
        }
        let at = clocks[last].spec_due(t_end)->0;
        assert(is_earliest(clocks, t_end, last, at));
        the_first_is_the_only_one(clocks, t_end, last, at);
    } else {
        some_clock_is_first(before, t_end);
        let (k, at) = first_due(before, t_end)->0;
        let (j, other) = match clocks[last].spec_due(t_end) {
            Some(late) => if late < at {
                (last, late)
            } else {
                (k, at)
            },
            None => (k, at),
        };
        assert forall|i: int| 0 <= i < clocks.len() implies ((#[trigger] clocks[i]).spec_due(
            t_end,
        ) matches Some(held) ==> other < held || (other == held && j <= i)) by {
            if i < last {
                assert(before[i].spec_due(t_end) == clocks[i].spec_due(t_end));
            }
        }
        assert(before[k].spec_due(t_end) == clocks[k].spec_due(t_end));
        assert(is_earliest(clocks, t_end, j, other));
        the_first_is_the_only_one(clocks, t_end, j, other);
    }
}

/// Something that moves nobody, done to the engine alone.
proof fn a_control_happens(w: World, e: EngineView) -> (h: Happening)
    requires
        moves_nobody(w.engine, e),
    ensures
        can(w, h),
        next(w, h) == (World { engine: e, ..w }),
{
    reveal(can);
    reveal(next);
    let h = Happening::Control { to: |_e: EngineView| e };
    h
}

/// A send is an arrival, and then its gap's draw.
proof fn a_send_happens(w: World, t_end: Ticks, net: NetLegs) -> (r: (World, Happening, Happening))
    requires
        w.engine.next_id < u32::MAX,
        w.engine.tenants matches Some(mix) ==> mix.streams.len() == TENANT_COUNT,
        sends(w.engine, t_end) is Some,
    ensures
        can(w, r.1),
        r.0 == next(w, r.1),
        can(r.0, r.2),
        ({
            let (e, out) = sends(w.engine, t_end)->0;
            next(r.0, r.2) == World {
                engine: e,
                clients: w.clients.insert(out.req.id, client_for(w.engine, out.req, net)),
                plans: w.plans.insert(out.req.id, out.req.phases),
                ..w
            }
        }),
{
    let (e, out) = sends(w.engine, t_end)->0;
    match w.engine.tenants {
        Some(mix) => {
            let all = clocks(mix.streams);
            some_clock_is_first(all, t_end);
            let (k, at) = first_due(all, t_end)->0;
            let h = Happening::TenantArrival { t_end, k: k as usize, at, net };
            assert(can(w, h)) by {
                reveal(can);
            }
            let v = next(w, h);
            assert(v == tenant_sent(w, k as usize, at, net)) by {
                reveal(next);
            }
            assert(moves_nobody(v.engine, e));
            let d = a_control_happens(v, e);
            (v, h, d)
        },
        None => {
            let h = Happening::Arrival { t_end, net };
            assert(can(w, h)) by {
                reveal(can);
            }
            let v = next(w, h);
            assert(v == solo_sent(w, out.owed.at, net)) by {
                reveal(next);
            }
            assert(moves_nobody(v.engine, e));
            let d = a_control_happens(v, e);
            (v, h, d)
        },
    }
}

/// One happening is a course.
proof fn one_happens(w: World, h: Happening) -> (r: (Seq<World>, Seq<Happening>))
    requires
        can(w, h),
    ensures
        runs(r.0, r.1),
        r.0[0] == w,
        r.0.last() == next(w, h),
{
    (seq![w, next(w, h)], seq![h])
}

/// A happening and then a course is a course.
proof fn first_it_happens(w: World, h: Happening, ws: Seq<World>, hs: Seq<Happening>) -> (r: (
    Seq<World>,
    Seq<Happening>,
))
    requires
        can(w, h),
        runs(ws, hs),
        ws[0] == next(w, h),
    ensures
        runs(r.0, r.1),
        r.0[0] == w,
        r.0.last() == ws.last(),
{
    let (us, gs) = (seq![w] + ws, seq![h] + hs);
    assert forall|i: int| 0 <= i < gs.len() implies can(us[i], #[trigger] gs[i]) && us[i + 1]
        == next(us[i], gs[i]) by {
        if i > 0 {
            assert(us[i] == ws[i - 1] && us[i + 1] == ws[i] && gs[i] == hs[i - 1]);
        }
    }
    (us, gs)
}

/// The world once a frame has gone on sending from `w`, or has begun to run.
#[verifier::opaque]
pub open spec fn gone_on(w: World, t_end: Ticks, net: NetLegs) -> World {
    let (e, f, act) = goes_on(w.engine, t_end);
    acted(w, e, f, act, net)
}

/// A frame with a send left makes it.
proof fn going_on_sends(w: World, t_end: Ticks, net: NetLegs)
    requires
        sends(w.engine, t_end) is Some,
    ensures
        ({
            let (e, out) = sends(w.engine, t_end)->0;
            gone_on(w, t_end, net) == World {
                engine: e,
                clients: w.clients.insert(out.req.id, client_for(w.engine, out.req, net)),
                plans: w.plans.insert(out.req.id, out.req.phases),
                ..w
            }
        }),
{
    reveal(gone_on);
}

/// A frame with none left begins to run.
proof fn going_on_runs(w: World, t_end: Ticks, net: NetLegs)
    requires
        sends(w.engine, t_end) is None,
    ensures
        can(w, Happening::OpenFrame),
        gone_on(w, t_end, net) == next(w, Happening::OpenFrame),
{
    reveal(gone_on);
    reveal(next);
    reveal(can);
}

/// A frame that goes on sending from `w`, or runs.
proof fn going_on_happens(w: World, t_end: Ticks, net: NetLegs) -> (r: (Seq<World>, Seq<Happening>))
    requires
        w.engine.next_id < u32::MAX,
        w.engine.tenants matches Some(mix) ==> mix.streams.len() == TENANT_COUNT,
    ensures
        runs(r.0, r.1),
        r.0[0] == w,
        r.0.last() == gone_on(w, t_end, net),
{
    if sends(w.engine, t_end) is Some {
        going_on_sends(w, t_end, net);
        let (v, h, d) = a_send_happens(w, t_end, net);
        let (ws, hs) = one_happens(v, d);
        first_it_happens(w, h, ws, hs)
    } else {
        going_on_runs(w, t_end, net);
        one_happens(w, Happening::OpenFrame)
    }
}

proof fn settling_happens(p: Play, now: Ticks, metered: Option<Metered>, net: NetLegs)
    requires
        p.frame is Running,
        in_step(p),
    ensures
        ({
            let h = Happening::Settle { now, metered };
            let heard = Heard::Settled { now, metered };
            let q = played(p, Move::Tick { heard, net });
            can(p.world, h) && next(p.world, h) == q.world && in_step(q)
        }),
{
    reveal(can);
    reveal(next);
    reveal(played);
}

proof fn closing_happens(
    p: Play,
    now: Ticks,
    accounts: Option<Accounts>,
    pct: Option<u32>,
    ceiling: Option<usize>,
    net: NetLegs,
)
    requires
        p.frame is Running,
        in_step(p),
    ensures
        ({
            let h = Happening::CloseFrame { now, accounts, pct, ceiling };
            let heard = Heard::Over { now, accounts, pct, ceiling };
            let q = played(p, Move::Tick { heard, net });
            can(p.world, h) && next(p.world, h) == q.world && in_step(q)
        }),
{
    reveal(can);
    reveal(next);
    reveal(played);
}

/// A frame told what it was waiting for goes on from the engine that leaves.
proof fn a_sending_tick(p: Play, heard: Heard, net: NetLegs, t_end: Ticks, e: EngineView)
    requires
        p.frame matches FrameView::Sending { t_end: end, owed } && end == t_end && match owed {
            None => heard is Begin && e == p.world.engine,
            Some(owed) => heard matches Heard::Gap { gap } && e == paid(p.world.engine, owed, gap),
        },
    ensures
        ({
            let q = played(p, Move::Tick { heard, net });
            &&& q.world == gone_on(World { engine: e, ..p.world }, t_end, net)
            &&& in_step(q)
        }),
{
    reveal(played);
    reveal(gone_on);
}

/// What the frame was not waiting for changes nothing.
proof fn an_idle_tick(p: Play, heard: Heard, net: NetLegs)
    requires
        ticked(p.world.engine, p.frame, heard) == (p.world.engine, p.frame, ActView::Nothing),
        in_step(p),
    ensures
        played(p, Move::Tick { heard, net }) == p,
{
    reveal(played);
}

/// What a tick does to a world is a course of happenings in it, so whatever holds of every course
/// holds of an engine that is ticked.
pub proof fn a_tick_is_a_course(p: Play, heard: Heard, net: NetLegs) -> (r: (
    Seq<World>,
    Seq<Happening>,
))
    requires
        playable(p, Move::Tick { heard, net }),
        in_step(p),
    ensures
        runs(r.0, r.1),
        r.0[0] == p.world,
        r.0.last() == played(p, Move::Tick { heard, net }).world,
        in_step(played(p, Move::Tick { heard, net })),
{
    let w = p.world;
    assert(hearable(w.engine, p.frame, heard) && (w.engine.tenants matches Some(mix)
        ==> mix.streams.len() == TENANT_COUNT)) by {
        reveal(playable);
    }
    match (p.frame, heard) {
        (FrameView::Sending { t_end, owed: None }, Heard::Begin) => {
            a_sending_tick(p, heard, net, t_end, w.engine);
            going_on_happens(w, t_end, net)
        },
        (FrameView::Sending { t_end, owed: Some(owed) }, Heard::Gap { gap }) => {
            let e = paid(w.engine, owed, gap);
            let h = a_control_happens(w, e);
            let v = next(w, h);
            a_sending_tick(p, heard, net, t_end, e);
            let (ws, hs) = going_on_happens(v, t_end, net);
            first_it_happens(w, h, ws, hs)
        },
        (FrameView::Running { .. }, Heard::Settled { now, metered }) => {
            let h = Happening::Settle { now, metered };
            settling_happens(p, now, metered, net);
            one_happens(w, h)
        },
        (FrameView::Running { .. }, Heard::Over { now, accounts, pct, ceiling }) => {
            let h = Happening::CloseFrame { now, accounts, pct, ceiling };
            closing_happens(p, now, accounts, pct, ceiling, net);
            one_happens(w, h)
        },
        _ => {
            an_idle_tick(p, heard, net);
            (seq![w], Seq::empty())
        },
    }
}

/// What happens meanwhile leaves what the frame has gathered.
proof fn meanwhile_the_frame_stands(w: World, what: Happening)
    requires
        !(what is OpenFrame),
        !(what is Settle),
    ensures
        next(w, what).digest == w.digest,
{
    reveal(next);
}

/// A move keeps a world in order, and the frame in step with it.
proof fn a_move_keeps_order(p: Play, m: Move)
    requires
        playable(p, m),
        in_step(p),
        in_order(p.world),
    ensures
        in_order(played(p, m).world),
        in_step(played(p, m)),
{
    match m {
        Move::Open { .. } => {
            reveal(played);
        },
        Move::Tick { heard, net } => {
            let (ws, hs) = a_tick_is_a_course(p, heard, net);
            a_course_keeps_order(ws, hs, hs.len() as int);
        },
        Move::Meanwhile { what } => {
            assert(can(p.world, what) && !(what is OpenFrame) && !(what is Settle)) by {
                reveal(playable);
            }
            whatever_happens_keeps_order(p.world, what);
            meanwhile_the_frame_stands(p.world, what);
            assert(played(p, m) == Play { world: next(p.world, what), ..p }) by {
                reveal(played);
            }
        },
    }
}

/// However an engine is ticked and whatever happens on its server, everyone is where their client
/// or their handler says.
pub proof fn a_ticked_world_stays_in_order(ps: Seq<Play>, ms: Seq<Move>, n: int)
    requires
        plays(ps, ms),
        in_step(ps[0]),
        in_order(ps[0].world),
        0 <= n <= ms.len(),
    ensures
        in_order(ps[n].world),
        in_step(ps[n]),
    decreases n,
{
    if n > 0 {
        a_ticked_world_stays_in_order(ps, ms, n - 1);
        assert(playable(ps[n - 1], ms[n - 1]));
        a_move_keeps_order(ps[n - 1], ms[n - 1]);
    }
}

proof fn a_course_keeps_order(ws: Seq<World>, hs: Seq<Happening>, n: int)
    requires
        runs(ws, hs),
        in_order(ws[0]),
        0 <= n <= hs.len(),
    ensures
        in_order(ws[n]),
    decreases n,
{
    if n > 0 {
        a_course_keeps_order(ws, hs, n - 1);
        assert(can(ws[n - 1], hs[n - 1]));
        whatever_happens_keeps_order(ws[n - 1], hs[n - 1]);
    }
}

} // verus!
