//! A server's whole run: every client and handler on it, what can happen to them, and what holds
//! however it happens.

use vstd::prelude::*;

use crate::compose::{Gate, PolicyStage};
use crate::engine::arrivals::is_earliest;
use crate::engine::client::{is_verdict, spec_step, steppable, Client, Event, Leg, NetLegs};
use crate::engine::clock::{Ticks, MS, NET_MS};
use crate::engine::handler::{spec_turn, walkable, HandlerView, Turn, Walk};
use crate::engine::machine::{
    closed, opening_digest, opens, settled, widened, Accounts, DigestView, EngineView, Metered,
    SimEngine,
};
use crate::engine::mix::{clocks, MixView};
use crate::engine::obs::{read_out, spec_live};
use crate::engine::outcome::Outcome;
use crate::engine::request::{
    a_plan_alternates, a_plan_waits_briefly, alternates, spec_plan, Behavior, Phase, TENANT_COUNT,
    WHOLE_WEIGHT,
};
use crate::engine::rng::Rng;
use crate::engine::sim::{CpuRec, Hop, SimView, StationKind, Stats};
use crate::engine::stack::CORES;
use crate::engine::stations::{
    a_call_is_waited_for, adds_to, a_reading_moves_nobody, a_step_keeps_the_stations, a_step_only_adds, a_turn_keeps_the_stations, a_turn_only_adds, a_turn_stays_in_its_plan, client_placed,
    coherent, handler_placed, last_hop, live_partitions_the_requests,
    no_more_on_cores_than_there_are, others_stand, places, same_standing, stands_at,
    taking_in_keeps_the_stations, the_last_hop_ends_at_the_live_station, unhandled,
};
use crate::engine::tagged::{count_of, counted_is_there, without_takes_its_count, Tagged};

verus! {

/// Everything the readings have handed over, oldest first.
pub struct Told {
    pub departures: Seq<(u32, Outcome)>,
    pub latencies: Seq<(u32, Ticks)>,
    pub hops: Seq<Hop>,
}

/// An engine, the frame it is in, and every client and handler on its server.
pub struct World {
    pub engine: EngineView,
    pub digest: DigestView,
    pub clients: Map<u32, Client>,
    /// The work each client brings.
    pub plans: Map<u32, Seq<Phase>>,
    pub handlers: Map<u32, HandlerView>,
    pub told: Told,
}

/// What can happen.
pub enum Happening {
    /// A control is moved, or a gap drawn: something of the engine's own that moves nobody.
    Control { to: spec_fn(EngineView) -> EngineView },
    /// A request is sent by hand.
    Inject { now: Ticks, net: NetLegs },
    /// The lone stream sends what it has due.
    Arrival { t_end: Ticks, net: NetLegs },
    /// A tenant's stream sends, the earliest due.
    TenantArrival { t_end: Ticks, k: usize, at: Ticks, net: NetLegs },
    /// A client takes an event.
    Step { id: u32, event: Event, now: Ticks },
    /// The stack admits a request to its handler.
    TakeIn { id: u32, now: Ticks },
    /// A handler takes a turn.
    Turn { id: u32, turn: Turn, now: Ticks },
    /// A handler that is done ends.
    Vacate { id: u32 },
    /// A frame opens.
    OpenFrame,
    /// The world settles.
    Settle { now: Ticks, metered: Option<Metered> },
    /// A frame closes, and its reading is taken.
    CloseFrame {
        now: Ticks,
        accounts: Option<Accounts>,
        pct: Option<u32>,
        ceiling: Option<usize>,
    },
}

/// The world with the server's state put at `sim`.
pub open spec fn at_sim(w: World, sim: SimView) -> World {
    World { engine: EngineView { sim, ..w.engine }, ..w }
}

/// The world with one client more, landing at `at`, with the next id and the work drawn for it.
pub open spec fn with_client(w: World, at: Ticks, net: NetLegs, plan: Seq<Phase>) -> World {
    let id = w.engine.next_id;
    World {
        engine: EngineView { next_id: (id + 1) as u32, ..w.engine },
        clients: w.clients.insert(
            id,
            Client {
                id,
                enq_t: at,
                net,
                behavior: w.engine.behavior,
                uses_app_queue: w.engine.obs.layers.queue,
                leg: Leg::Unsent,
            },
        ),
        plans: w.plans.insert(id, plan),
        ..w
    }
}

/// The world once the lone sender has sent a request landing at `at`.
pub open spec fn solo_sent(w: World, at: Ticks, net: NetLegs) -> World {
    let (plan, state) = spec_plan(w.engine.rng.state, w.engine.cpu_only, WHOLE_WEIGHT);
    with_client(World { engine: EngineView { rng: Rng { state }, ..w.engine }, ..w }, at, net, plan)
}

/// The world once tenant `k` has sent a request landing at `at`.
pub open spec fn tenant_sent(w: World, k: usize, at: Ticks, net: NetLegs) -> World {
    match w.engine.tenants {
        Some(mix) => {
            let work = mix.streams[k as int].work;
            let (plan, state) = spec_plan(mix.rng.state, w.engine.cpu_only, work);
            let after = MixView {
                rng: Rng { state },
                whose: mix.whose.insert(w.engine.next_id, k),
                ..mix
            };
            with_client(
                World { engine: EngineView { tenants: Some(after), ..w.engine }, ..w },
                at,
                net,
                plan,
            )
        },
        None => w,
    }
}

/// A handler at the start of its work.
pub open spec fn fresh_handler(w: World, id: u32) -> HandlerView {
    HandlerView {
        id,
        phases: w.plans[id],
        at: 0,
        accept_in_phases: !w.clients[id].uses_app_queue,
        walk: Walk::Unstarted,
    }
}

/// The world once a client has taken an event.
pub open spec fn stepped(w: World, id: u32, event: Event, now: Ticks) -> World {
    let (c, sim, _) = spec_step(w.clients[id], w.engine.sim, event, now);
    World { clients: w.clients.insert(id, c), ..at_sim(w, sim) }
}

/// The world once the stack has admitted a request to its handler.
pub open spec fn taken_in(w: World, id: u32, now: Ticks) -> World {
    let h = fresh_handler(w, id);
    World {
        handlers: w.handlers.insert(id, h),
        ..at_sim(w, w.engine.sim.take_in(id, h.accept_in_phases, now))
    }
}

/// The world once a handler has taken a turn.
pub open spec fn turned(w: World, id: u32, turn: Turn, now: Ticks) -> World {
    let (h, sim, _) = spec_turn(w.handlers[id], w.engine.sim, turn, now);
    World { handlers: w.handlers.insert(id, h), ..at_sim(w, sim) }
}

/// The world once a handler has ended.
pub open spec fn vacated(w: World, id: u32) -> World {
    World { handlers: w.handlers.remove(id), ..at_sim(w, w.engine.sim.vacate(id)) }
}

/// What the readings have handed over, once this world's is taken.
pub open spec fn told_more(w: World) -> Told {
    Told {
        departures: w.told.departures + w.engine.sim.departures,
        latencies: w.told.latencies + w.engine.sim.latencies,
        hops: w.told.hops + w.engine.sim.hops,
    }
}

/// The world once something has happened in it.
#[verifier::opaque]
pub open spec fn next(w: World, h: Happening) -> World {
    match h {
        Happening::Control { to } => World { engine: to(w.engine), ..w },
        Happening::Inject { now, net } => solo_sent(w, (now + NET_MS * MS) as u64, net),
        Happening::Arrival { t_end, net } => match w.engine.arrivals.spec_due(t_end) {
            Some(at) => solo_sent(w, at, net),
            None => w,
        },
        Happening::TenantArrival { t_end, k, at, net } => tenant_sent(w, k, at, net),
        Happening::Step { id, event, now } => stepped(w, id, event, now),
        Happening::TakeIn { id, now } => taken_in(w, id, now),
        Happening::Turn { id, turn, now } => turned(w, id, turn, now),
        Happening::Vacate { id } => vacated(w, id),
        Happening::OpenFrame => World { digest: opening_digest(), ..w },
        Happening::Settle { now, metered } => World {
            engine: settled(w.engine, now, metered),
            digest: widened(w.digest, w.engine, now, metered),
            ..w
        },
        Happening::CloseFrame { now, accounts, pct, ceiling } => World {
            engine: closed(w.engine, w.digest, now, accounts, pct, ceiling),
            told: told_more(w),
            ..w
        },
    }
}

/// Whether a control keeps its hands off the requests: everyone stays where they are and was last
/// read to be, the ids go on from where they were, and the server behaves as it did.
pub open spec fn moves_nobody(e: EngineView, f: EngineView) -> bool {
    &&& f.obs.stats == e.obs.stats
    &&& f.obs.cpu == e.obs.cpu
    &&& f.next_id == e.next_id
    &&& f.behavior == e.behavior
    &&& f.sim == (SimView {
        response_timeout: f.sim.response_timeout,
        processing_timeout_enabled: f.sim.processing_timeout_enabled,
        io_speed: f.sim.io_speed,
        gate: f.sim.gate,
        ..e.sim
    })
}

/// Whether it can happen here. The runtime hands out no more cores than there are; the stack
/// takes in a request that waits for it, once; and it answers one whose handler is not running.
#[verifier::opaque]
pub open spec fn can(w: World, h: Happening) -> bool {
    match h {
        Happening::Control { to } => moves_nobody(w.engine, to(w.engine)),
        Happening::Inject { .. } => w.engine.next_id < u32::MAX,
        Happening::Arrival { .. } => w.engine.next_id < u32::MAX,
        Happening::TenantArrival { t_end, k, at, .. } => {
            &&& w.engine.next_id < u32::MAX
            &&& w.engine.tenants matches Some(mix) && k < TENANT_COUNT && is_earliest(
                clocks(mix.streams),
                t_end,
                k as int,
                at,
            )
        },
        Happening::Step { id, event, now } => {
            &&& w.clients.contains_key(id)
            &&& steppable(w.clients[id], w.engine.sim, event, now)
            &&& w.clients[id].leg is Called && (is_verdict(event) || event is Unready)
                ==> !w.handlers.contains_key(id)
        },
        Happening::TakeIn { id, .. } => {
            &&& w.clients.contains_key(id)
            &&& w.clients[id].leg is Called
            &&& !w.handlers.contains_key(id)
            &&& if w.clients[id].uses_app_queue {
                count_of(w.engine.sim.queue_stubs, id) == 1
            } else {
                count_of(w.engine.sim.syn_backlog, id) == 1
            }
        },
        Happening::Turn { id, turn, .. } => {
            &&& w.handlers.contains_key(id)
            &&& turn is Core ==> w.engine.sim.cpu.len() < CORES
        },
        Happening::Vacate { id } => w.handlers.contains_key(id) && w.handlers[id].walk is Done,
        _ => true,
    }
}

/// Whether the worlds are what these happenings made, one after another, and each could happen
/// where it did.
pub open spec fn runs(ws: Seq<World>, hs: Seq<Happening>) -> bool {
    &&& ws.len() == hs.len() + 1
    &&& forall|i: int|
        0 <= i < hs.len() ==> can(ws[i], #[trigger] hs[i]) && ws[i + 1] == next(ws[i], hs[i])
}

/// Whether a world is one nothing has happened in: a server with nothing on it, and nobody sent.
pub open spec fn opening(w: World) -> bool {
    &&& w.engine.sim == SimView::fresh(
        w.engine.sim.response_timeout,
        w.engine.sim.processing_timeout_enabled,
        w.engine.sim.io_speed,
        w.engine.sim.gate,
    )
    &&& w.engine.obs.stats == Stats::none()
    &&& w.engine.obs.cpu.len() == 0
    &&& w.engine.next_id == 0
    &&& w.clients == Map::<u32, Client>::empty()
    &&& w.plans == Map::<u32, Seq<Phase>>::empty()
    &&& w.handlers == Map::<u32, HandlerView>::empty()
    &&& w.told.departures.len() == 0 && w.told.latencies.len() == 0 && w.told.hops.len() == 0
}

// ----- one course of events is one run ---------------------------------------

/// Two engines that open alike and meet the same happenings are alike throughout, in their tallies
/// as in everything else.
pub proof fn identical_runs_are_identical(
    a: Seq<World>,
    b: Seq<World>,
    hs: Seq<Happening>,
    n: int,
)
    requires
        runs(a, hs),
        runs(b, hs),
        a[0] == b[0],
        0 <= n <= hs.len(),
    ensures
        a[n] == b[n],
        a[n].engine.sim.stats == b[n].engine.sim.stats,
        a[n].engine.obs.stats == b[n].engine.obs.stats,
    decreases n,
{
    if n > 0 {
        identical_runs_are_identical(a, b, hs, n - 1);
        assert(can(a[n - 1], hs[n - 1]) && can(b[n - 1], hs[n - 1]));
    }
}

/// The world an engine opens.
pub open spec fn opened(e: EngineView, digest: DigestView) -> World {
    World {
        engine: e,
        digest,
        clients: Map::empty(),
        plans: Map::empty(),
        handlers: Map::empty(),
        told: Told { departures: Seq::empty(), latencies: Seq::empty(), hops: Seq::empty() },
    }
}

/// An engine opens a world nothing has happened in, and two that open on the same seed and the
/// same settings open the same one.
pub proof fn engines_that_open_alike_are_alike(
    a: SimEngine,
    b: SimEngine,
    digest: DigestView,
    seed: u64,
    rate: u64,
    stage: PolicyStage,
    gate: Option<Gate>,
    cpu_only: bool,
    behavior: Behavior,
)
    requires
        opens(a, seed, rate, stage, gate, cpu_only, behavior),
        opens(b, seed, rate, stage, gate, cpu_only, behavior),
        a.speed == b.speed,
    ensures
        opening(opened(a@, digest)),
        opened(a@, digest) == opened(b@, digest),
        a.behavior == behavior,
{
    assert(a@ =~= b@);
}

// ----- everyone is somewhere, once -------------------------------------------

/// Whether a client is kept as it should be: under its own id, already handed out, with work it
/// can be given, and standing where its leg says.
pub open spec fn client_kept(w: World, id: u32) -> bool {
    let c = w.clients[id];
    &&& c.id == id
    &&& id < w.engine.next_id
    &&& client_placed(c, w.engine.sim)
    &&& c.leg is Called && !w.handlers.contains_key(id) ==> unhandled(w.engine.sim, id)
    &&& w.plans.contains_key(id)
    &&& alternates(w.plans[id])
    &&& forall|i: int|
        0 <= i < w.plans[id].len() ==> ((#[trigger] w.plans[id][i]) matches Phase::Io(d) ==> d * 20
            <= u64::MAX)
}

/// Whether a handler is kept as it should be: for a client in the stack's hands, at a place in its
/// plan it can be, and its request standing where its walk says.
pub open spec fn handler_kept(w: World, id: u32) -> bool {
    let h = w.handlers[id];
    &&& h.id == id
    &&& w.clients.contains_key(id) && w.clients[id].leg is Called
    &&& walkable(h)
    &&& alternates(h.phases)
    &&& h.walk is Asleep ==> h.phases[h.at] is Io
    &&& handler_placed(h, w.engine.sim)
}

/// A world in order: the server's state says one thing of each request, and it is what the clients
/// and handlers say.
pub open spec fn in_order(w: World) -> bool {
    &&& coherent(w.engine.sim)
    &&& forall|id: u32| #[trigger] w.clients.contains_key(id) ==> client_kept(w, id)
    &&& forall|id: u32| #[trigger] w.handlers.contains_key(id) ==> handler_kept(w, id)
    &&& forall|id: u32|
        !(#[trigger] w.clients.contains_key(id)) ==> places(w.engine.sim, id) == 0
}

/// A request hung on a core was last seen entering it.
proof fn hung_is_on_its_core(v: SimView, id: u32)
    requires
        coherent(v),
        count_of(v.cpu, id) == 1,
        forall|r: CpuRec| #[trigger] v.cpu.contains(r) && r.id == id ==> r.hung,
    ensures
        last_hop(v.hops, id) matches Some(station) ==> station is Cpu,
{
    counted_is_there(v.cpu, id);
    let r = choose|r: CpuRec| #[trigger] v.cpu.contains(r) && r.tag() == id;
    assert(v.cpu.contains(r) && r.id == id && r.kind() == StationKind::Cpu);
    assert(stands_at(v, id, StationKind::Cpu));
}

/// Nobody but `id` has moved, so everyone else is still where they were kept.
proof fn others_are_kept(w: World, v: World, id: u32)
    requires
        in_order(w),
        coherent(v.engine.sim),
        others_stand(w.engine.sim, v.engine.sim, id),
        v.engine.next_id >= w.engine.next_id,
        forall|o: u32| o != id ==> (#[trigger] v.clients.contains_key(o) <==> w.clients.contains_key(o)),
        forall|o: u32|
            o != id && #[trigger] w.clients.contains_key(o) ==> v.clients[o] == w.clients[o]
                && v.plans.contains_key(o) && v.plans[o] == w.plans[o],
        forall|o: u32|
            o != id ==> (#[trigger] v.handlers.contains_key(o) <==> w.handlers.contains_key(o)),
        forall|o: u32|
            o != id && #[trigger] w.handlers.contains_key(o) ==> v.handlers[o] == w.handlers[o],
    ensures
        forall|o: u32| o != id && #[trigger] v.clients.contains_key(o) ==> client_kept(v, o),
        forall|o: u32| o != id && #[trigger] v.handlers.contains_key(o) ==> handler_kept(v, o),
        forall|o: u32|
            o != id && !(#[trigger] v.clients.contains_key(o)) ==> places(v.engine.sim, o) == 0,
{
    let (a, b) = (w.engine.sim, v.engine.sim);
    assert forall|o: u32| o != id && #[trigger] v.clients.contains_key(o) implies client_kept(
        v,
        o,
    ) by {
        assert(same_standing(a, b, o));
        assert(w.clients.contains_key(o));
        assert(client_kept(w, o));
        let c = w.clients[o];
        if c.leg is Hung {
            assert forall|r: CpuRec| #[trigger] b.cpu.contains(r) && r.id == o implies r.slot
                == c.leg->slot && r.hung by {
                assert(a.cpu.contains(r));
            }
            hung_is_on_its_core(b, o);
        }
    }
    assert forall|o: u32| o != id && #[trigger] v.handlers.contains_key(o) implies handler_kept(
        v,
        o,
    ) by {
        assert(same_standing(a, b, o));
        assert(w.handlers.contains_key(o));
        assert(handler_kept(w, o));
        assert(v.clients.contains_key(o));
        let h = w.handlers[o];
        if h.walk is Accepting {
            assert forall|r: CpuRec| #[trigger] b.cpu.contains(r) && r.id == o implies r.slot
                == h.walk->slot by {
                assert(a.cpu.contains(r));
            }
        }
    }
    assert forall|o: u32| o != id && !(#[trigger] v.clients.contains_key(o)) implies places(b, o)
        == 0 by {
        assert(same_standing(a, b, o));
        assert(!w.clients.contains_key(o));
    }
}

/// Nobody at all has moved, so everyone is still where they were kept.
proof fn all_are_kept(w: World, v: World)
    requires
        in_order(w),
        coherent(v.engine.sim),
        forall|o: u32| #[trigger] same_standing(w.engine.sim, v.engine.sim, o),
        v.engine.next_id == w.engine.next_id,
        v.clients == w.clients,
        v.plans == w.plans,
        v.handlers == w.handlers,
    ensures
        in_order(v),
{
    assert forall|o: u32| #[trigger] w.clients.contains_key(o) implies w.plans.contains_key(o) by {
        assert(client_kept(w, o));
    }
    others_are_kept(w, v, 0);
    others_are_kept(w, v, 1);
}

/// The same records in the same places are the same standing.
proof fn same_records_stand_the_same(v: SimView, w: SimView)
    requires
        w.net_in == v.net_in,
        w.net_out == v.net_out,
        w.syn_backlog == v.syn_backlog,
        w.queue_stubs == v.queue_stubs,
        w.cpu == v.cpu,
        w.io == v.io,
        w.ready == v.ready,
        w.hops == v.hops,
        coherent(v),
    ensures
        coherent(w),
        forall|o: u32| #[trigger] same_standing(v, w, o),
        forall|o: u32| #[trigger] places(v, o) == places(w, o),
{
    assert forall|id: u32| #[trigger] places(w, id) <= 1 by {
        assert(places(v, id) <= 1);
    }
    assert forall|id: u32, kind: StationKind| #[trigger] stands_at(w, id, kind) implies (last_hop(
        w.hops,
        id,
    ) matches Some(station) ==> station.kind() == kind) by {
        assert(stands_at(v, id, kind));
    }
}

proof fn a_step_keeps_order(w: World, id: u32, event: Event, now: Ticks)
    requires
        in_order(w),
        w.clients.contains_key(id),
        steppable(w.clients[id], w.engine.sim, event, now),
        w.clients[id].leg is Called && (is_verdict(event) || event is Unready)
            ==> !w.handlers.contains_key(id),
    ensures
        in_order(stepped(w, id, event, now)),
{
    let c = w.clients[id];
    let v = w.engine.sim;
    assert(client_kept(w, id));
    a_step_keeps_the_stations(c, v, event, now);
    a_call_is_waited_for(c, v, event, now);
    let (d, sim, _) = spec_step(c, v, event, now);
    let after = stepped(w, id, event, now);
    assert forall|o: u32| #[trigger] w.clients.contains_key(o) implies w.plans.contains_key(o) by {
        assert(client_kept(w, o));
    }
    others_are_kept(w, after, id);
    assert(after.clients[id] == d);
    if w.handlers.contains_key(id) {
        assert(handler_kept(w, id));
    }
    assert(client_kept(after, id));
}

proof fn taking_in_keeps_order(w: World, id: u32, now: Ticks)
    requires
        in_order(w),
        w.clients.contains_key(id),
        w.clients[id].leg is Called,
        !w.handlers.contains_key(id),
        if w.clients[id].uses_app_queue {
            count_of(w.engine.sim.queue_stubs, id) == 1
        } else {
            count_of(w.engine.sim.syn_backlog, id) == 1
        },
    ensures
        in_order(taken_in(w, id, now)),
{
    let v = w.engine.sim;
    let h = fresh_handler(w, id);
    assert(client_kept(w, id));
    assert(places(v, id) <= 1);
    taking_in_keeps_the_stations(v, id, h.accept_in_phases, now);
    let after = taken_in(w, id, now);
    assert forall|o: u32| #[trigger] w.clients.contains_key(o) implies w.plans.contains_key(o) by {
        assert(client_kept(w, o));
    }
    others_are_kept(w, after, id);
    assert(handler_placed(h, after.engine.sim));
    assert(places(after.engine.sim, id) <= 1);
    assert(after.handlers[id] == h);
    assert(client_kept(after, id));
    assert(handler_kept(after, id));
}

proof fn a_turn_keeps_order(w: World, id: u32, turn: Turn, now: Ticks)
    requires
        in_order(w),
        w.handlers.contains_key(id),
        turn is Core ==> w.engine.sim.cpu.len() < CORES,
    ensures
        in_order(turned(w, id, turn, now)),
{
    let v = w.engine.sim;
    let h = w.handlers[id];
    assert(handler_kept(w, id));
    assert(client_kept(w, id));
    a_turn_keeps_the_stations(h, v, turn, now);
    a_turn_stays_in_its_plan(h, v, turn, now);
    let (g, sim, _) = spec_turn(h, v, turn, now);
    let after = turned(w, id, turn, now);
    assert forall|o: u32| #[trigger] w.clients.contains_key(o) implies w.plans.contains_key(o) by {
        assert(client_kept(w, o));
    }
    others_are_kept(w, after, id);
    assert(places(sim, id) <= 1);
    assert(after.handlers[id] == g);
    assert(client_kept(after, id));
    assert(handler_kept(after, id));
}

proof fn vacating_keeps_order(w: World, id: u32)
    requires
        in_order(w),
        w.handlers.contains_key(id),
        w.handlers[id].walk is Done,
    ensures
        in_order(vacated(w, id)),
{
    let v = w.engine.sim;
    let after = vacated(w, id);
    assert(handler_kept(w, id));
    assert(client_kept(w, id));
    same_records_stand_the_same(v, after.engine.sim);
    assert forall|o: u32| #[trigger] w.clients.contains_key(o) implies w.plans.contains_key(o) by {
        assert(client_kept(w, o));
    }
    others_are_kept(w, after, id);
    assert(same_standing(v, after.engine.sim, id));
    assert(client_kept(after, id));
}

proof fn a_client_more_keeps_order(w: World, u: World, at: Ticks, net: NetLegs, plan: Seq<Phase>)
    requires
        in_order(w),
        w.engine.next_id < u32::MAX,
        u.engine.sim == w.engine.sim,
        u.engine.next_id == w.engine.next_id,
        u.clients == w.clients && u.plans == w.plans && u.handlers == w.handlers,
        alternates(plan),
        forall|i: int|
            0 <= i < plan.len() ==> ((#[trigger] plan[i]) matches Phase::Io(d) ==> d * 20
                <= u64::MAX),
    ensures
        in_order(with_client(u, at, net, plan)),
{
    let id = w.engine.next_id;
    let v = w.engine.sim;
    let after = with_client(u, at, net, plan);
    if w.clients.contains_key(id) {
        assert(client_kept(w, id));
    }
    if w.handlers.contains_key(id) {
        assert(handler_kept(w, id));
    }
    same_records_stand_the_same(v, after.engine.sim);
    assert forall|o: u32| #[trigger] w.clients.contains_key(o) implies w.plans.contains_key(o) by {
        assert(client_kept(w, o));
    }
    others_are_kept(w, after, id);
    assert(places(v, id) == 0);
    assert(after.clients[id].leg is Unsent);
    assert(client_kept(after, id));
}

/// Whatever can happen keeps a world in order.
pub proof fn whatever_happens_keeps_order(w: World, h: Happening)
    requires
        in_order(w),
        can(w, h),
    ensures
        in_order(next(w, h)),
{
    reveal(next);
    reveal(can);
    match h {
        Happening::Control { to } => {
            let after = World { engine: to(w.engine), ..w };
            same_records_stand_the_same(w.engine.sim, after.engine.sim);
            all_are_kept(w, after);
        },
        Happening::Inject { now, net } => {
            solo_keeps_order(w, (now + NET_MS * MS) as u64, net);
        },
        Happening::Arrival { t_end, net } => {
            if let Some(at) = w.engine.arrivals.spec_due(t_end) {
                solo_keeps_order(w, at, net);
            }
        },
        Happening::TenantArrival { t_end, k, at, net } => {
            let mix = w.engine.tenants->0;
            let work = mix.streams[k as int].work;
            a_plan_alternates(mix.rng.state, w.engine.cpu_only, work);
            a_plan_waits_briefly(mix.rng.state, w.engine.cpu_only, work);
            let (plan, state) = spec_plan(mix.rng.state, w.engine.cpu_only, work);
            let after = MixView {
                rng: Rng { state },
                whose: mix.whose.insert(w.engine.next_id, k),
                ..mix
            };
            let u = World { engine: EngineView { tenants: Some(after), ..w.engine }, ..w };
            a_client_more_keeps_order(w, u, at, net, plan);
        },
        Happening::Step { id, event, now } => {
            a_step_keeps_order(w, id, event, now);
        },
        Happening::TakeIn { id, now } => {
            taking_in_keeps_order(w, id, now);
        },
        Happening::Turn { id, turn, now } => {
            a_turn_keeps_order(w, id, turn, now);
        },
        Happening::Vacate { id } => {
            vacating_keeps_order(w, id);
        },
        Happening::OpenFrame => {
            let after = World { digest: opening_digest(), ..w };
            same_records_stand_the_same(w.engine.sim, after.engine.sim);
            all_are_kept(w, after);
        },
        Happening::Settle { now, metered } => {
            let after = next(w, h);
            same_records_stand_the_same(w.engine.sim, after.engine.sim);
            all_are_kept(w, after);
        },
        Happening::CloseFrame { now, accounts, pct, ceiling } => {
            let after = next(w, h);
            a_reading_moves_nobody(w.engine.sim, now);
            all_are_kept(w, after);
        },
    }
}

proof fn solo_keeps_order(w: World, at: Ticks, net: NetLegs)
    requires
        in_order(w),
        w.engine.next_id < u32::MAX,
    ensures
        in_order(solo_sent(w, at, net)),
{
    let e = w.engine;
    a_plan_alternates(e.rng.state, e.cpu_only, WHOLE_WEIGHT);
    a_plan_waits_briefly(e.rng.state, e.cpu_only, WHOLE_WEIGHT);
    let (plan, state) = spec_plan(e.rng.state, e.cpu_only, WHOLE_WEIGHT);
    let u = World { engine: EngineView { rng: Rng { state }, ..e }, ..w };
    a_client_more_keeps_order(w, u, at, net, plan);
}

/// From a server with nothing on it, however the run goes, every request stands in one place, on a
/// core nobody else holds; and each reading finds everyone once, at the station the last hop it
/// hands over says, and counts them by where they stand.
pub proof fn everyone_is_somewhere_once(ws: Seq<World>, hs: Seq<Happening>, n: int)
    requires
        runs(ws, hs),
        opening(ws[0]),
        0 <= n <= hs.len(),
    ensures
        in_order(ws[n]),
        coherent(ws[n].engine.sim),
        ws[n].engine.sim.cpu.len() <= CORES,
        n < hs.len() && hs[n] is CloseFrame ==> ({
            let o = ws[n + 1].engine.obs;
            &&& o.live.len() == o.syn_backlog.len() + o.queue_stubs.len() + o.ready.len()
                + o.cpu.len() + o.io_sleeping + o.net_in + o.net_out
            &&& forall|i: int, j: int|
                0 <= i < o.live.len() && 0 <= j < o.live.len() && (#[trigger] o.live[i]).0 == (
                #[trigger] o.live[j]).0 ==> i == j
            &&& forall|i: int|
                0 <= i < o.live.len() ==> (last_hop(o.hops, (#[trigger] o.live[i]).0) matches Some(
                    station,
                ) ==> station.kind() == o.live[i].1.kind())
        }),
    decreases n,
{
    if n == 0 {
        opening_is_in_order(ws[0]);
    } else {
        everyone_is_somewhere_once(ws, hs, n - 1);
        assert(can(ws[n - 1], hs[n - 1]));
        whatever_happens_keeps_order(ws[n - 1], hs[n - 1]);
    }
    let v = ws[n].engine.sim;
    no_more_on_cores_than_there_are(v);
    if n < hs.len() && hs[n] is CloseFrame {
        assert(can(ws[n], hs[n]));
        let now = hs[n]->CloseFrame_now;
        closing(ws[n], hs[n]);
        live_partitions_the_requests(v, now);
        the_last_hop_ends_at_the_live_station(v, now);
    }
}

/// Whether a world's last reading was taken of `v`.
pub open spec fn a_reading_of(w: World, v: SimView, now: Ticks) -> bool {
    let o = w.engine.obs;
    &&& o.syn_backlog == v.syn_backlog && o.queue_stubs == v.queue_stubs && o.ready == v.ready
    &&& o.cpu.len() == v.cpu.len() && o.io_sleeping == v.io.len()
    &&& o.net_in == v.net_in.len() && o.net_out == v.net_out.len()
    &&& o.live == spec_live(v, now)
    &&& o.hops == v.hops && o.departures == v.departures && o.latencies == v.latencies
    &&& o.stats == v.stats
}

/// A frame closes on a reading of where everyone stands, and hands the record over.
proof fn closing(w: World, h: Happening)
    requires
        h is CloseFrame,
    ensures
        a_reading_of(next(w, h), w.engine.sim, h->CloseFrame_now),
        next(w, h).engine.sim == read_out(w.engine.sim, h->CloseFrame_now),
        next(w, h).told == told_more(w),
        next(w, h).clients == w.clients,
        next(w, h).handlers == w.handlers,
        next(w, h).engine.behavior == w.engine.behavior,
        next(w, h).engine.next_id == w.engine.next_id,
{
    reveal(next);
}

proof fn opening_is_in_order(w: World)
    requires
        opening(w),
    ensures
        in_order(w),
{
    let v = w.engine.sim;
    crate::engine::stations::a_fresh_server_is_coherent(
        v.response_timeout,
        v.processing_timeout_enabled,
        v.io_speed,
        v.gate,
    );
}

// ----- everything is told once -----------------------------------------------

/// Whether everything the readings have handed over, and what the next one will, has only been
/// added to.
pub open spec fn tells_more(w: World, v: World) -> bool {
    let (a, b) = (told_more(w), told_more(v));
    &&& a.departures.is_prefix_of(b.departures)
    &&& a.latencies.is_prefix_of(b.latencies)
    &&& a.hops.is_prefix_of(b.hops)
}

proof fn prefixes_stay_prefixes<A>(front: Seq<A>, a: Seq<A>, b: Seq<A>)
    requires
        a.is_prefix_of(b),
    ensures
        (front + a).is_prefix_of(front + b),
{
    assert((front + b).subrange(0, (front + a).len() as int) =~= front + a);
}

proof fn adding_tells_more(w: World, v: World)
    requires
        adds_to(w.engine.sim, v.engine.sim),
        v.told == w.told,
    ensures
        tells_more(w, v),
{
    prefixes_stay_prefixes(w.told.departures, w.engine.sim.departures, v.engine.sim.departures);
    prefixes_stay_prefixes(w.told.latencies, w.engine.sim.latencies, v.engine.sim.latencies);
    prefixes_stay_prefixes(w.told.hops, w.engine.sim.hops, v.engine.sim.hops);
}

/// Whether nothing is put on the record here, nor taken off it.
pub open spec fn same_record(w: World, v: World) -> bool {
    &&& v.engine.sim.departures == w.engine.sim.departures
    &&& v.engine.sim.latencies == w.engine.sim.latencies
    &&& v.engine.sim.hops == w.engine.sim.hops
    &&& v.told == w.told
}

proof fn the_rest_goes_unrecorded(w: World, h: Happening)
    requires
        can(w, h),
        !(h is Step || h is TakeIn || h is Turn || h is CloseFrame),
    ensures
        same_record(w, next(w, h)),
{
    reveal(next);
    reveal(can);
    match h {
        Happening::Control { to } => {},
        Happening::Inject { now, net } => {},
        Happening::Arrival { t_end, net } => {},
        Happening::TenantArrival { t_end, k, at, net } => {},
        Happening::Vacate { id } => {},
        Happening::OpenFrame => {},
        Happening::Settle { now, metered } => {},
        _ => {},
    }
}

proof fn a_step_is_recorded(w: World, id: u32, event: Event, now: Ticks)
    ensures
        tells_more(w, stepped(w, id, event, now)),
        stepped(w, id, event, now).told == w.told,
{
    a_step_only_adds(w.clients[id], w.engine.sim, event, now);
    adding_tells_more(w, stepped(w, id, event, now));
}

proof fn a_turn_is_recorded(w: World, id: u32, turn: Turn, now: Ticks)
    ensures
        tells_more(w, turned(w, id, turn, now)),
        turned(w, id, turn, now).told == w.told,
{
    a_turn_only_adds(w.handlers[id], w.engine.sim, turn, now);
    adding_tells_more(w, turned(w, id, turn, now));
}

proof fn taking_in_is_recorded(w: World, id: u32, now: Ticks)
    ensures
        tells_more(w, taken_in(w, id, now)),
        taken_in(w, id, now).told == w.told,
{
    a_turn_only_adds(fresh_handler(w, id), w.engine.sim, Turn::Begin, now);
    adding_tells_more(w, taken_in(w, id, now));
}

proof fn a_reading_is_recorded(w: World, v: World)
    requires
        v.told == told_more(w),
        v.engine.sim.departures.len() == 0,
        v.engine.sim.latencies.len() == 0,
        v.engine.sim.hops.len() == 0,
    ensures
        tells_more(w, v),
{
    let (a, b) = (told_more(w), told_more(v));
    assert(b.departures.subrange(0, a.departures.len() as int) =~= a.departures);
    assert(b.latencies.subrange(0, a.latencies.len() as int) =~= a.latencies);
    assert(b.hops.subrange(0, a.hops.len() as int) =~= a.hops);
}

proof fn an_unchanged_record_tells_more(w: World, v: World)
    requires
        same_record(w, v),
    ensures
        tells_more(w, v),
{
    let a = told_more(w);
    assert(a.departures.subrange(0, a.departures.len() as int) =~= a.departures);
    assert(a.latencies.subrange(0, a.latencies.len() as int) =~= a.latencies);
    assert(a.hops.subrange(0, a.hops.len() as int) =~= a.hops);
}

/// A reading hands over every hop, departure and round trip since the last one and keeps none
/// back, so that the next hands over none of them again; and nothing else that happens takes
/// anything off the record.
pub proof fn everything_is_told_once(w: World, h: Happening)
    requires
        can(w, h),
    ensures
        tells_more(w, next(w, h)),
        h is CloseFrame ==> ({
            let (v, o) = (next(w, h).engine.sim, next(w, h).engine.obs);
            &&& o.departures == w.engine.sim.departures && v.departures.len() == 0
            &&& o.latencies == w.engine.sim.latencies && v.latencies.len() == 0
            &&& o.hops == w.engine.sim.hops && v.hops.len() == 0
            &&& next(w, h).told == told_more(w)
        }),
        !(h is CloseFrame) ==> next(w, h).told == w.told,
{
    if h is CloseFrame {
        closing(w, h);
        a_reading_is_recorded(w, next(w, h));
    } else if let Happening::Step { id, event, now } = h {
        a_step_is_recorded(w, id, event, now);
        assert(next(w, h) == stepped(w, id, event, now)) by {
            reveal(next);
        }
    } else if let Happening::Turn { id, turn, now } = h {
        a_turn_is_recorded(w, id, turn, now);
        assert(next(w, h) == turned(w, id, turn, now)) by {
            reveal(next);
        }
    } else if let Happening::TakeIn { id, now } = h {
        taking_in_is_recorded(w, id, now);
        assert(next(w, h) == taken_in(w, id, now)) by {
            reveal(next);
        }
    } else {
        the_rest_goes_unrecorded(w, h);
        an_unchanged_record_tells_more(w, next(w, h));
    }
}

// ----- a bad server never replies --------------------------------------------

/// Whether a server never answers what it is sent: it accepts nothing, or hangs what it accepts.
pub open spec fn never_answers(b: Behavior) -> bool {
    b is NeverAccept || b is AcceptHang
}

/// How far a client of such a server can get.
pub open spec fn unanswered_leg(b: Behavior, leg: Leg) -> bool {
    match leg {
        Leg::Unsent | Leg::Sending | Leg::Inbound | Leg::Done => true,
        Leg::Ignored => b is NeverAccept,
        Leg::Racing | Leg::Hung { .. } => b is AcceptHang,
        _ => false,
    }
}

/// Whether a client has given up.
pub open spec fn gave_up(leg: Leg) -> bool {
    match leg {
        Leg::Done => true,
        Leg::Hung { counted, .. } => counted,
        _ => false,
    }
}

/// What one event does at such a server: it may be given up on, once, and never answers; a core is
/// never taken by the one kind, and never given back by the other.
proof fn a_bad_step_answers_nobody(c: Client, v: SimView, event: Event, now: Ticks)
    requires
        never_answers(c.behavior),
        unanswered_leg(c.behavior, c.leg),
        client_placed(c, v),
        steppable(c, v, event, now),
    ensures
        ({
            let (d, w, _) = spec_step(c, v, event, now);
            &&& d.id == c.id && d.behavior == c.behavior
            &&& unanswered_leg(d.behavior, d.leg)
            &&& gave_up(c.leg) ==> gave_up(d.leg)
            &&& w.stats.success == v.stats.success
            &&& w.departures == v.departures || (w.departures == v.departures.push(
                (c.id, Outcome::ResponseTimeout),
            ) && !gave_up(c.leg) && gave_up(d.leg))
            &&& c.behavior is NeverAccept ==> w.cpu == v.cpu
            &&& v.cpu.len() <= w.cpu.len()
        }),
{
    if c.leg is Hung {
        without_takes_its_count(v.cpu, c.id);
    }
}

/// Whether a departure is of a client that gave up.
pub open spec fn is_a_give_up(w: World, d: (u32, Outcome)) -> bool {
    &&& d.1 == Outcome::ResponseTimeout
    &&& w.clients.contains_key(d.0)
    &&& gave_up(w.clients[d.0].leg)
}

/// A world nothing has been answered in: every departure is of a client that gave up, each once.
pub open spec fn unanswered(w: World) -> bool {
    let gone = told_more(w).departures;
    let b = w.engine.behavior;
    &&& never_answers(b)
    &&& forall|id: u32| !(#[trigger] w.handlers.contains_key(id))
    &&& forall|id: u32| #[trigger]
        w.clients.contains_key(id) ==> w.clients[id].behavior == b && unanswered_leg(
            b,
            w.clients[id].leg,
        )
    &&& forall|i: int| 0 <= i < gone.len() ==> is_a_give_up(w, #[trigger] gone[i])
    &&& forall|i: int, j: int|
        0 <= i < j < gone.len() ==> (#[trigger] gone[i]).0 != (#[trigger] gone[j]).0
    &&& w.engine.sim.stats.success == 0
    &&& w.engine.obs.stats.success == 0
    &&& w.engine.obs.cpu.len() <= w.engine.sim.cpu.len()
    &&& b is NeverAccept ==> w.engine.sim.cpu.len() == 0
}

/// Whether no core has been given back, nor read to have been.
pub open spec fn frees_no_core(w: World, v: World) -> bool {
    &&& w.engine.sim.cpu.len() <= v.engine.sim.cpu.len()
    &&& w.engine.obs.cpu.len() <= v.engine.obs.cpu.len()
    &&& v.engine.behavior == w.engine.behavior
}

proof fn a_bad_step_stays_unanswered(w: World, id: u32, event: Event, now: Ticks)
    requires
        unanswered(w),
        in_order(w),
        w.clients.contains_key(id),
        steppable(w.clients[id], w.engine.sim, event, now),
    ensures
        unanswered(stepped(w, id, event, now)),
        frees_no_core(w, stepped(w, id, event, now)),
{
    let c = w.clients[id];
    let v = w.engine.sim;
    assert(client_kept(w, id));
    a_bad_step_answers_nobody(c, v, event, now);
    let (d, sim, _) = spec_step(c, v, event, now);
    let after = stepped(w, id, event, now);
    let (a, b) = (told_more(w).departures, told_more(after).departures);
    let more = (id, Outcome::ResponseTimeout);
    if sim.departures == v.departures {
        assert(b == a);
    } else {
        assert(b =~= a.push(more));
    }
    assert forall|i: int| 0 <= i < b.len() implies is_a_give_up(after, #[trigger] b[i]) by {
        if i < a.len() {
            assert(b[i] == a[i]);
            assert(is_a_give_up(w, a[i]));
        }
    }
    assert forall|i: int, j: int| 0 <= i < j < b.len() implies (#[trigger] b[i]).0 != (
    #[trigger] b[j]).0 by {
        assert(b[i] == a[i]);
        assert(is_a_give_up(w, a[i]));
        if j < a.len() {
            assert(b[j] == a[j]);
        }
    }
}

/// Whether two worlds differ in nothing an unanswered client would notice.
proof fn the_rest_stays_unanswered(w: World, v: World)
    requires
        unanswered(w),
        v.engine.behavior == w.engine.behavior,
        v.handlers == w.handlers,
        told_more(v).departures == told_more(w).departures,
        forall|id: u32| #[trigger]
            w.clients.contains_key(id) ==> v.clients.contains_key(id) && v.clients[id]
                == w.clients[id],
        forall|id: u32| #[trigger]
            v.clients.contains_key(id) && !w.clients.contains_key(id) ==> v.clients[id].behavior
                == w.engine.behavior && v.clients[id].leg is Unsent,
        v.engine.sim.stats == w.engine.sim.stats,
        v.engine.sim.cpu == w.engine.sim.cpu,
        (v.engine.obs.stats == w.engine.obs.stats && v.engine.obs.cpu == w.engine.obs.cpu) || (
        v.engine.obs.stats == w.engine.sim.stats && v.engine.obs.cpu.len()
            == w.engine.sim.cpu.len()),
    ensures
        unanswered(v),
        frees_no_core(w, v),
{
    let gone = told_more(w).departures;
    assert forall|i: int| 0 <= i < gone.len() implies is_a_give_up(v, #[trigger] gone[i]) by {
        assert(is_a_give_up(w, gone[i]));
        assert(w.clients.contains_key(gone[i].0));
    }
    assert forall|id: u32| #[trigger] v.clients.contains_key(id) implies v.clients[id].behavior
        == v.engine.behavior && unanswered_leg(v.engine.behavior, v.clients[id].leg) by {
        if w.clients.contains_key(id) {
            assert(v.clients[id] == w.clients[id]);
        }
    }
}

/// What happens beside the clients' own steps, at a server with no handlers.
proof fn the_rest_leaves_the_clients(w: World, h: Happening)
    requires
        can(w, h),
        in_order(w),
        !(h is Step || h is TakeIn || h is Turn || h is Vacate || h is CloseFrame),
    ensures
        ({
            let v = next(w, h);
            &&& v.engine.behavior == w.engine.behavior
            &&& v.handlers == w.handlers
            &&& v.engine.sim.stats == w.engine.sim.stats
            &&& v.engine.sim.cpu == w.engine.sim.cpu
            &&& v.engine.obs.stats == w.engine.obs.stats
            &&& v.engine.obs.cpu == w.engine.obs.cpu
            &&& forall|id: u32| #[trigger]
                w.clients.contains_key(id) ==> v.clients.contains_key(id) && v.clients[id]
                    == w.clients[id]
            &&& forall|id: u32| #[trigger]
                v.clients.contains_key(id) && !w.clients.contains_key(id) ==> v.clients[id].behavior
                    == w.engine.behavior && v.clients[id].leg is Unsent
        }),
{
    reveal(next);
    reveal(can);
    if w.clients.contains_key(w.engine.next_id) {
        assert(client_kept(w, w.engine.next_id));
    }
    match h {
        Happening::Control { to } => {},
        Happening::Inject { now, net } => {},
        Happening::Arrival { t_end, net } => {},
        Happening::TenantArrival { t_end, k, at, net } => {},
        Happening::OpenFrame => {},
        Happening::Settle { now, metered } => {},
        _ => {},
    }
}

proof fn whatever_happens_stays_unanswered(w: World, h: Happening)
    requires
        unanswered(w),
        in_order(w),
        can(w, h),
    ensures
        unanswered(next(w, h)),
        frees_no_core(w, next(w, h)),
{
    let v = next(w, h);
    if let Happening::Step { id, event, now } = h {
        assert(w.clients.contains_key(id) && steppable(w.clients[id], w.engine.sim, event, now)
            && next(w, h) == stepped(w, id, event, now)) by {
            reveal(next);
            reveal(can);
        }
        a_bad_step_stays_unanswered(w, id, event, now);
    } else if let Happening::TakeIn { id, now } = h {
        assert(w.clients.contains_key(id) && w.clients[id].leg is Called) by {
            reveal(can);
        }
    } else if let Happening::Turn { id, turn, now } = h {
        assert(w.handlers.contains_key(id)) by {
            reveal(can);
        }
    } else if let Happening::Vacate { id } = h {
        assert(w.handlers.contains_key(id)) by {
            reveal(can);
        }
    } else if h is CloseFrame {
        closing(w, h);
        assert(told_more(v).departures =~= told_more(w).departures);
        the_rest_stays_unanswered(w, v);
    } else {
        the_rest_leaves_the_clients(w, h);
        the_rest_goes_unrecorded(w, h);
        the_rest_stays_unanswered(w, v);
    }
}

/// A server that never answers never does, however long it runs and whatever it is sent: nothing
/// succeeds, every departure is of a client that gave up, and none gives up twice. One that
/// accepts nothing has no core busy.
pub proof fn bad_servers_never_reply(ws: Seq<World>, hs: Seq<Happening>, n: int)
    requires
        runs(ws, hs),
        opening(ws[0]),
        never_answers(ws[0].engine.behavior),
        0 <= n <= hs.len(),
    ensures
        ({
            let w = ws[n];
            let gone = w.told.departures + w.engine.sim.departures;
            &&& w.engine.behavior == ws[0].engine.behavior
            &&& w.engine.sim.stats.success == 0 && w.engine.obs.stats.success == 0
            &&& forall|i: int|
                0 <= i < gone.len() ==> (#[trigger] gone[i]).1 == Outcome::ResponseTimeout
            &&& forall|i: int, j: int|
                0 <= i < j < gone.len() ==> (#[trigger] gone[i]).0 != (#[trigger] gone[j]).0
            &&& w.engine.behavior is NeverAccept ==> w.engine.sim.cpu.len() == 0
                && w.engine.obs.cpu.len() == 0
            &&& w.engine.sim.cpu.len() <= CORES && w.engine.obs.cpu.len() <= CORES
        }),
        unanswered(ws[n]),
    decreases n,
{
    everyone_is_somewhere_once(ws, hs, n);
    if n > 0 {
        bad_servers_never_reply(ws, hs, n - 1);
        everyone_is_somewhere_once(ws, hs, n - 1);
        assert(can(ws[n - 1], hs[n - 1]));
        whatever_happens_stays_unanswered(ws[n - 1], hs[n - 1]);
    }
    let gone = told_more(ws[n]).departures;
    assert forall|i: int| 0 <= i < gone.len() implies (#[trigger] gone[i]).1
        == Outcome::ResponseTimeout by {
        assert(is_a_give_up(ws[n], gone[i]));
    }
}

/// A server that hangs what it accepts never gives a core back: as many are busy later as were
/// before, in its state and in its readings.
pub proof fn a_hung_core_is_never_given_back(
    ws: Seq<World>,
    hs: Seq<Happening>,
    m: int,
    n: int,
)
    requires
        runs(ws, hs),
        opening(ws[0]),
        never_answers(ws[0].engine.behavior),
        0 <= m <= n <= hs.len(),
    ensures
        ws[m].engine.sim.cpu.len() <= ws[n].engine.sim.cpu.len(),
        ws[m].engine.obs.cpu.len() <= ws[n].engine.obs.cpu.len(),
    decreases n,
{
    if m < n {
        a_hung_core_is_never_given_back(ws, hs, m, n - 1);
        bad_servers_never_reply(ws, hs, n - 1);
        assert(can(ws[n - 1], hs[n - 1]));
        everyone_is_somewhere_once(ws, hs, n - 1);
        whatever_happens_stays_unanswered(ws[n - 1], hs[n - 1]);
    }
}

} // verus!
