//! Reading a tenanted engine: what each tenant has on the wire, where its requests wait, and who
//! holds each core.

use vstd::prelude::*;

use crate::atoms::stage::Paint;
use crate::engine::clock::{Part, Ticks};
use crate::engine::machine::{spec_whose, SimEngine};
use crate::engine::obs::{spec_live, CpuTask};
use crate::engine::outcome::{lane_of, spec_lane_of, HOMEWARD};
use crate::engine::request::{spec_tenant, tenants, TENANT_COUNT};
use crate::engine::sim::{SimView, Station, Waiting};
use crate::order::{put_in_order, puts_in_order, Keyed};

verus! {

/// What each tenant has on the wire, both ways: the requests travelling out, and the verdicts on
/// their way home in each lane. A place is the fraction of the wire covered from the client's end.
pub struct OnTheWire {
    pub out: Vec<Vec<Part>>,
    pub home: Vec<Vec<Vec<Part>>>,
}

/// A leg's place on its wire, counted from the far end.
pub open spec fn spec_from_far(p: Part) -> Part {
    Part { done: (p.of - p.done) as u64, of: p.of }
}

/// Where tenant `k`'s outbound requests have got to, of the first `n` live.
pub open spec fn sent_by(live: Seq<(u32, Station)>, n: int, e: SimEngine, k: int) -> Seq<Part>
    decreases n,
{
    if n <= 0 {
        Seq::empty()
    } else {
        let before = sent_by(live, n - 1, e, k);
        match live[n - 1].1 {
            Station::NetworkIn { p, .. } => if spec_whose(e, live[n - 1].0) == Some(k as usize) {
                before.push(p)
            } else {
                before
            },
            _ => before,
        }
    }
}

/// Where tenant `k`'s verdicts riding lane `lane` have got to, of the first `n` live.
pub open spec fn riding(
    live: Seq<(u32, Station)>,
    n: int,
    e: SimEngine,
    k: int,
    lane: int,
) -> Seq<Part>
    decreases n,
{
    if n <= 0 {
        Seq::empty()
    } else {
        let before = riding(live, n - 1, e, k, lane);
        match live[n - 1].1 {
            Station::NetworkOut { p, reply } => if spec_whose(e, live[n - 1].0) == Some(k as usize)
                && spec_lane_of(reply.spec_outcome()) == Some(lane as nat) {
                before.push(spec_from_far(p))
            } else {
                before
            },
            _ => before,
        }
    }
}

/// Legs the engine placed: none of them past its end.
pub open spec fn legs_placed(live: Seq<(u32, Station)>) -> bool {
    forall|i: int|
        0 <= i < live.len() ==> match (#[trigger] live[i]).1 {
            Station::NetworkIn { p, .. } => p.wf(),
            Station::NetworkOut { p, .. } => p.wf(),
            _ => true,
        }
}

/// A reading places every leg within its wire.
pub proof fn a_reading_places_its_legs(v: SimView, now: Ticks)
    ensures
        legs_placed(spec_live(v, now)),
{
}

/// Where every leg in the machine has got to, by tenant. The wires are drawn from the client to
/// the server, so a reply that has covered some of its leg stands that far from the far end.
pub fn on_the_wire(engine: &SimEngine) -> (wire: OnTheWire)
    requires
        engine.wf(),
        legs_placed(engine.obs.live@),
    ensures
        wire.out@.len() == TENANT_COUNT,
        wire.home@.len() == TENANT_COUNT,
        forall|k: int|
            0 <= k < TENANT_COUNT ==> (#[trigger] wire.out@[k])@ == sent_by(
                engine.obs.live@,
                engine.obs.live@.len() as int,
                *engine,
                k,
            ),
        forall|k: int|
            0 <= k < TENANT_COUNT ==> (#[trigger] wire.home@[k])@.len() == HOMEWARD@.len(),
        forall|k: int, lane: int|
            0 <= k < TENANT_COUNT && 0 <= lane < HOMEWARD@.len() ==> (
            #[trigger] wire.home@[k]@[lane])@ == riding(
                engine.obs.live@,
                engine.obs.live@.len() as int,
                *engine,
                k,
                lane,
            ),
{
    let mut out: Vec<Vec<Part>> = Vec::new();
    let mut home: Vec<Vec<Vec<Part>>> = Vec::new();
    let ghost live = engine.obs.live@;
    let ghost n = live.len() as int;
    let mut k: usize = 0;
    while k < 3
        invariant
            k <= 3,
            engine.wf(),
            live == engine.obs.live@,
            n == live.len(),
            legs_placed(live),
            out@.len() == k,
            home@.len() == k,
            forall|t: int| 0 <= t < k ==> (#[trigger] out@[t])@ == sent_by(live, n, *engine, t),
            forall|t: int| 0 <= t < k ==> (#[trigger] home@[t])@.len() == HOMEWARD@.len(),
            forall|t: int, lane: int|
                0 <= t < k && 0 <= lane < HOMEWARD@.len() ==> (#[trigger] home@[t]@[lane])@
                    == riding(live, n, *engine, t, lane),
        decreases 3 - k,
    {
        out.push(outbound_of(engine, k));
        let mut lanes: Vec<Vec<Part>> = Vec::new();
        let mut lane: usize = 0;
        while lane < HOMEWARD.len()
            invariant
                lane <= HOMEWARD@.len(),
                k < 3,
                engine.wf(),
                live == engine.obs.live@,
                n == live.len(),
                legs_placed(live),
                lanes@.len() == lane,
                forall|l: int|
                    0 <= l < lane ==> (#[trigger] lanes@[l])@ == riding(
                        live,
                        n,
                        *engine,
                        k as int,
                        l,
                    ),
            decreases HOMEWARD@.len() - lane,
        {
            lanes.push(homeward_of(engine, k, lane));
            lane += 1;
        }
        home.push(lanes);
        k += 1;
    }
    OnTheWire { out, home }
}

/// Where tenant `k`'s outbound requests have got to.
fn outbound_of(engine: &SimEngine, k: usize) -> (places: Vec<Part>)
    requires
        engine.wf(),
    ensures
        places@ == sent_by(engine.obs.live@, engine.obs.live@.len() as int, *engine, k as int),
{
    let mut places: Vec<Part> = Vec::new();
    let mut i: usize = 0;
    while i < engine.obs.live.len()
        invariant
            i <= engine.obs.live@.len(),
            engine.wf(),
            places@ == sent_by(engine.obs.live@, i as int, *engine, k as int),
        decreases engine.obs.live@.len() - i,
    {
        let (id, station): (u32, Station) = engine.obs.live[i];
        match station {
            Station::NetworkIn { p, .. } => {
                let theirs: bool = match engine.whose(id) {
                    Some(t) => t == k,
                    None => false,
                };
                if theirs {
                    places.push(p);
                }
            },
            _ => {},
        }
        i += 1;
    }
    places
}

/// Where tenant `k`'s verdicts riding a lane have got to.
fn homeward_of(engine: &SimEngine, k: usize, lane: usize) -> (places: Vec<Part>)
    requires
        engine.wf(),
        legs_placed(engine.obs.live@),
    ensures
        places@ == riding(
            engine.obs.live@,
            engine.obs.live@.len() as int,
            *engine,
            k as int,
            lane as int,
        ),
{
    let mut places: Vec<Part> = Vec::new();
    let mut i: usize = 0;
    while i < engine.obs.live.len()
        invariant
            i <= engine.obs.live@.len(),
            engine.wf(),
            legs_placed(engine.obs.live@),
            places@ == riding(engine.obs.live@, i as int, *engine, k as int, lane as int),
        decreases engine.obs.live@.len() - i,
    {
        let (id, station): (u32, Station) = engine.obs.live[i];
        assert(engine.obs.live@[i as int].1 == station);
        match station {
            Station::NetworkOut { p, reply } => {
                let theirs: bool = match engine.whose(id) {
                    Some(t) => t == k,
                    None => false,
                };
                let here: bool = match lane_of(reply.outcome()) {
                    Some(l) => l == lane,
                    None => false,
                };
                if theirs && here {
                    places.push(Part { done: p.of - p.done, of: p.of });
                }
            },
            _ => {},
        }
        i += 1;
    }
    places
}

/// Where one tenant's requests are waiting on a server.
#[derive(Clone, Copy, PartialEq, Eq, Structural, Debug)]
pub struct TenantQueues {
    /// The kernel's accept queue.
    pub tcp: usize,
    /// The admission queue.
    pub app: usize,
    /// The runtime's run queue.
    pub run: usize,
}

/// How many of the first `n` waiting are tenant `k`'s.
pub open spec fn standing(ids: Seq<u32>, n: int, e: SimEngine, k: int) -> nat
    decreases n,
{
    if n <= 0 {
        0
    } else {
        standing(ids, n - 1, e, k) + if spec_whose(e, ids[n - 1]) == Some(k as usize) {
            1nat
        } else {
            0nat
        }
    }
}

/// The requests waiting in a queue.
pub open spec fn ids_of(queue: Seq<Waiting>) -> Seq<u32> {
    queue.map_values(|w: Waiting| w.id)
}

/// How many of the waiting are tenant `k`'s.
fn standing_in(engine: &SimEngine, ids: &Vec<u32>, k: usize) -> (count: usize)
    requires
        engine.wf(),
    ensures
        count as nat == standing(ids@, ids@.len() as int, *engine, k as int),
        count <= ids@.len(),
{
    let mut count: usize = 0;
    let mut i: usize = 0;
    while i < ids.len()
        invariant
            i <= ids@.len(),
            engine.wf(),
            count <= i,
            count as nat == standing(ids@, i as int, *engine, k as int),
        decreases ids@.len() - i,
    {
        let theirs: bool = match engine.whose(ids[i]) {
            Some(t) => t == k,
            None => false,
        };
        if theirs {
            count += 1;
        }
        i += 1;
    }
    count
}

/// The requests waiting in a queue.
fn waiting_ids(queue: &Vec<Waiting>) -> (ids: Vec<u32>)
    ensures
        ids@ == ids_of(queue@),
{
    let mut ids: Vec<u32> = Vec::new();
    let mut i: usize = 0;
    while i < queue.len()
        invariant
            i <= queue@.len(),
            ids@ == ids_of(queue@).take(i as int),
        decreases queue@.len() - i,
    {
        ids.push(queue[i].id);
        i += 1;
        assert(ids@ =~= ids_of(queue@).take(i as int));
    }
    assert(ids@ =~= ids_of(queue@));
    ids
}

/// The three queue depths of tenant `k`.
pub open spec fn spec_queues(e: SimEngine, k: int) -> TenantQueues {
    let (tcp, app, run) = (
        ids_of(e.obs.syn_backlog@),
        ids_of(e.obs.queue_stubs@),
        e.obs.ready@,
    );
    TenantQueues {
        tcp: standing(tcp, tcp.len() as int, e, k) as usize,
        app: standing(app, app.len() as int, e, k) as usize,
        run: standing(run, run.len() as int, e, k) as usize,
    }
}

/// The three queue depths, per tenant: the same queues a box shows, cut by who is standing in
/// them.
pub fn queues_by_tenant(engine: &SimEngine) -> (queues: Vec<TenantQueues>)
    requires
        engine.wf(),
    ensures
        queues@.len() == TENANT_COUNT,
        forall|k: int|
            0 <= k < TENANT_COUNT ==> #[trigger] queues@[k] == spec_queues(*engine, k),
{
    let tcp = waiting_ids(&engine.obs.syn_backlog);
    let app = waiting_ids(&engine.obs.queue_stubs);
    let mut queues: Vec<TenantQueues> = Vec::new();
    let mut k: usize = 0;
    while k < 3
        invariant
            k <= 3,
            engine.wf(),
            tcp@ == ids_of(engine.obs.syn_backlog@),
            app@ == ids_of(engine.obs.queue_stubs@),
            queues@.len() == k,
            forall|t: int| 0 <= t < k ==> #[trigger] queues@[t] == spec_queues(*engine, t),
        decreases 3 - k,
    {
        queues.push(
            TenantQueues {
                tcp: standing_in(engine, &tcp, k),
                app: standing_in(engine, &app, k),
                run: standing_in(engine, &engine.obs.ready, k),
            },
        );
        k += 1;
    }
    queues
}

/// Cut by tenant, a queue is the same queue: where every request in it is a tenant's, the depths
/// sum to the queue's own, and they never sum to more.
pub proof fn the_depths_sum_to_the_queue(ids: Seq<u32>, n: int, e: SimEngine)
    requires
        e.wf(),
        0 <= n <= ids.len(),
    ensures
        standing(ids, n, e, 0) + standing(ids, n, e, 1) + standing(ids, n, e, 2) <= n,
        (forall|i: int| 0 <= i < n ==> spec_whose(e, #[trigger] ids[i]) is Some) ==> standing(
            ids,
            n,
            e,
            0,
        ) + standing(ids, n, e, 1) + standing(ids, n, e, 2) == n,
    decreases n,
{
    if n > 0 {
        the_depths_sum_to_the_queue(ids, n - 1, e);
        let whose = spec_whose(e, ids[n - 1]);
        if whose is Some {
            assert(e.tenants->0.whose@.contains_key(ids[n - 1]));
        }
    }
}

/// A core somebody holds.
#[derive(Clone, Copy, PartialEq, Eq, Structural, Debug)]
pub struct Held {
    pub slot: usize,
    pub id: u32,
}

impl Keyed for Held {
    open spec fn key(self) -> int {
        self.slot * 0x1_0000_0000 + self.id
    }

    fn no_later(&self, other: &Self) -> (b: bool) {
        self.slot < other.slot || (self.slot == other.slot && self.id <= other.id)
    }
}

/// The cores held, of the first `n` bursts.
pub open spec fn held_of(cpu: Seq<CpuTask>, n: int) -> Seq<Held>
    decreases n,
{
    if n <= 0 {
        Seq::empty()
    } else {
        match cpu[n - 1].slot {
            Some(slot) => held_of(cpu, n - 1).push(Held { slot, id: cpu[n - 1].id }),
            None => held_of(cpu, n - 1),
        }
    }
}

/// The colour of a core: its tenant's, and the machine's own blue where it is nobody's.
pub open spec fn core_ink(e: SimEngine, id: u32) -> Paint {
    match spec_whose(e, id) {
        Some(k) => spec_tenant(k as int).tint,
        None => Paint::Blue,
    }
}

/// Who holds each busy core, in slot order: the colours the server box's pips wear.
pub fn core_ink_of(engine: &SimEngine) -> (ink: Vec<Paint>)
    requires
        engine.wf(),
    ensures
        exists|order: Seq<Held>|
            #![trigger puts_in_order(held_of(engine.obs.cpu@, engine.obs.cpu@.len() as int), order)]
            puts_in_order(held_of(engine.obs.cpu@, engine.obs.cpu@.len() as int), order)
                && ink@.len() == order.len() && (forall|i: int|
                0 <= i < order.len() ==> #[trigger] ink@[i] == core_ink(*engine, order[i].id)),
{
    let mut held: Vec<Held> = Vec::new();
    let mut i: usize = 0;
    while i < engine.obs.cpu.len()
        invariant
            i <= engine.obs.cpu@.len(),
            held@ == held_of(engine.obs.cpu@, i as int),
        decreases engine.obs.cpu@.len() - i,
    {
        match engine.obs.cpu[i].slot {
            Some(slot) => held.push(Held { slot, id: engine.obs.cpu[i].id }),
            None => {},
        }
        i += 1;
    }
    let order = put_in_order(&held);
    let table = tenants();
    let mut ink: Vec<Paint> = Vec::new();
    let mut j: usize = 0;
    while j < order.len()
        invariant
            j <= order@.len(),
            engine.wf(),
            forall|t: int| 0 <= t < TENANT_COUNT ==> #[trigger] table@[t] == spec_tenant(t),
            ink@.len() == j,
            forall|t: int| 0 <= t < j ==> #[trigger] ink@[t] == core_ink(*engine, order@[t].id),
        decreases order@.len() - j,
    {
        match engine.whose(order[j].id) {
            Some(k) => {
                assert(table@[k as int] == spec_tenant(k as int));
                ink.push(table[k].tint);
            },
            None => ink.push(Paint::Blue),
        }
        j += 1;
    }
    proof {
        let cpu = engine.obs.cpu@;
        assert(puts_in_order(held_of(cpu, cpu.len() as int), order@));
    }
    ink
}

/// A tenant is found on the wire out exactly where one of its requests is on it, as far along as
/// that request is.
pub proof fn a_tenants_sends_are_its_own(live: Seq<(u32, Station)>, n: int, e: SimEngine, k: int, x: Part)
    requires
        0 <= n <= live.len(),
    ensures
        sent_by(live, n, e, k).contains(x) <==> exists|i: int|
            0 <= i < n && ((#[trigger] live[i]).1 matches Station::NetworkIn { p, .. } && p == x)
                && spec_whose(e, live[i].0) == Some(k as usize),
    decreases n,
{
    if n > 0 {
        a_tenants_sends_are_its_own(live, n - 1, e, k, x);
        let before = sent_by(live, n - 1, e, k);
        let after = sent_by(live, n, e, k);
        if after.len() > before.len() {
            assert(after[before.len() as int] == after.last());
            assert forall|y: Part| before.contains(y) implies after.contains(y) by {
                let i = choose|i: int| 0 <= i < before.len() && before[i] == y;
                assert(after[i] == y);
            }
            if after.contains(x) && x != after.last() {
                let i = choose|i: int| 0 <= i < after.len() && after[i] == x;
                assert(before[i] == x);
            }
        }
        if exists|i: int|
            0 <= i < n && ((#[trigger] live[i]).1 matches Station::NetworkIn { p, .. } && p == x)
                && spec_whose(e, live[i].0) == Some(k as usize) {
            let i = choose|i: int|
                0 <= i < n && ((#[trigger] live[i]).1 matches Station::NetworkIn { p, .. } && p
                    == x) && spec_whose(e, live[i].0) == Some(k as usize);
            if i < n - 1 {
                assert(before.contains(x));
            }
        }
        if before.contains(x) {
            let i = choose|i: int|
                0 <= i < n - 1 && ((#[trigger] live[i]).1 matches Station::NetworkIn { p, .. } && p
                    == x) && spec_whose(e, live[i].0) == Some(k as usize);
            assert(0 <= i < n);
        }
    }
}

/// A verdict rides the lane of its own outcome, under its own tenant, as far from the server's end
/// as its leg is along.
pub proof fn a_tenants_verdicts_are_its_own(
    live: Seq<(u32, Station)>,
    n: int,
    e: SimEngine,
    k: int,
    lane: int,
    x: Part,
)
    requires
        0 <= n <= live.len(),
        0 <= lane,
    ensures
        riding(live, n, e, k, lane).contains(x) <==> exists|i: int|
            0 <= i < n && ((#[trigger] live[i]).1 matches Station::NetworkOut { p, reply } && x
                == spec_from_far(p) && spec_lane_of(reply.spec_outcome()) == Some(lane as nat))
                && spec_whose(e, live[i].0) == Some(k as usize),
    decreases n,
{
    if n > 0 {
        a_tenants_verdicts_are_its_own(live, n - 1, e, k, lane, x);
        let before = riding(live, n - 1, e, k, lane);
        let after = riding(live, n, e, k, lane);
        if after.len() > before.len() {
            assert(after[before.len() as int] == after.last());
            assert forall|y: Part| before.contains(y) implies after.contains(y) by {
                let i = choose|i: int| 0 <= i < before.len() && before[i] == y;
                assert(after[i] == y);
            }
            if after.contains(x) && x != after.last() {
                let i = choose|i: int| 0 <= i < after.len() && after[i] == x;
                assert(before[i] == x);
            }
        }
        if exists|i: int|
            0 <= i < n && ((#[trigger] live[i]).1 matches Station::NetworkOut { p, reply } && x
                == spec_from_far(p) && spec_lane_of(reply.spec_outcome()) == Some(lane as nat))
                && spec_whose(e, live[i].0) == Some(k as usize) {
            let i = choose|i: int|
                0 <= i < n && ((#[trigger] live[i]).1 matches Station::NetworkOut { p, reply } && x
                    == spec_from_far(p) && spec_lane_of(reply.spec_outcome()) == Some(lane as nat))
                    && spec_whose(e, live[i].0) == Some(k as usize);
            if i < n - 1 {
                assert(before.contains(x));
            }
        }
        if before.contains(x) {
            let i = choose|i: int|
                0 <= i < n - 1 && ((#[trigger] live[i]).1 matches Station::NetworkOut { p, reply }
                    && x == spec_from_far(p) && spec_lane_of(reply.spec_outcome()) == Some(
                    lane as nat,
                )) && spec_whose(e, live[i].0) == Some(k as usize);
            assert(0 <= i < n);
        }
    }
}

/// A place from the far end and the same place from the near end make the whole wire.
pub proof fn a_place_has_two_ends(p: Part)
    requires
        p.wf(),
    ensures
        spec_from_far(p).done + p.done == p.of,
        spec_from_far(p).of == p.of,
        spec_from_far(spec_from_far(p)) == p,
{
}

/// A core wears its holder's tenant's colour, and a holder who is nobody's the machine's own.
pub proof fn a_core_wears_its_tenants_colour(e: SimEngine, id: u32)
    ensures
        spec_whose(e, id) matches Some(k) ==> core_ink(e, id) == spec_tenant(k as int).tint,
        spec_whose(e, id) is None ==> core_ink(e, id) == Paint::Blue,
{
}

proof fn standing_is_a_count(ids: Seq<u32>, n: int, e: SimEngine, k: int)
    requires
        0 <= n <= ids.len(),
    ensures
        standing(ids, n, e, k) == ids.take(n).filter(
            |id: u32| spec_whose(e, id) == Some(k as usize),
        ).len(),
    decreases n,
{
    reveal(Seq::filter);
    if n > 0 {
        standing_is_a_count(ids, n - 1, e, k);
        assert(ids.take(n).drop_last() =~= ids.take(n - 1));
        assert(ids.take(n).last() == ids[n - 1]);
    } else {
        assert(ids.take(0) =~= Seq::empty());
    }
}

/// A tenant's depths are how many of its own requests stand in each queue: the kernel's, the
/// admission's and the runtime's.
pub proof fn a_tenants_depths_are_its_own(e: SimEngine, k: int)
    ensures
        ({
            let own = |id: u32| spec_whose(e, id) == Some(k as usize);
            let depths = spec_queues(e, k);
            let tcp = e.obs.syn_backlog@.map_values(|w: Waiting| w.id).filter(own).len();
            let app = e.obs.queue_stubs@.map_values(|w: Waiting| w.id).filter(own).len();
            let run = e.obs.ready@.filter(own).len();
            &&& tcp <= usize::MAX ==> depths.tcp == tcp
            &&& app <= usize::MAX ==> depths.app == app
            &&& run <= usize::MAX ==> depths.run == run
        }),
{
    let own = |id: u32| spec_whose(e, id) == Some(k as usize);
    let tcp = ids_of(e.obs.syn_backlog@);
    let app = ids_of(e.obs.queue_stubs@);
    let run = e.obs.ready@;
    standing_is_a_count(tcp, tcp.len() as int, e, k);
    standing_is_a_count(app, app.len() as int, e, k);
    standing_is_a_count(run, run.len() as int, e, k);
    assert(tcp.take(tcp.len() as int) =~= tcp);
    assert(app.take(app.len() as int) =~= app);
    assert(run.take(run.len() as int) =~= run);
}

/// The cores are coloured in the order of their slots, each by whoever holds it.
pub proof fn cores_are_coloured_in_slot_order(cpu: Seq<CpuTask>, order: Seq<Held>, i: int, j: int)
    requires
        puts_in_order(held_of(cpu, cpu.len() as int), order),
        0 <= i <= j < order.len(),
    ensures
        order[i].slot <= order[j].slot,
        exists|k: int|
            0 <= k < cpu.len() && (#[trigger] cpu[k]).slot == Some(order[i].slot) && cpu[k].id
                == order[i].id,
{
    assert(order[i].key() <= order[j].key());
    crate::order::order_keeps_the_readings(held_of(cpu, cpu.len() as int), order);
    assert(order.contains(order[i]));
    whoever_is_held_holds_a_core(cpu, cpu.len() as int, order[i]);
}

proof fn whoever_is_held_holds_a_core(cpu: Seq<CpuTask>, n: int, h: Held)
    requires
        0 <= n <= cpu.len(),
        held_of(cpu, n).contains(h),
    ensures
        exists|k: int|
            0 <= k < n && (#[trigger] cpu[k]).slot == Some(h.slot) && cpu[k].id == h.id,
    decreases n,
{
    if n > 0 {
        let before = held_of(cpu, n - 1);
        let i = choose|i: int| 0 <= i < held_of(cpu, n).len() && held_of(cpu, n)[i] == h;
        if i < before.len() {
            assert(before[i] == h);
            whoever_is_held_holds_a_core(cpu, n - 1, h);
            let k = choose|k: int|
                0 <= k < n - 1 && (#[trigger] cpu[k]).slot == Some(h.slot) && cpu[k].id == h.id;
            assert(0 <= k < n);
        } else {
            assert(cpu[n - 1].slot == Some(h.slot));
        }
    }
}

} // verus!
