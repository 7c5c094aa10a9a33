//! Where every request stands. A request is in one place at a time, on a core nobody else holds,
//! and the last station it was seen entering is the one it is at.

use vstd::prelude::*;

use crate::engine::client::{is_verdict, spec_step, steppable, Client, Event, Leg};
use crate::engine::clock::Ticks;
use crate::engine::handler::{spec_turn, walkable, HandlerView, Turn, Walk};
use crate::engine::obs::{
    asleep_live, backlog_live, cores_live, inbound_live, outbound_live, queue_live, read_out,
    run_live, spec_live,
};
use crate::engine::outcome::Outcome;
use crate::engine::request::alternates;
use crate::engine::sim::{
    free_slot, taken, CpuRec, Hop, SimView, Station, StationKind,
};
use crate::engine::stack::CORES;
use crate::engine::tagged::{
    count_add, count_of, count_one, count_push, count_same, count_without, count_zero,
    counted_is_there, without_contains, Tagged,
};

verus! {

/// How many places a request is in.
pub open spec fn places(v: SimView, id: u32) -> nat {
    count_of(v.net_in, id) + count_of(v.net_out, id) + count_of(v.syn_backlog, id) + count_of(
        v.queue_stubs,
        id,
    ) + count_of(v.cpu, id) + count_of(v.io, id) + count_of(v.ready, id)
}

/// Every request is in one place at most.
pub open spec fn one_place(v: SimView) -> bool {
    forall|id: u32| #[trigger] places(v, id) <= 1
}

/// No two requests hold one core, and every core held is one there is.
pub open spec fn own_cores(v: SimView) -> bool {
    &&& forall|a: CpuRec, b: CpuRec|
        #![trigger v.cpu.contains(a), v.cpu.contains(b)]
        v.cpu.contains(a) && v.cpu.contains(b) && a.slot == b.slot ==> a.id == b.id
    &&& forall|a: CpuRec| #[trigger] v.cpu.contains(a) ==> a.slot < CORES
}

/// The station a request was last seen entering, of these hops.
pub open spec fn last_hop(hops: Seq<Hop>, id: u32) -> Option<Station>
    decreases hops.len(),
{
    if hops.len() == 0 {
        None
    } else if hops.last().id == id {
        Some(hops.last().station)
    } else {
        last_hop(hops.drop_last(), id)
    }
}

/// Whether a request is on a core at this kind of station.
pub open spec fn on_core(v: SimView, id: u32, kind: StationKind) -> bool {
    exists|c: CpuRec| #[trigger] v.cpu.contains(c) && c.id == id && c.kind() == kind
}

/// Whether a request stands at a station.
pub open spec fn stands_at(v: SimView, id: u32, kind: StationKind) -> bool {
    match kind {
        StationKind::NetworkIn => count_of(v.net_in, id) > 0,
        StationKind::NetworkOut => count_of(v.net_out, id) > 0,
        StationKind::SynBacklog => count_of(v.syn_backlog, id) > 0,
        StationKind::AppQueue => count_of(v.queue_stubs, id) > 0,
        StationKind::RunQueue => count_of(v.ready, id) > 0,
        StationKind::Io => count_of(v.io, id) > 0,
        StationKind::Accept => on_core(v, id, StationKind::Accept),
        StationKind::Cpu => on_core(v, id, StationKind::Cpu),
    }
}

/// Wherever a request stands, the last hop it made there says so.
pub open spec fn hops_agree(v: SimView) -> bool {
    forall|id: u32, kind: StationKind| #[trigger]
        stands_at(v, id, kind) ==> (last_hop(v.hops, id) matches Some(station) ==> station.kind()
            == kind)
}

/// A server's state says one thing about each request.
pub open spec fn coherent(v: SimView) -> bool {
    &&& one_place(v)
    &&& own_cores(v)
    &&& hops_agree(v)
}

/// A request stands in the two states at the same places, on the same core.
pub open spec fn same_standing(v: SimView, w: SimView, id: u32) -> bool {
    &&& count_of(v.net_in, id) == count_of(w.net_in, id)
    &&& count_of(v.net_out, id) == count_of(w.net_out, id)
    &&& count_of(v.syn_backlog, id) == count_of(w.syn_backlog, id)
    &&& count_of(v.queue_stubs, id) == count_of(w.queue_stubs, id)
    &&& count_of(v.cpu, id) == count_of(w.cpu, id)
    &&& count_of(v.io, id) == count_of(w.io, id)
    &&& count_of(v.ready, id) == count_of(w.ready, id)
    &&& forall|c: CpuRec| c.id == id ==> (#[trigger] v.cpu.contains(c) <==> w.cpu.contains(c))
}

/// Nobody but `id` has moved.
pub open spec fn others_stand(v: SimView, w: SimView, id: u32) -> bool {
    forall|other: u32| other != id ==> #[trigger] same_standing(v, w, other)
}

/// A fresh server is coherent.
pub proof fn a_fresh_server_is_coherent(
    response_timeout: Ticks,
    processing: bool,
    io_speed: u32,
    gate: crate::compose::Gate,
)
    ensures
        coherent(SimView::fresh(response_timeout, processing, io_speed, gate)),
{
}

/// A hop is the last one of whoever made it, and nobody else's.
pub broadcast proof fn last_hop_push(hops: Seq<Hop>, hop: Hop, id: u32)
    ensures
        #[trigger] last_hop(hops.push(hop), id) == (if hop.id == id {
            Some(hop.station)
        } else {
            last_hop(hops, id)
        }),
{
    assert(hops.push(hop).drop_last() =~= hops);
}

/// No more requests are on cores than there are cores.
pub proof fn no_more_on_cores_than_there_are(v: SimView)
    requires
        one_place(v),
        own_cores(v),
    ensures
        v.cpu.len() <= CORES,
{
    let slots = v.cpu.map_values(|c: CpuRec| c.slot as int);
    assert(slots.no_duplicates()) by {
        assert forall|i: int, j: int|
            0 <= i < slots.len() && 0 <= j < slots.len() && i != j implies slots[i] != slots[j] by {
            assert(v.cpu.contains(v.cpu[i]));
            assert(v.cpu.contains(v.cpu[j]));
            if slots[i] == slots[j] {
                assert(places(v, v.cpu[i].id) <= 1);
                count_one(v.cpu, i, j);
            }
        }
    }
    slots.unique_seq_to_set();
    let all = vstd::set_lib::set_int_range(0, CORES as int);
    vstd::set_lib::lemma_int_range(0, CORES as int);
    assert(slots.to_set().subset_of(all)) by {
        assert forall|s: int| slots.to_set().contains(s) implies all.contains(s) by {
            let i = choose|i: int| 0 <= i < slots.len() && slots[i] == s;
            assert(v.cpu.contains(v.cpu[i]));
        }
    }
    vstd::set_lib::lemma_len_subset(slots.to_set(), all);
}

/// A core that is free is nobody's.
proof fn a_free_core_is_nobodys(cpu: Seq<CpuRec>, slot: usize)
    requires
        !taken(cpu, slot),
    ensures
        forall|c: CpuRec| #[trigger] cpu.contains(c) ==> c.slot != slot,
{
    assert forall|c: CpuRec| #[trigger] cpu.contains(c) implies c.slot != slot by {
        let i = choose|i: int| 0 <= i < cpu.len() && cpu[i] == c;
        assert(cpu[i].slot == c.slot);
    }
}

// ----- the client's steps ----------------------------------------------------

/// Where a client's leg says its request is.
pub open spec fn client_placed(c: Client, v: SimView) -> bool {
    match c.leg {
        Leg::Unsent | Leg::Sending => places(v, c.id) == 0,
        Leg::Inbound => places(v, c.id) == 1 && count_of(v.net_in, c.id) == 1,
        Leg::Ignored | Leg::Racing => places(v, c.id) == 1 && count_of(v.syn_backlog, c.id) == 1,
        Leg::Hung { slot, .. } => {
            &&& places(v, c.id) == 1
            &&& count_of(v.cpu, c.id) == 1
            &&& forall|r: CpuRec| #[trigger]
                v.cpu.contains(r) && r.id == c.id ==> r.slot == slot && r.hung
            &&& slot < CORES
            &&& last_hop(v.hops, c.id) matches Some(station) ==> station is Cpu
        },
        Leg::Accepted => places(v, c.id) == 1 && count_of(v.ready, c.id) == 1,
        Leg::Accepting => places(v, c.id) == 1 && count_of(v.cpu, c.id) == 1,
        Leg::Called => places(v, c.id) <= 1,
        Leg::Returning { .. } => places(v, c.id) == 1 && count_of(v.net_out, c.id) == 1,
        Leg::Done => true,
    }
}

/// No handler is running the request: it waits to be taken in, or its work is over.
pub open spec fn unhandled(v: SimView, id: u32) -> bool {
    places(v, id) == count_of(v.queue_stubs, id) + count_of(v.syn_backlog, id)
}

proof fn one_place_after(v: SimView, w: SimView, id: u32)
    requires
        one_place(v),
        others_stand(v, w, id),
        places(w, id) <= 1,
    ensures
        one_place(w),
{
    assert forall|other: u32| #[trigger] places(w, other) <= 1 by {
        if other != id {
            assert(same_standing(v, w, other));
            assert(places(v, other) <= 1);
        }
    }
}

proof fn own_cores_after(v: SimView, w: SimView, id: u32)
    requires
        own_cores(v),
        others_stand(v, w, id),
        forall|a: CpuRec, b: CpuRec|
            #![trigger w.cpu.contains(a), w.cpu.contains(b)]
            w.cpu.contains(a) && a.id == id && w.cpu.contains(b) && b.id != id ==> a.slot != b.slot,
        forall|a: CpuRec| #[trigger] w.cpu.contains(a) && a.id == id ==> a.slot < CORES,
    ensures
        own_cores(w),
{
    assert forall|a: CpuRec| #[trigger] w.cpu.contains(a) implies a.slot < CORES by {
        if a.id != id {
            assert(same_standing(v, w, a.id));
            assert(v.cpu.contains(a));
        }
    }
    assert forall|a: CpuRec, b: CpuRec|
        #![trigger w.cpu.contains(a), w.cpu.contains(b)]
        w.cpu.contains(a) && w.cpu.contains(b) && a.slot == b.slot implies a.id == b.id by {
        if a.id != id && b.id != id {
            assert(same_standing(v, w, a.id));
            assert(same_standing(v, w, b.id));
            assert(v.cpu.contains(a) && v.cpu.contains(b));
        }
    }
}

proof fn hops_agree_after(v: SimView, w: SimView, id: u32)
    requires
        hops_agree(v),
        others_stand(v, w, id),
        forall|other: u32| other != id ==> #[trigger] last_hop(w.hops, other) == last_hop(v.hops, other),
        forall|kind: StationKind| #[trigger]
            stands_at(w, id, kind) ==> (last_hop(w.hops, id) matches Some(station) ==> station.kind()
                == kind),
    ensures
        hops_agree(w),
{
    assert forall|other: u32, kind: StationKind| #[trigger] stands_at(w, other, kind) implies (
    last_hop(w.hops, other) matches Some(station) ==> station.kind() == kind) by {
        if other != id {
            assert(same_standing(v, w, other));
            if kind is Accept || kind is Cpu {
                let c = choose|c: CpuRec| #[trigger]
                    w.cpu.contains(c) && c.id == other && c.kind() == kind;
                assert(v.cpu.contains(c));
            }
            assert(stands_at(v, other, kind));
        }
    }
}

/// A request with no record on a core is at no core station.
proof fn off_core(v: SimView, id: u32)
    requires
        count_of(v.cpu, id) == 0,
    ensures
        !on_core(v, id, StationKind::Accept),
        !on_core(v, id, StationKind::Cpu),
        forall|c: CpuRec| #[trigger] v.cpu.contains(c) ==> c.id != id,
{
    counted_is_there(v.cpu, id);
    assert forall|c: CpuRec| #[trigger] v.cpu.contains(c) implies c.id != id by {
        assert(c.tag() == c.id);
    }
}

/// A step keeps every request in one place, on its own core, at the station it was last seen
/// entering; leaves the client where its leg says; and moves nobody else.
pub proof fn a_step_keeps_the_stations(c: Client, v: SimView, event: Event, now: Ticks)
    requires
        coherent(v),
        client_placed(c, v),
        steppable(c, v, event, now),
        c.leg is Called && is_verdict(event) ==> unhandled(v, c.id),
    ensures
        ({
            let (d, w, _) = spec_step(c, v, event, now);
            &&& coherent(w)
            &&& client_placed(d, w)
            &&& others_stand(v, w, c.id)
        }),
{
    broadcast use {
        count_push,
        count_without,
        without_contains,
        last_hop_push,
        vstd::seq_lib::lemma_seq_contains_after_push,
    };

    let (d, w, _) = spec_step(c, v, event, now);
    let id = c.id;
    if event is Core {
        crate::engine::sim::free_slot_is_free(v.cpu);
        a_free_core_is_nobodys(v.cpu, free_slot(v.cpu));
    }
    if count_of(v.cpu, id) == 0 {
        off_core(v, id);
    }
    if count_of(w.cpu, id) == 0 {
        off_core(w, id);
    }
    assert(others_stand(v, w, id));
    assert(places(v, id) <= 1);
    assert(places(w, id) <= 1);
    one_place_after(v, w, id);
    if c.leg is Hung {
        counted_is_there(v.cpu, id);
        let held = choose|r: CpuRec| #[trigger] v.cpu.contains(r) && r.tag() == id;
        assert(v.cpu.contains(held));
    }
    own_cores_after(v, w, id);
    hops_agree_after(v, w, id);
}

/// A step keeps the client's name, its server and its door; a client that comes to be in the stack's
/// hands waits there to be taken in; and one that was, and still is, has not moved.
pub proof fn a_call_is_waited_for(c: Client, v: SimView, event: Event, now: Ticks)
    requires
        coherent(v),
        client_placed(c, v),
        steppable(c, v, event, now),
    ensures
        ({
            let (d, w, _) = spec_step(c, v, event, now);
            &&& d.id == c.id && d.behavior == c.behavior && d.uses_app_queue == c.uses_app_queue
            &&& d.leg is Called && !(c.leg is Called) ==> unhandled(w, c.id)
            &&& c.leg is Called && !is_verdict(event) && !(event is Unready) ==> d == c && w == v
            &&& c.leg is Called && d.leg is Called ==> d == c && w == v
        }),
{
    broadcast use {count_push, count_without};

}

/// A request leaves the machine exactly when it is tallied: departures and terminal tallies move
/// together, and no departure is ever taken back.
pub proof fn a_departure_is_a_tally(c: Client, v: SimView, event: Event, now: Ticks)
    requires
        steppable(c, v, event, now),
    ensures
        ({
            let (_, w, _) = spec_step(c, v, event, now);
            &&& w.stats.terminal() - v.stats.terminal() == w.departures.len() - v.departures.len()
            &&& v.departures.len() <= w.departures.len() <= v.departures.len() + 1
            &&& w.departures.take(v.departures.len() as int) =~= v.departures
            &&& w.departures.len() > v.departures.len() ==> w.departures.last().0 == c.id
        }),
{
}

/// Whether one state has everything on record that the other has, and perhaps more after it.
pub open spec fn adds_to(v: SimView, w: SimView) -> bool {
    &&& v.departures.is_prefix_of(w.departures)
    &&& v.latencies.is_prefix_of(w.latencies)
    &&& v.hops.is_prefix_of(w.hops)
}

/// A step takes nothing off the record: what came and went stays, and what is new comes after it.
pub proof fn a_step_only_adds(c: Client, v: SimView, event: Event, now: Ticks)
    ensures
        adds_to(v, spec_step(c, v, event, now).1),
{
    let w = spec_step(c, v, event, now).1;
    assert(w.departures.subrange(0, v.departures.len() as int) =~= v.departures);
    assert(w.latencies.subrange(0, v.latencies.len() as int) =~= v.latencies);
    assert(w.hops.subrange(0, v.hops.len() as int) =~= v.hops);
}

/// A verdict travels home before it is received. A reply sets off for the whole of its leg with
/// nothing received yet; whatever is received with a reply to send was on that leg; and the
/// client's own give-up is the one thing received where it was given.
pub proof fn a_reply_is_received_at_the_end_of_its_leg(
    c: Client,
    v: SimView,
    event: Event,
    now: Ticks,
)
    requires
        steppable(c, v, event, now),
    ensures
        ({
            let (d, w, ask) = spec_step(c, v, event, now);
            &&& d.leg is Returning && c.leg !is Returning ==> {
                &&& ask == crate::engine::client::Ask::Sleep(c.net.outbound)
                &&& w.net_out.last().flight == crate::engine::sim::Flight {
                    id: c.id,
                    lands: (now + c.net.outbound) as u64,
                    dur: c.net.outbound,
                }
                &&& w.departures == v.departures
            }
            &&& w.departures.len() > v.departures.len() && w.departures.last().1
                != Outcome::ResponseTimeout ==> c.leg is Returning && event is Woke
            &&& c.leg is Returning && event is Woke ==> w.departures == v.departures.push(
                (c.id, c.leg->answer.outcome),
            )
        }),
{
    crate::engine::outcome::a_verdict_sends_its_own_reply(
        crate::engine::client::served_outcome(v, crate::engine::client::round_trip(c, now)),
    );
    crate::engine::outcome::a_verdict_sends_its_own_reply(Outcome::QueueTimeout);
    crate::engine::outcome::a_verdict_sends_its_own_reply(Outcome::Rejected);
    crate::engine::outcome::a_verdict_sends_its_own_reply(Outcome::RateLimited);
}

// ----- the handler's turns ---------------------------------------------------

/// Where a handler's walk says its request is.
pub open spec fn handler_placed(h: HandlerView, v: SimView) -> bool {
    match h.walk {
        Walk::Unstarted | Walk::Waiting => {
            &&& places(v, h.id) == 1
            &&& if h.at == 0 && !h.accept_in_phases {
                count_of(v.queue_stubs, h.id) == 1
            } else {
                count_of(v.ready, h.id) == 1
            }
        },
        Walk::Accepting { slot } => {
            &&& places(v, h.id) == 1
            &&& count_of(v.cpu, h.id) == 1
            &&& forall|r: CpuRec| #[trigger]
                v.cpu.contains(r) && r.id == h.id ==> r.slot == slot
            &&& slot < CORES
        },
        Walk::Burst => places(v, h.id) == 1 && count_of(v.cpu, h.id) == 1,
        Walk::Asleep => places(v, h.id) == 1 && count_of(v.io, h.id) == 1,
        Walk::Done => places(v, h.id) == 0,
    }
}

/// A request the stack takes in is where its handler starts from, and nobody else moves.
pub proof fn taking_in_keeps_the_stations(v: SimView, id: u32, accept_in_phases: bool, now: Ticks)
    requires
        coherent(v),
        places(v, id) == 1,
        accept_in_phases ==> count_of(v.syn_backlog, id) == 1,
        !accept_in_phases ==> count_of(v.queue_stubs, id) == 1,
    ensures
        ({
            let w = v.take_in(id, accept_in_phases, now);
            &&& coherent(w)
            &&& others_stand(v, w, id)
            &&& forall|h: HandlerView|
                h.id == id && h.at == 0 && h.accept_in_phases == accept_in_phases && h.walk
                    is Unstarted ==> #[trigger] handler_placed(h, w)
        }),
{
    broadcast use {
        count_push,
        count_without,
        without_contains,
        last_hop_push,
        vstd::seq_lib::lemma_seq_contains_after_push,
    };

    let w = v.take_in(id, accept_in_phases, now);
    off_core(v, id);
    off_core(w, id);
    assert(others_stand(v, w, id));
    one_place_after(v, w, id);
    own_cores_after(v, w, id);
    if accept_in_phases {
        hops_agree_after(v, w, id);
    } else {
        assert forall|other: u32, kind: StationKind| #[trigger] stands_at(w, other, kind) implies (
        last_hop(w.hops, other) matches Some(station) ==> station.kind() == kind) by {
            assert(stands_at(v, other, kind));
        }
    }
}

/// A turn keeps every request in one place, on its own core, at the station it was last seen
/// entering; leaves the request where its handler's walk says; and moves nobody else.
pub proof fn a_turn_keeps_the_stations(h: HandlerView, v: SimView, turn: Turn, now: Ticks)
    requires
        coherent(v),
        handler_placed(h, v),
        walkable(h),
        alternates(h.phases),
        h.walk is Asleep ==> h.phases[h.at] is Io,
        turn is Core ==> v.cpu.len() < CORES,
    ensures
        ({
            let (g, w, _) = spec_turn(h, v, turn, now);
            &&& coherent(w)
            &&& handler_placed(g, w)
            &&& others_stand(v, w, h.id)
            &&& g.walk is Asleep ==> g.phases[g.at] is Io
        }),
{
    broadcast use {
        count_push,
        count_without,
        without_contains,
        last_hop_push,
        vstd::seq_lib::lemma_seq_contains_after_push,
    };

    let (g, w, _) = spec_turn(h, v, turn, now);
    let id = h.id;
    if turn is Core {
        crate::engine::sim::free_slot_is_free(v.cpu);
        a_free_core_is_nobodys(v.cpu, free_slot(v.cpu));
    }
    if count_of(v.cpu, id) == 0 {
        off_core(v, id);
    }
    if count_of(w.cpu, id) == 0 {
        off_core(w, id);
    }
    if h.walk is Burst {
        assert(h.phases[h.at] is Cpu <==> h.at % 2 == 0);
    }
    if h.walk is Asleep {
        assert(h.phases[h.at] is Cpu <==> h.at % 2 == 0);
    }
    if g.at < g.phases.len() {
        assert(g.phases[g.at] is Cpu <==> g.at % 2 == 0);
    }
    assert(others_stand(v, w, id));
    assert(places(v, id) <= 1);
    assert(places(w, id) <= 1);
    one_place_after(v, w, id);
    if h.walk is Accepting {
        counted_is_there(v.cpu, id);
        let held = choose|r: CpuRec| #[trigger] v.cpu.contains(r) && r.tag() == id;
        assert(v.cpu.contains(held));
    }
    own_cores_after(v, w, id);
    hops_agree_after(v, w, id);
}

/// A turn keeps the handler's name and its plan, and leaves it at a place in the plan it can be.
pub proof fn a_turn_stays_in_its_plan(h: HandlerView, v: SimView, turn: Turn, now: Ticks)
    requires
        walkable(h),
    ensures
        ({
            let (g, _, _) = spec_turn(h, v, turn, now);
            &&& walkable(g)
            &&& g.id == h.id && g.phases == h.phases && g.accept_in_phases == h.accept_in_phases
        }),
{
}

/// A turn takes nothing off the record, and neither does taking a request in.
pub proof fn a_turn_only_adds(h: HandlerView, v: SimView, turn: Turn, now: Ticks)
    ensures
        adds_to(v, spec_turn(h, v, turn, now).1),
        adds_to(v, v.take_in(h.id, h.accept_in_phases, now)),
{
    let w = spec_turn(h, v, turn, now).1;
    let u = v.take_in(h.id, h.accept_in_phases, now);
    assert(w.departures.subrange(0, v.departures.len() as int) =~= v.departures);
    assert(w.latencies.subrange(0, v.latencies.len() as int) =~= v.latencies);
    assert(w.hops.subrange(0, v.hops.len() as int) =~= v.hops);
    assert(u.departures.subrange(0, v.departures.len() as int) =~= v.departures);
    assert(u.latencies.subrange(0, v.latencies.len() as int) =~= v.latencies);
    assert(u.hops.subrange(0, v.hops.len() as int) =~= v.hops);
}

/// A handler never answers for its request: it neither tallies nor departs.
pub proof fn a_turn_decides_nothing(h: HandlerView, v: SimView, turn: Turn, now: Ticks)
    ensures
        spec_turn(h, v, turn, now).1.stats == v.stats,
        spec_turn(h, v, turn, now).1.departures == v.departures,
        spec_turn(h, v, turn, now).1.net_out == v.net_out,
{
}

// ----- the reading -----------------------------------------------------------

/// The requests of a reading, in its order.
pub open spec fn live_ids(live: Seq<(u32, Station)>) -> Seq<u32> {
    live.map_values(|p: (u32, Station)| p.0)
}

proof fn live_counts(v: SimView, now: Ticks, id: u32)
    ensures
        count_of(live_ids(spec_live(v, now)), id) == places(v, id),
{
    broadcast use count_add;

    let ids = live_ids(spec_live(v, now));
    let (a, b, c, d, e, f, g) = (
        live_ids(backlog_live(v)),
        live_ids(run_live(v)),
        live_ids(inbound_live(v, now)),
        live_ids(outbound_live(v, now)),
        live_ids(cores_live(v, now)),
        live_ids(queue_live(v, now)),
        live_ids(asleep_live(v, now)),
    );
    assert(ids =~= a + b + c + d + e + f + g);
    count_same(a, v.syn_backlog, id);
    count_same(b, v.ready, id);
    count_same(c, v.net_in, id);
    count_same(d, v.net_out, id);
    count_same(e, v.cpu, id);
    count_same(f, v.queue_stubs, id);
    count_same(g, v.io, id);
}

/// The reading is a partition: as many entries as there are records, every request once, and
/// everyone at the station they stand at.
pub proof fn live_partitions_the_requests(v: SimView, now: Ticks)
    requires
        one_place(v),
    ensures
        ({
            let live = spec_live(v, now);
            &&& live.len() == v.committed() + v.net_out.len()
            &&& forall|i: int, j: int|
                0 <= i < live.len() && 0 <= j < live.len() && (#[trigger] live[i]).0 == (
                #[trigger] live[j]).0 ==> i == j
            &&& forall|i: int|
                0 <= i < live.len() ==> stands_at(
                    v,
                    (#[trigger] live[i]).0,
                    live[i].1.kind(),
                )
        }),
{
    let live = spec_live(v, now);
    let ids = live_ids(live);
    assert forall|i: int, j: int|
        0 <= i < live.len() && 0 <= j < live.len() && (#[trigger] live[i]).0 == (
        #[trigger] live[j]).0 implies i == j by {
        assert(ids[i] == live[i].0 && ids[j] == live[j].0);
        live_counts(v, now, ids[i]);
        assert(places(v, ids[i]) <= 1);
        count_one(ids, i, j);
    }
    let n1 = v.syn_backlog.len() as int;
    let n2 = n1 + v.ready.len();
    let n3 = n2 + v.net_in.len();
    let n4 = n3 + v.net_out.len();
    let n5 = n4 + v.cpu.len();
    let n6 = n5 + v.queue_stubs.len();
    assert forall|i: int| 0 <= i < live.len() implies stands_at(
        v,
        (#[trigger] live[i]).0,
        live[i].1.kind(),
    ) by {
        if i < n1 {
            count_zero(v.syn_backlog, live[i].0);
            assert(v.syn_backlog[i].tag() == live[i].0);
        } else if i < n2 {
            count_zero(v.ready, live[i].0);
            assert(v.ready[i - n1].tag() == live[i].0);
        } else if i < n3 {
            count_zero(v.net_in, live[i].0);
            assert(v.net_in[i - n2].tag() == live[i].0);
        } else if i < n4 {
            count_zero(v.net_out, live[i].0);
            assert(v.net_out[i - n3].tag() == live[i].0);
        } else if i < n5 {
            let c = v.cpu[i - n4];
            assert(v.cpu.contains(c));
            assert(live[i].1.kind() == c.kind());
        } else if i < n6 {
            count_zero(v.queue_stubs, live[i].0);
            assert(v.queue_stubs[i - n5].tag() == live[i].0);
        } else {
            count_zero(v.io, live[i].0);
            assert(v.io[i - n6].tag() == live[i].0);
        }
    }
}

/// A request is in the reading exactly when it is somewhere in the machine or on its wires.
pub proof fn live_is_whoever_is_anywhere(v: SimView, now: Ticks, id: u32)
    ensures
        places(v, id) > 0 <==> exists|i: int|
            0 <= i < spec_live(v, now).len() && (#[trigger] spec_live(v, now)[i]).0 == id,
{
    let live = spec_live(v, now);
    let ids = live_ids(live);
    live_counts(v, now, id);
    count_zero(ids, id);
    if places(v, id) > 0 {
        let i = choose|i: int| 0 <= i < ids.len() && (#[trigger] ids[i]).tag() == id;
        assert(live[i].0 == id);
    }
    if exists|i: int| 0 <= i < live.len() && (#[trigger] live[i]).0 == id {
        let i = choose|i: int| 0 <= i < live.len() && (#[trigger] live[i]).0 == id;
        assert(ids[i].tag() == id);
    }
}

/// A request's last hop since the last reading ends at the station this one finds it at.
pub proof fn the_last_hop_ends_at_the_live_station(v: SimView, now: Ticks)
    requires
        coherent(v),
    ensures
        forall|i: int|
            0 <= i < spec_live(v, now).len() ==> (last_hop(
                v.hops,
                (#[trigger] spec_live(v, now)[i]).0,
            ) matches Some(station) ==> station.kind() == spec_live(v, now)[i].1.kind()),
{
    live_partitions_the_requests(v, now);
    let live = spec_live(v, now);
    assert forall|i: int| 0 <= i < live.len() implies (last_hop(
        v.hops,
        (#[trigger] live[i]).0,
    ) matches Some(station) ==> station.kind() == live[i].1.kind()) by {
        assert(stands_at(v, live[i].0, live[i].1.kind()));
    }
}

/// Taking a reading moves nobody, and the itinerary starts over in agreement with it.
pub proof fn a_reading_moves_nobody(v: SimView, now: Ticks)
    requires
        coherent(v),
    ensures
        coherent(read_out(v, now)),
        forall|id: u32| #[trigger] same_standing(v, read_out(v, now), id),
{
    let w = read_out(v, now);
    assert forall|id: u32| #[trigger] places(w, id) <= 1 by {
        assert(places(v, id) <= 1);
    }
}

} // verus!
