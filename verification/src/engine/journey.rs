//! What a request's journey comes to: when it is sent, what its client is told, what is tallied of
//! it, and how its work is walked.

use vstd::prelude::*;

use crate::engine::client::{is_verdict, spec_step, steppable, Ask, Client, Event, Leg};
use crate::engine::clock::{Part, Ticks};
use crate::engine::handler::{spec_turn, stretched, walkable, HandlerView, Need, Turn, Walk};
use crate::engine::obs::{burst_part, spec_live, spec_remaining, spec_sparked, SparkPoint, SPARKS};
use crate::engine::outcome::{a_verdict_sends_its_own_reply, Outcome, Refusal};
use crate::engine::request::{Behavior, Phase};
use crate::engine::sim::{
    free_slot_is_free, lowest_free, CpuRec, Flight, SimView, Station, Stats, Waiting, ACCEPT_PHASE,
};
use crate::engine::stack::CORES;
use crate::engine::tagged::{count_of, count_without, Tagged};

verus! {

// ----- sent, and waited for --------------------------------------------------

/// A request sets off its inbound leg before it lands, or at once where there is less time than
/// that, and is on the wire until it does.
pub proof fn a_request_is_sent_a_leg_before_it_lands(c: Client, v: SimView, now: Ticks)
    ensures
        c.leg is Unsent ==> (spec_step(c, v, Event::Begin, now).2 matches Ask::Until(at) && (
        c.enq_t >= c.net.inbound ==> at + c.net.inbound == c.enq_t) && (c.enq_t < c.net.inbound
            ==> at == 0)),
        c.leg is Sending ==> {
            let (d, w, ask) = spec_step(c, v, Event::Woke, now);
            &&& d.leg is Inbound
            &&& ask == Ask::Until(c.enq_t)
            &&& w.net_in == v.net_in.push(
                Flight { id: c.id, lands: c.enq_t, dur: c.net.inbound },
            )
            &&& w.stats == v.stats
        },
{
}

/// What meets a request where it lands. A server that never accepts is waited on for the client's
/// whole patience, and one that hangs what it accepts until that patience ends; a healthy one sends
/// it to be accepted where there is a queue behind the door, and straight to the stack where there
/// is none.
pub proof fn a_landing_meets_its_server(c: Client, v: SimView, now: Ticks)
    requires
        c.leg is Inbound,
        steppable(c, v, Event::Woke, now),
    ensures
        ({
            let (d, w, ask) = spec_step(c, v, Event::Woke, now);
            &&& w.stats.arrived == v.stats.arrived + 1
            &&& c.behavior is NeverAccept ==> ask == Ask::Sleep(v.response_timeout) && d.leg
                is Ignored
            &&& c.behavior is AcceptHang ==> (ask matches Ask::CoreBefore(at) && at == c.enq_t
                + v.response_timeout) && d.leg is Racing
            &&& c.behavior is Good && c.uses_app_queue ==> ask == Ask::Core && w.ready
                == v.ready.push(c.id)
            &&& c.behavior is Good && !c.uses_app_queue ==> ask == (Ask::Call { release: false })
                && w.syn_backlog.last().id == c.id && w.syn_backlog.last().since == c.enq_t
        }),
{
}

/// A client that is never answered is told nothing, and is tallied as a give-up: once where its
/// patience ran out, and never again.
pub proof fn a_give_up_is_tallied_once(c: Client, v: SimView, event: Event, now: Ticks)
    requires
        steppable(c, v, event, now),
    ensures
        ({
            let (d, w, ask) = spec_step(c, v, event, now);
            let gave_up = v.departures.push((c.id, Outcome::ResponseTimeout));
            &&& c.leg is Ignored && event is Woke ==> ask == Ask::Finished(None) && w.departures
                == gave_up && d.leg is Done
            &&& c.leg is Racing && event is GaveUp ==> ask == Ask::Finished(None) && w.departures
                == gave_up && d.leg is Done
            &&& c.leg is Racing && event is Core ==> w.departures == v.departures
            &&& c.leg is Hung && event is Woke ==> {
                let owed = !c.leg->counted && now >= c.enq_t + v.response_timeout;
                &&& w.departures == if owed {
                    gave_up
                } else {
                    v.departures
                }
                &&& d.leg is Hung && d.leg->counted == (c.leg->counted || owed)
                &&& d.leg->slot == c.leg->slot
            }
            &&& c.leg is Done ==> w == v && d == c
        }),
{
}

// ----- told ------------------------------------------------------------------

/// What a client is told is what the stack decided. A request that was served was served in time or
/// too late, by the whole round trip from its send to its receipt: in time is a success; too late
/// is a processing timeout where those are reported, and otherwise a client that had stopped
/// waiting. A refusal is the refusal it was, and a request the stack lost is told nothing.
pub proof fn a_client_is_told_what_was_decided(c: Client, v: SimView, event: Event, now: Ticks)
    requires
        c.leg is Called,
        is_verdict(event),
        steppable(c, v, event, now),
    ensures
        ({
            let (d, w, ask) = spec_step(c, v, event, now);
            let trip = now - c.enq_t + c.net.inbound + c.net.outbound;
            let told = |o: Outcome|
                {
                    &&& d.leg is Returning
                    &&& d.leg->answer.outcome == o
                    &&& d.leg->answer.round_trip == trip
                    &&& ask == Ask::Sleep(c.net.outbound)
                    &&& w.departures == v.departures
                };
            &&& event == Event::Refused(Refusal::QueueTimeout) ==> told(Outcome::QueueTimeout)
            &&& event == Event::Refused(Refusal::Rejected) ==> told(Outcome::Rejected)
            &&& event == Event::Refused(Refusal::RateLimited) ==> told(Outcome::RateLimited)
            &&& event == Event::Refused(Refusal::Dropped) ==> d.leg is Done && ask
                == Ask::Finished(None) && w.departures == v.departures && w.stats == v.stats
            &&& event is Served && trip < v.response_timeout ==> told(Outcome::Success)
            &&& event is Served && trip >= v.response_timeout && v.processing_timeout_enabled
                ==> told(Outcome::ProcessingTimeout)
            &&& event is Served && trip >= v.response_timeout && !v.processing_timeout_enabled ==> {
                &&& d.leg is Done
                &&& w.departures == v.departures.push((c.id, Outcome::ResponseTimeout))
                &&& w.latencies.last().0 == c.id && w.latencies.last().1 == trip
            }
        }),
{
    a_verdict_sends_its_own_reply(Outcome::QueueTimeout);
    a_verdict_sends_its_own_reply(Outcome::Rejected);
    a_verdict_sends_its_own_reply(Outcome::RateLimited);
    a_verdict_sends_its_own_reply(Outcome::Success);
    a_verdict_sends_its_own_reply(Outcome::ProcessingTimeout);
    a_verdict_sends_its_own_reply(Outcome::ResponseTimeout);
}

/// The load reported alongside a verdict is the machine's own at that instant, without the request
/// it is reported to: what waits for admission or a worker, and what is on a core or asleep.
pub proof fn the_load_told_is_the_machines(c: Client, v: SimView, event: Event, now: Ticks)
    requires
        c.leg is Called,
        is_verdict(event),
        steppable(c, v, event, now),
    ensures
        ({
            let (d, w, _) = spec_step(c, v, event, now);
            &&& count_of(w.queue_stubs, c.id) == 0 && count_of(w.syn_backlog, c.id) == 0
            &&& d.leg is Returning ==> {
                let load = d.leg->answer.load;
                &&& load.queued == w.queue_stubs.len() + w.ready.len()
                &&& load.processed == w.cpu.len() + w.io.len()
            }
        }),
{
    broadcast use count_without;

    crate::engine::tagged::without_len(v.queue_stubs, c.id);
    crate::engine::tagged::without_len(v.syn_backlog, c.id);
}

/// What is received is what was sent home: the outcome and the round trip the verdict was given
/// with, however long the leg took.
pub proof fn what_is_received_is_what_was_sent(c: Client, v: SimView, now: Ticks)
    requires
        c.leg is Returning,
    ensures
        ({
            let (d, w, ask) = spec_step(c, v, Event::Woke, now);
            let answer = c.leg->answer;
            &&& ask == Ask::Finished(Some(answer))
            &&& d.leg is Done
            &&& w.departures == v.departures.push((c.id, answer.outcome))
            &&& w.latencies == v.latencies.push((c.id, answer.round_trip))
            &&& w.last_latency == Some(answer.round_trip)
            &&& count_of(w.net_out, c.id) == 0
        }),
{
    broadcast use count_without;

}

// ----- tallied ---------------------------------------------------------------

/// A departure is counted under its own outcome and under no other, and arrivals are not
/// departures.
pub proof fn a_departure_is_counted_under_its_own(s: Stats, o: Outcome)
    requires
        s.room(),
    ensures
        s.with(o).arrived == s.arrived,
        s.with(o).success - s.success == if o == Outcome::Success { 1int } else { 0 },
        s.with(o).queue_timeout - s.queue_timeout == if o == Outcome::QueueTimeout { 1int } else { 0 },
        s.with(o).rejected - s.rejected == if o == Outcome::Rejected { 1int } else { 0 },
        s.with(o).rate_limited - s.rate_limited == if o == Outcome::RateLimited { 1int } else { 0 },
        s.with(o).response_timeout - s.response_timeout == if o == Outcome::ResponseTimeout {
            1int
        } else {
            0
        },
        s.with(o).processing_timeout - s.processing_timeout == if o == Outcome::ProcessingTimeout {
            1int
        } else {
            0
        },
        s.landed() == (Stats { arrived: (s.arrived + 1) as u32, ..s }),
{
}

/// A step's tallies are its departures': whichever way the request left is counted once more, every
/// other tally stands, and only a landing is an arrival.
pub proof fn a_step_tallies_what_departs(c: Client, v: SimView, event: Event, now: Ticks)
    requires
        steppable(c, v, event, now),
    ensures
        ({
            let w = spec_step(c, v, event, now).1;
            let left = w.departures.len() > v.departures.len();
            &&& left ==> w.stats == v.stats.with(w.departures.last().1)
            &&& !left ==> w.stats == Stats { arrived: w.stats.arrived, ..v.stats }
            &&& w.stats.arrived - v.stats.arrived == if c.leg is Inbound && event is Woke {
                1int
            } else {
                0
            }
        }),
{
}

/// The rate windows are stamped with what their readouts count: a receipt is a completion where the
/// handler ran, a success where it ran in time, and otherwise the server turning somebody away.
pub proof fn a_receipt_is_stamped_once(c: Client, v: SimView, now: Ticks)
    requires
        c.leg is Returning,
    ensures
        ({
            let w = spec_step(c, v, Event::Woke, now).1;
            let o = c.leg->answer.outcome;
            let turned_away = o == Outcome::QueueTimeout || o == Outcome::Rejected || o
                == Outcome::RateLimited;
            &&& w.success_window == if o == Outcome::Success {
                v.success_window.push(now)
            } else {
                v.success_window
            }
            &&& w.done_window == if turned_away {
                v.done_window
            } else {
                v.done_window.push(now)
            }
            &&& w.timeout_window == if turned_away {
                v.timeout_window.push(now)
            } else {
                v.timeout_window
            }
        }),
{
}

/// What a box shows of a server is the server: its busy cores, each queue by its own length, all of
/// it and the wires in flight, and every departure under one of the four headings it draws.
pub proof fn a_box_shows_its_server(v: SimView, now: Ticks)
    requires
        v.countable(),
    ensures
        ({
            let c = v.counts();
            &&& c.busy == v.cpu.len()
            &&& c.tcp == v.syn_backlog.len() && c.req == v.queue_stubs.len() && c.run
                == v.ready.len()
            &&& c.inflight == spec_live(v, now).len()
            &&& c.inflight == c.busy + c.tcp + c.req + c.run + v.io.len() + v.net_in.len()
                + v.net_out.len()
            &&& c.success == v.stats.success && c.rate_limited == v.stats.rate_limited
            &&& c.retried + c.success + c.failed + c.rate_limited == v.stats.terminal()
            &&& c.retried == v.stats.queue_timeout + v.stats.rejected
        }),
{
}

/// The load a machine says splits what it has taken in: nothing on the wire, and everything else
/// either waiting or being worked on.
pub proof fn a_load_is_what_waits_and_what_is_worked_on(v: SimView)
    requires
        v.countable(),
    ensures
        v.reported().queued == v.queue_stubs.len() + v.ready.len(),
        v.reported().processed == v.cpu.len() + v.io.len(),
        v.committed_load().queued + v.committed_load().processed == v.committed(),
        v.committed_load().processed == v.reported().processed,
        v.committed() == spec_live(v, 0).len() - v.net_out.len(),
{
}

// ----- worked on -------------------------------------------------------------

/// A wait takes its own length at the baseline speed, and otherwise that length divided by the
/// speed, to the nearest tick: twice as long at half speed, and never slower than a twentieth.
pub proof fn a_wait_stretches_by_the_speed(d: Ticks, io_speed: u32)
    ensures
        stretched(d, 100) == d,
        io_speed >= 5 ==> 2 * stretched(d, io_speed) * io_speed <= 200 * d + io_speed,
        io_speed >= 5 ==> 200 * d < 2 * stretched(d, io_speed) * io_speed + 2 * io_speed,
        io_speed >= 5 ==> 200 * d <= 2 * stretched(d, io_speed) * io_speed + io_speed,
        io_speed < 5 ==> stretched(d, io_speed) == 20 * d,
{
    let speed = if io_speed < 5 {
        5int
    } else {
        io_speed as int
    };
    let x = d * 100 + speed / 2;
    let q = x / speed;
    vstd::arithmetic::div_mod::lemma_fundamental_div_mod(x, speed);
    assert(speed * q == q * speed) by (nonlinear_arith);
    assert(2 * q * speed == 2 * (q * speed)) by (nonlinear_arith);
    assert(x == q * speed + x % speed);
    assert(0 <= x % speed < speed);
}

/// A handler walks its plan one phase at a time, in order, and finishes at the end of it. What it
/// asks to sleep is the accept burst where that heads its work, and otherwise the phase it is in:
/// the burst itself on a core, or the wait as the dependency's speed stretches it. It gives back a
/// core exactly where it leaves a burst.
pub proof fn a_handler_walks_its_plan(h: HandlerView, v: SimView, turn: Turn, now: Ticks)
    requires
        walkable(h),
    ensures
        ({
            let (g, w, need) = spec_turn(h, v, turn, now);
            let left = turn is Woke && (h.walk is Burst || h.walk is Asleep);
            &&& g.at == if left {
                h.at + 1
            } else {
                h.at
            }
            &&& need matches Need::Sleep { release, span } ==> {
                &&& g.walk is Accepting ==> span == 1_000_000_000 && h.at == 0
                    && h.accept_in_phases
                &&& g.walk is Burst ==> g.phases[g.at] == Phase::Cpu(span)
                &&& g.walk is Asleep ==> (g.phases[g.at] matches Phase::Io(d) && span
                    == stretched(d, v.io_speed) as u64)
                &&& g.walk is Accepting || g.walk is Burst || g.walk is Asleep
                &&& release == (left && h.walk is Burst)
                &&& !(g.walk is Asleep) ==> w.cpu.last().id == h.id && w.cpu.last().start == now
                    && w.cpu.last().dur == span && !w.cpu.last().hung
                &&& g.walk is Asleep ==> w.io.last().id == h.id && w.io.last().start == now
                    && w.io.last().dur == span
            }
            &&& need matches Need::Core { release } ==> g.walk is Waiting && g.phases[g.at] is Cpu
                && release == (left && h.walk is Burst)
            &&& need matches Need::Finished { release } ==> g.at >= g.phases.len() && g.walk
                is Done && release == (left && h.walk is Burst)
            &&& g.walk is Done && !(h.walk is Done) ==> need is Finished
            &&& need is Nothing ==> g == h && w == v
        }),
{
}

/// A handler behind a request queue starts on its first burst; one with none in front of it is
/// accepted first, on the core it then works on.
pub proof fn an_accept_heads_the_work_where_no_queue_does(h: HandlerView, v: SimView, now: Ticks)
    requires
        walkable(h),
        h.walk is Waiting,
        h.at == 0,
    ensures
        spec_turn(h, v, Turn::Core, now).0.walk is Accepting <==> h.accept_in_phases,
        spec_turn(h, v, Turn::Core, now).0.walk is Burst <==> !h.accept_in_phases,
        h.walk is Accepting ==> spec_turn(h, v, Turn::Woke, now).1.cpu.last().slot == h.walk->slot,
{
}

// ----- read ------------------------------------------------------------------

/// A leg is as far along as its time is: what is behind it and what is left make the whole, it has
/// not begun before it set off, and it is done when it lands.
pub proof fn a_flight_is_as_far_as_its_time(f: Flight, now: Ticks)
    ensures
        f.spec_p(now).of == f.dur,
        now >= f.lands ==> f.spec_p(now).done == f.dur,
        now <= f.lands && f.lands - now <= f.dur ==> f.spec_p(now).done + (f.lands - now) == f.dur,
        now + f.dur <= f.lands ==> f.spec_p(now).done == 0,
{
}

/// The same of a burst on a core: what is left of it runs out one tick a tick, and its ring shows
/// the rest, against a millisecond where the burst is shorter than one.
pub proof fn a_burst_runs_out_by_the_tick(c: CpuRec, now: Ticks)
    ensures
        now <= c.start ==> spec_remaining(c, now) == c.dur,
        c.start <= now && now - c.start <= c.dur ==> spec_remaining(c, now) + (now - c.start)
            == c.dur,
        c.start <= now && now - c.start >= c.dur ==> spec_remaining(c, now) == 0,
        burst_part(c, now).done + spec_remaining(c, now) == burst_part(c, now).of,
        c.dur >= 1_000_000_000 ==> burst_part(c, now).of == c.dur,
        c.dur < 1_000_000_000 ==> burst_part(c, now).of == 1_000_000_000,
{
}

/// And of anything timed from when it began.
pub proof fn a_part_is_what_has_passed(since: Ticks, of: Ticks, now: Ticks)
    ensures
        Part::spec_of(since, of, now).of == of,
        now <= since ==> Part::spec_of(since, of, now).done == 0,
        since <= now && now - since <= of ==> Part::spec_of(since, of, now).done == now - since,
        since <= now && now - since >= of ==> Part::spec_of(since, of, now).done == of,
{
}

/// The charts take a sample once every tenth of a second and keep the newest [`SPARKS`]: what is
/// past admission, what is waiting for a worker or for admission, and the two rates as they stand.
pub proof fn the_charts_keep_their_newest(spark: Seq<SparkPoint>, last: Ticks, v: SimView, now: Ticks)
    requires
        v.countable(),
        spark.len() <= SPARKS,
    ensures
        ({
            let (after, at) = spec_sparked(spark, last, v, now);
            &&& now - last < 100_000_000_000 ==> after == spark && at == last
            &&& now - last >= 100_000_000_000 ==> {
                &&& at == now
                &&& after.len() == if spark.len() < SPARKS {
                    spark.len() + 1
                } else {
                    SPARKS as nat
                }
                &&& after.drop_last() == spark.skip(spark.len() - (after.len() - 1))
                &&& after.last().in_flight == v.cpu.len() + v.io.len() + v.ready.len()
                &&& after.last().queue == v.queue_stubs.len() + v.ready.len()
            }
        }),
{
    let (after, at) = spec_sparked(spark, last, v, now);
    if now - last >= 100_000_000_000 {
        assert(after.drop_last() =~= spark.skip(spark.len() - (after.len() - 1)));
    }
}

/// Being accepted takes a core for a millisecond, the lowest that is free; and then the request
/// stands in the admission queue from that instant, its core given back.
pub proof fn an_accept_takes_a_millisecond(c: Client, v: SimView, now: Ticks)
    requires
        v.cpu.len() < CORES,
    ensures
        c.leg is Accepted ==> {
            let (d, w, ask) = spec_step(c, v, Event::Core, now);
            let taken = w.cpu.last();
            &&& ask == Ask::Sleep(1_000_000_000) && d.leg is Accepting
            &&& taken.id == c.id && taken.phase == ACCEPT_PHASE && taken.start == now && taken.dur
                == 1_000_000_000 && !taken.hung
            &&& lowest_free(v.cpu, taken.slot)
            &&& w.cpu.drop_last() == v.cpu && count_of(w.ready, c.id) == 0
        },
        c.leg is Accepting ==> {
            let (d, w, ask) = spec_step(c, v, Event::Woke, now);
            &&& ask == (Ask::Call { release: true }) && d.leg is Called
            &&& count_of(w.cpu, c.id) == 0
            &&& w.queue_stubs == v.queue_stubs.push(Waiting { id: c.id, since: now })
        },
{
    broadcast use count_without;

    free_slot_is_free(v.cpu);
    let taken = spec_step(c, v, Event::Core, now).1.cpu;
    if c.leg is Accepted {
        assert(taken.drop_last() =~= v.cpu);
    }
}

/// A server that hangs what it accepts holds a core for it, the same one ever after, burst upon
/// burst of fifty-five milliseconds.
pub proof fn a_hang_holds_its_core(c: Client, v: SimView, now: Ticks)
    requires
        v.cpu.len() < CORES,
    ensures
        c.leg is Racing ==> {
            let (d, w, ask) = spec_step(c, v, Event::Core, now);
            let held = w.cpu.last();
            &&& ask == Ask::Sleep(55_000_000_000)
            &&& d.leg matches Leg::Hung { slot, phase, counted } && slot == held.slot && phase == 0
                && !counted
            &&& lowest_free(v.cpu, held.slot)
            &&& held.id == c.id && held.hung && held.start == now && held.dur == 55_000_000_000
        },
        c.leg is Hung && c.leg->phase < usize::MAX ==> {
            let (d, w, ask) = spec_step(c, v, Event::Woke, now);
            let held = w.cpu.last();
            &&& ask == Ask::Sleep(55_000_000_000)
            &&& held.id == c.id && held.slot == c.leg->slot && held.phase == c.leg->phase + 1 && held.hung
                && held.start == now && held.dur == 55_000_000_000
            &&& d.leg->phase == c.leg->phase + 1
        },
{
    free_slot_is_free(v.cpu);
}

/// Giving up is counted as being turned away where a core was being waited for or hung on to, and
/// not where the server never so much as accepted.
pub proof fn giving_up_is_stamped_where_it_was_accepted(c: Client, v: SimView, event: Event, now: Ticks)
    requires
        !(c.leg is Returning),
        !(c.leg is Called),
    ensures
        ({
            let w = spec_step(c, v, event, now).1;
            let left = w.departures.len() > v.departures.len();
            &&& left && c.leg is Ignored ==> w.timeout_window == v.timeout_window
            &&& left && !(c.leg is Ignored) ==> w.timeout_window == v.timeout_window.push(now)
            &&& !left ==> w.timeout_window == v.timeout_window
            &&& w.success_window == v.success_window && w.done_window == v.done_window
        }),
{
}

/// Every move is written down once, when it is made: a step or a turn adds at most two hops, each its
/// own request's, each at the instant it happens.
pub proof fn a_move_is_written_down_when_it_is_made(
    c: Client,
    h: HandlerView,
    v: SimView,
    event: Event,
    turn: Turn,
    now: Ticks,
    i: int,
)
    ensures
        ({
            let w = spec_step(c, v, event, now).1;
            &&& v.hops.len() <= w.hops.len() <= v.hops.len() + 2
            &&& v.hops.len() <= i < w.hops.len() ==> w.hops[i].t == now && w.hops[i].id == c.id
        }),
        ({
            let w = spec_turn(h, v, turn, now).1;
            &&& v.hops.len() <= w.hops.len() <= v.hops.len() + 2
            &&& v.hops.len() <= i < w.hops.len() ==> w.hops[i].t == now && w.hops[i].id == h.id
        }),
{
}

/// What runs on a core is named: the accept, or the phase of the plan that is run, on the lowest
/// core that was free, or on the one the accept held.
pub proof fn a_burst_runs_its_own_phase(h: HandlerView, v: SimView, turn: Turn, now: Ticks)
    requires
        walkable(h),
        v.cpu.len() < CORES,
        h.at <= usize::MAX,
    ensures
        ({
            let (g, w, _) = spec_turn(h, v, turn, now);
            let core = w.cpu.last();
            &&& h.walk is Waiting && turn is Core ==> lowest_free(v.cpu, core.slot)
            &&& g.walk is Burst && !(h.walk is Burst) ==> core.phase == h.at
            &&& h.walk is Waiting && g.walk is Accepting ==> core.phase == ACCEPT_PHASE && g.walk->slot
                == core.slot
            &&& h.walk is Asleep && turn is Woke && g.walk is Waiting ==> w.ready == v.ready.push(
                h.id,
            ) && count_of(w.io, h.id) == 0
        }),
{
    broadcast use count_without;

    free_slot_is_free(v.cpu);
}

/// A request is inside from when it is taken in until it is let go, last of all those inside, and
/// nobody else comes or goes with it. One that is accepted as part of its work leaves the kernel's
/// queue for the runtime's as it comes in; any other stays where it waits.
pub proof fn who_is_inside_is_whoever_was_taken_in(v: SimView, id: u32, accept: bool, now: Ticks)
    ensures
        ({
            let w = v.take_in(id, accept, now);
            &&& w.occupiers == v.occupiers.push(id)
            &&& accept ==> count_of(w.syn_backlog, id) == 0 && w.ready == v.ready.push(id)
            &&& !accept ==> w == (SimView { occupiers: w.occupiers, ..v })
            &&& w.stats == v.stats && w.departures == v.departures && w.cpu == v.cpu && w.io == v.io
                && w.queue_stubs == v.queue_stubs
        }),
        count_of(v.vacate(id).occupiers, id) == 0,
        forall|other: u32|
            other != id ==> count_of(v.vacate(id).occupiers, other) == #[trigger] count_of(
                v.occupiers,
                other,
            ),
        v.vacate(id) == (SimView { occupiers: v.vacate(id).occupiers, ..v }),
{
    broadcast use count_without;

}

/// Where a request stands is written down as it comes to stand there: at the start of its wire, at
/// the end of its queue, on the core it holds.
pub proof fn where_it_stands_is_written_down(c: Client, v: SimView, event: Event, now: Ticks)
    ensures
        ({
            let w = spec_step(c, v, event, now).1;
            let last = w.hops.last().station;
            &&& c.leg is Sending && event is Woke ==> (last matches Station::NetworkIn { p, slot } && slot
                == 0 && p.done == 0)
            &&& c.leg is Inbound && event is Woke && (c.behavior !is Good || !c.uses_app_queue)
                ==> last == (Station::SynBacklog { idx: v.syn_backlog.len() as usize })
            &&& c.leg is Inbound && event is Woke && c.behavior is Good && c.uses_app_queue
                ==> last == (Station::RunQueue { idx: v.ready.len() as usize })
            &&& c.leg is Accepted && event is Core ==> (last matches Station::Accept { slot, p }
                && slot == w.cpu.last().slot && p.done == 0)
            &&& c.leg is Accepting && event is Woke ==> (last matches Station::AppQueue { idx, age }
                && idx == v.queue_stubs.len() as usize && age.done == 0)
            &&& c.leg is Racing && event is Core ==> (last matches Station::Cpu { slot, hung, p }
                && slot == w.cpu.last().slot && hung && p.done == 0)
        }),
{
}

/// And the same of its work: on the core it holds, never as one that hangs; asleep; or at the end of
/// the runtime's queue.
pub proof fn where_it_works_is_written_down(h: HandlerView, v: SimView, turn: Turn, now: Ticks)
    requires
        walkable(h),
    ensures
        ({
            let (g, w, need) = spec_turn(h, v, turn, now);
            let last = w.hops.last().station;
            &&& need is Sleep && g.walk is Burst ==> (last matches Station::Cpu { slot, hung, p }
                && slot == w.cpu.last().slot && !hung && p.done == 0)
            &&& need is Sleep && g.walk is Accepting ==> (last matches Station::Accept { slot, p }
                && slot == w.cpu.last().slot && p.done == 0)
            &&& need is Sleep && g.walk is Asleep ==> (last matches Station::Io { p } && p.done == 0)
            &&& h.walk is Asleep && need is Core ==> last == (Station::RunQueue {
                idx: v.ready.len() as usize,
            })
        }),
{
}

/// A handler is finished exactly where its plan runs out, and until then is always in a phase of it.
pub proof fn a_handler_finishes_where_its_plan_does(h: HandlerView, v: SimView, turn: Turn, now: Ticks)
    requires
        walkable(h),
    ensures
        ({
            let (g, _, need) = spec_turn(h, v, turn, now);
            &&& need is Sleep || need is Core ==> g.at < g.phases.len()
            &&& turn is Woke && (h.walk is Burst || h.walk is Asleep) ==> (need is Finished <==> h.at + 1
                >= h.phases.len())
            &&& h.walk is Unstarted && turn is Begin ==> (need is Finished <==> h.phases.len() == 0)
        }),
{
}

} // verus!
