//! A client's journey: sent, landed, accepted, handed to the stack, answered, and home.
//!
//! The journey is a state machine. What only the runtime can do is an [`Ask`]: sleep, take a
//! core, call the service. What comes back of it is an [`Event`], and [`Client::step`] says what
//! that does to the server's state and what to ask for next.

use vstd::prelude::*;

use crate::engine::clock::{
    part_none, Part, Ticks, ACCEPT_CPU_MS, HANG_BURST_MS, MS,
};
use crate::engine::outcome::{Load, Outcome, Refusal};
use crate::engine::request::Behavior;
use crate::engine::sim::{
    free_slot, CpuRec, Flight, Homeward, Sim, SimView, Station, Waiting, ACCEPT_PHASE,
};
use crate::engine::stack::CORES;
use crate::engine::tagged::{drop_id, without, without_len};

verus! {

/// The travel either way between a client and the server it is talking to.
#[derive(Clone, Copy, PartialEq, Eq, Structural, Debug)]
pub struct NetLegs {
    pub inbound: Ticks,
    pub outbound: Ticks,
}

/// What a client gets back: the verdict, the round trip it measured, and the load the machine
/// reported alongside it, stamped at the verdict.
#[derive(Clone, Copy, PartialEq, Eq, Structural, Debug)]
pub struct Answer {
    pub outcome: Outcome,
    pub round_trip: Ticks,
    pub load: Load,
}

/// How far a client has got.
#[derive(Clone, Copy, PartialEq, Eq, Structural, Debug)]
pub enum Leg {
    /// Not begun.
    Unsent,
    /// Asleep until its send instant.
    Sending,
    /// In flight to the server.
    Inbound,
    /// In the backlog of a server that never accepts.
    Ignored,
    /// In the backlog of a server that hangs what it accepts, racing the client's patience.
    Racing,
    /// On a core that will never be given back.
    Hung { slot: usize, phase: usize, counted: bool },
    /// Its accept task is in the run queue.
    Accepted,
    /// On a core for the accept burst.
    Accepting,
    /// In the stack's hands.
    Called,
    /// Its reply is in flight home.
    Returning { answer: Answer },
    /// Answered, or given up.
    Done,
}

/// What the runtime reports.
#[derive(Clone, Copy, PartialEq, Eq, Structural, Debug)]
pub enum Event {
    /// The client starts.
    Begin,
    /// The sleep it asked for has ended.
    Woke,
    /// The core it asked for is held.
    Core,
    /// Its patience ran out before a core came free.
    GaveUp,
    /// The service could not take a call.
    Unready,
    /// The stack served it.
    Served,
    /// The stack answered without serving it.
    Refused(Refusal),
}

/// What the client needs of the runtime next.
#[derive(Clone, Copy, PartialEq, Eq, Structural, Debug)]
pub enum Ask {
    /// Nothing: the event was not one it was waiting for.
    Nothing,
    /// Sleep until this instant.
    Until(Ticks),
    /// Sleep this long.
    Sleep(Ticks),
    /// Hold a core.
    Core,
    /// Hold a core, or give up at this instant.
    CoreBefore(Ticks),
    /// Call the service. `release` gives back the core it holds first.
    Call { release: bool },
    /// The journey is over, and this is what the client was told, if anything was.
    Finished(Option<Answer>),
}

/// One client, on its way through one server.
#[derive(Clone, Copy, PartialEq, Eq, Structural, Debug)]
pub struct Client {
    pub id: u32,
    /// When it lands.
    pub enq_t: Ticks,
    pub net: NetLegs,
    pub behavior: Behavior,
    /// Whether the accept is split from the handler by a request queue.
    pub uses_app_queue: bool,
    pub leg: Leg,
}

/// When it is sent: a leg before it lands, and never before the world opens.
pub open spec fn sends_at(c: Client) -> Ticks {
    if c.enq_t >= c.net.inbound {
        (c.enq_t - c.net.inbound) as u64
    } else {
        0
    }
}

/// The round trip a verdict at `now` makes: from the send to the receipt, over both legs.
pub open spec fn round_trip(c: Client, now: Ticks) -> Ticks {
    (now - c.enq_t + c.net.inbound + c.net.outbound) as u64
}

/// What a served request's client is told: it answered in time, or it finished too late for the
/// client to still care.
pub open spec fn served_outcome(s: SimView, trip: Ticks) -> Outcome {
    if trip < s.response_timeout {
        Outcome::Success
    } else if s.processing_timeout_enabled {
        Outcome::ProcessingTimeout
    } else {
        Outcome::ResponseTimeout
    }
}

/// What a verdict comes to, or `None` where it is lost and nothing travels back.
pub open spec fn outcome_of(s: SimView, event: Event, trip: Ticks) -> Option<Outcome> {
    match event {
        Event::Refused(Refusal::QueueTimeout) => Some(Outcome::QueueTimeout),
        Event::Refused(Refusal::Rejected) => Some(Outcome::Rejected),
        Event::Refused(Refusal::RateLimited) => Some(Outcome::RateLimited),
        Event::Refused(Refusal::Dropped) => None,
        _ => Some(served_outcome(s, trip)),
    }
}

/// Whether the event is the stack's verdict.
pub open spec fn is_verdict(event: Event) -> bool {
    event is Served || event is Refused
}

impl SimView {
    /// A request sets off.
    pub open spec fn send(self, c: Client, now: Ticks) -> SimView {
        SimView {
            net_in: self.net_in.push(Flight { id: c.id, lands: c.enq_t, dur: c.net.inbound }),
            ..self
        }.hop(c.id, Station::NetworkIn { p: part_none(), slot: 0 }, now)
    }

    /// A request lands: its connection joins the kernel's accept queue.
    pub open spec fn land(self, c: Client, now: Ticks) -> SimView {
        SimView {
            net_in: without(self.net_in, c.id),
            stats: self.stats.landed(),
            syn_backlog: self.syn_backlog.push(Waiting { id: c.id, since: c.enq_t }),
            ..self
        }.hop(c.id, Station::SynBacklog { idx: self.syn_backlog.len() as usize }, now)
    }

    /// An accepted request joins the request queue.
    pub open spec fn queue_up(self, id: u32, now: Ticks) -> SimView {
        SimView { queue_stubs: self.queue_stubs.push(Waiting { id, since: now }), ..self }.hop(
            id,
            Station::AppQueue { idx: self.queue_stubs.len() as usize, age: part_none() },
            now,
        )
    }

    /// A verdict is in: the request is out of the queue and out of the backlog.
    pub open spec fn settled(self, id: u32) -> SimView {
        self.leave_queue(id).leave_backlog(id)
    }
}

/// What one event does to a client and its server, and what the client asks for next. An event
/// its leg is not waiting for changes nothing.
pub open spec fn spec_step(c: Client, s: SimView, event: Event, now: Ticks) -> (
    Client,
    SimView,
    Ask,
) {
    match (c.leg, event) {
        (Leg::Unsent, Event::Begin) => (
            Client { leg: Leg::Sending, ..c },
            s,
            Ask::Until(sends_at(c)),
        ),
        (Leg::Sending, Event::Woke) => (
            Client { leg: Leg::Inbound, ..c },
            s.send(c, now),
            Ask::Until(c.enq_t),
        ),
        (Leg::Inbound, Event::Woke) => {
            let landed = s.land(c, now);
            match c.behavior {
                Behavior::NeverAccept => (
                    Client { leg: Leg::Ignored, ..c },
                    landed,
                    Ask::Sleep(s.response_timeout),
                ),
                Behavior::AcceptHang => (
                    Client { leg: Leg::Racing, ..c },
                    landed,
                    Ask::CoreBefore((c.enq_t + s.response_timeout) as u64),
                ),
                Behavior::Good => if c.uses_app_queue {
                    (
                        Client { leg: Leg::Accepted, ..c },
                        landed.leave_backlog(c.id).enter_run_queue(c.id, now),
                        Ask::Core,
                    )
                } else {
                    (Client { leg: Leg::Called, ..c }, landed, Ask::Call { release: false })
                },
            }
        },
        (Leg::Ignored, Event::Woke) => (
            Client { leg: Leg::Done, ..c },
            s.leave_backlog(c.id).give_up(c.id),
            Ask::Finished(None),
        ),
        (Leg::Racing, Event::GaveUp) => (
            Client { leg: Leg::Done, ..c },
            s.leave_backlog(c.id).time_out(c.id, now),
            Ask::Finished(None),
        ),
        (Leg::Racing, Event::Core) => {
            let slot = free_slot(s.cpu);
            (
                Client { leg: Leg::Hung { slot, phase: 0, counted: false }, ..c },
                s.leave_backlog(c.id).claim_core(c.id, 0, (HANG_BURST_MS * MS) as u64, now, true).hop(
                    c.id,
                    Station::Cpu { slot, p: part_none(), hung: true },
                    now,
                ),
                Ask::Sleep((HANG_BURST_MS * MS) as u64),
            )
        },
        (Leg::Hung { slot, phase, counted }, Event::Woke) => {
            let late = !counted && now >= c.enq_t + s.response_timeout;
            let freed = s.leave_core(c.id);
            let told = if late {
                freed.time_out(c.id, now)
            } else {
                freed
            };
            (
                Client {
                    leg: Leg::Hung {
                        slot,
                        phase: (phase + 1) as usize,
                        counted: counted || late,
                    },
                    ..c
                },
                told.occupy(
                    c.id,
                    (phase + 1) as usize,
                    slot,
                    now,
                    (HANG_BURST_MS * MS) as u64,
                    true,
                ),
                Ask::Sleep((HANG_BURST_MS * MS) as u64),
            )
        },
        (Leg::Accepted, Event::Core) => {
            let slot = free_slot(s.cpu);
            (
                Client { leg: Leg::Accepting, ..c },
                s.leave_run_queue(c.id).claim_core(
                    c.id,
                    ACCEPT_PHASE,
                    (ACCEPT_CPU_MS * MS) as u64,
                    now,
                    false,
                ).hop(c.id, Station::Accept { slot, p: part_none() }, now),
                Ask::Sleep((ACCEPT_CPU_MS * MS) as u64),
            )
        },
        (Leg::Accepting, Event::Woke) => (
            Client { leg: Leg::Called, ..c },
            s.leave_core(c.id).queue_up(c.id, now),
            Ask::Call { release: true },
        ),
        (Leg::Called, Event::Unready) => (
            Client { leg: Leg::Done, ..c },
            s,
            Ask::Finished(None),
        ),
        (Leg::Called, Event::Served) => verdict(c, s, event, now),
        (Leg::Called, Event::Refused(_)) => verdict(c, s, event, now),
        (Leg::Returning { answer }, Event::Woke) => (
            Client { leg: Leg::Done, ..c },
            SimView { net_out: without(s.net_out, c.id), ..s }.receive(
                c.id,
                answer.outcome,
                answer.round_trip,
                now,
            ),
            Ask::Finished(Some(answer)),
        ),
        _ => (c, s, Ask::Nothing),
    }
}

/// What a verdict does: a reply sets off home, a give-up is received where it was given, and a
/// lost one ends in silence.
pub open spec fn verdict(c: Client, s: SimView, event: Event, now: Ticks) -> (
    Client,
    SimView,
    Ask,
) {
    let trip = round_trip(c, now);
    let settled = s.settled(c.id);
    match outcome_of(s, event, trip) {
        None => (Client { leg: Leg::Done, ..c }, settled, Ask::Finished(None)),
        Some(outcome) => {
            let answer = Answer { outcome, round_trip: trip, load: settled.reported() };
            match outcome.spec_reply() {
                Some(reply) => (
                    Client { leg: Leg::Returning { answer }, ..c },
                    SimView {
                        net_out: settled.net_out.push(
                            Homeward {
                                flight: Flight {
                                    id: c.id,
                                    lands: (now + c.net.outbound) as u64,
                                    dur: c.net.outbound,
                                },
                                reply,
                            },
                        ),
                        ..settled
                    }.hop(c.id, Station::NetworkOut { p: part_none(), reply }, now),
                    Ask::Sleep(c.net.outbound),
                ),
                None => (
                    Client { leg: Leg::Done, ..c },
                    settled.receive(c.id, outcome, trip, now),
                    Ask::Finished(Some(answer)),
                ),
            }
        },
    }
}

/// What the machine's limits ask of a step: a core is free where one is held, the tallies and
/// counts have room, and the instants it adds up fit the clock.
pub open spec fn steppable(c: Client, s: SimView, event: Event, now: Ticks) -> bool {
    &&& event is Core ==> s.cpu.len() < CORES
    &&& s.stats.room()
    &&& s.countable()
    &&& c.enq_t + s.response_timeout <= u64::MAX
    &&& now + c.net.inbound + c.net.outbound <= u64::MAX
    &&& (c.leg matches Leg::Hung { phase, .. } ==> phase < usize::MAX)
    &&& c.leg is Called && is_verdict(event) ==> c.enq_t <= now
}

impl Client {
    /// A client that has not set off.
    pub fn new(
        id: u32,
        enq_t: Ticks,
        net: NetLegs,
        behavior: Behavior,
        uses_app_queue: bool,
    ) -> (c: Client)
        ensures
            c == (Client { id, enq_t, net, behavior, uses_app_queue, leg: Leg::Unsent }),
    {
        Client { id, enq_t, net, behavior, uses_app_queue, leg: Leg::Unsent }
    }

    /// Whether the machine's limits leave room for a step.
    pub fn can_step(&self, sim: &Sim, event: Event, now: Ticks) -> (b: bool)
        ensures
            b == steppable(*self, sim@, event, now),
    {
        let cores: bool = match event {
            Event::Core => sim.cpu.len() < CORES,
            _ => true,
        };
        let phases: bool = match self.leg {
            Leg::Hung { phase, .. } => phase < usize::MAX,
            _ => true,
        };
        let lands: bool = match (self.leg, event) {
            (Leg::Called, Event::Served) | (Leg::Called, Event::Refused(_)) => self.enq_t <= now,
            _ => true,
        };
        let late: u128 = self.enq_t as u128 + sim.response_timeout as u128;
        let home: u128 = now as u128 + self.net.inbound as u128 + self.net.outbound as u128;
        cores && phases && lands && sim.stats.has_room() && sim.is_countable() && late
            <= u64::MAX as u128 && home <= u64::MAX as u128
    }

    /// Take one event: move the request through the server's state, and say what is needed next.
    pub fn step(&mut self, sim: &mut Sim, event: Event, now: Ticks) -> (ask: Ask)
        requires
            steppable(*old(self), old(sim)@, event, now),
        ensures
            (*final(self), final(sim)@, ask) == spec_step(*old(self), old(sim)@, event, now),
    {
        match (self.leg, event) {
            (Leg::Unsent, Event::Begin) => {
                self.leg = Leg::Sending;
                Ask::Until(self.enq_t.saturating_sub(self.net.inbound))
            },
            (Leg::Sending, Event::Woke) => {
                sim.net_in.push(Flight { id: self.id, lands: self.enq_t, dur: self.net.inbound });
                sim.hop(self.id, Station::NetworkIn { p: Part::none(), slot: 0 }, now);
                self.leg = Leg::Inbound;
                Ask::Until(self.enq_t)
            },
            (Leg::Inbound, Event::Woke) => self.land(sim, now),
            (Leg::Ignored, Event::Woke) => {
                sim.leave_backlog(self.id);
                sim.give_up(self.id);
                self.leg = Leg::Done;
                Ask::Finished(None)
            },
            (Leg::Racing, Event::GaveUp) => {
                sim.leave_backlog(self.id);
                sim.time_out(self.id, now);
                self.leg = Leg::Done;
                Ask::Finished(None)
            },
            (Leg::Racing, Event::Core) => {
                sim.leave_backlog(self.id);
                let slot: usize = sim.claim_core(self.id, 0, HANG_BURST_MS * MS, now, true);
                sim.hop(self.id, Station::Cpu { slot, p: Part::none(), hung: true }, now);
                self.leg = Leg::Hung { slot, phase: 0, counted: false };
                Ask::Sleep(HANG_BURST_MS * MS)
            },
            (Leg::Hung { slot, phase, counted }, Event::Woke) => {
                drop_id(&mut sim.cpu, self.id);
                let late: bool = !counted && now >= self.enq_t + sim.response_timeout;
                if late {
                    sim.time_out(self.id, now);
                }
                sim.cpu.push(
                    CpuRec {
                        id: self.id,
                        phase: phase + 1,
                        slot,
                        start: now,
                        dur: HANG_BURST_MS * MS,
                        hung: true,
                    },
                );
                self.leg = Leg::Hung { slot, phase: phase + 1, counted: counted || late };
                Ask::Sleep(HANG_BURST_MS * MS)
            },
            (Leg::Accepted, Event::Core) => {
                drop_id(&mut sim.ready, self.id);
                let slot: usize = sim.claim_core(
                    self.id,
                    ACCEPT_PHASE,
                    ACCEPT_CPU_MS * MS,
                    now,
                    false,
                );
                sim.hop(self.id, Station::Accept { slot, p: Part::none() }, now);
                self.leg = Leg::Accepting;
                Ask::Sleep(ACCEPT_CPU_MS * MS)
            },
            (Leg::Accepting, Event::Woke) => {
                drop_id(&mut sim.cpu, self.id);
                let idx: usize = sim.queue_stubs.len();
                sim.queue_stubs.push(Waiting { id: self.id, since: now });
                sim.hop(self.id, Station::AppQueue { idx, age: Part::none() }, now);
                self.leg = Leg::Called;
                Ask::Call { release: true }
            },
            (Leg::Called, Event::Unready) => {
                self.leg = Leg::Done;
                Ask::Finished(None)
            },
            (Leg::Called, Event::Served) => {
                let trip: u64 = self.trip(now);
                let outcome = if trip < sim.response_timeout {
                    Outcome::Success
                } else if sim.processing_timeout_enabled {
                    Outcome::ProcessingTimeout
                } else {
                    Outcome::ResponseTimeout
                };
                self.answer(sim, Some(outcome), trip, now)
            },
            (Leg::Called, Event::Refused(refusal)) => {
                let trip: u64 = self.trip(now);
                let outcome = match refusal {
                    Refusal::QueueTimeout => Some(Outcome::QueueTimeout),
                    Refusal::Rejected => Some(Outcome::Rejected),
                    Refusal::RateLimited => Some(Outcome::RateLimited),
                    Refusal::Dropped => None,
                };
                self.answer(sim, outcome, trip, now)
            },
            (Leg::Returning { answer }, Event::Woke) => {
                drop_id(&mut sim.net_out, self.id);
                sim.receive(self.id, answer.outcome, answer.round_trip, now);
                self.leg = Leg::Done;
                Ask::Finished(Some(answer))
            },
            _ => Ask::Nothing,
        }
    }

    /// The inbound leg is over: the connection joins the backlog, and the server does with it
    /// what it does with connections.
    fn land(&mut self, sim: &mut Sim, now: Ticks) -> (ask: Ask)
        requires
            old(self).leg is Inbound,
            steppable(*old(self), old(sim)@, Event::Woke, now),
        ensures
            (*final(self), final(sim)@, ask) == spec_step(
                *old(self),
                old(sim)@,
                Event::Woke,
                now,
            ),
    {
        drop_id(&mut sim.net_in, self.id);
        sim.stats.arrived += 1;
        let idx: usize = sim.syn_backlog.len();
        sim.syn_backlog.push(Waiting { id: self.id, since: self.enq_t });
        sim.hop(self.id, Station::SynBacklog { idx }, now);
        assert(sim@ == old(sim)@.land(*old(self), now));
        match self.behavior {
            Behavior::NeverAccept => {
                self.leg = Leg::Ignored;
                Ask::Sleep(sim.response_timeout)
            },
            Behavior::AcceptHang => {
                self.leg = Leg::Racing;
                Ask::CoreBefore(self.enq_t + sim.response_timeout)
            },
            Behavior::Good => if self.uses_app_queue {
                sim.leave_backlog(self.id);
                sim.enter_run_queue(self.id, now);
                self.leg = Leg::Accepted;
                Ask::Core
            } else {
                self.leg = Leg::Called;
                Ask::Call { release: false }
            },
        }
    }

    /// The round trip a verdict now makes.
    fn trip(&self, now: Ticks) -> (trip: Ticks)
        requires
            self.enq_t <= now,
            now + self.net.inbound + self.net.outbound <= u64::MAX,
        ensures
            trip == round_trip(*self, now),
    {
        now - self.enq_t + self.net.inbound + self.net.outbound
    }

    /// The verdict is in: the request is out of every queue, and its reply, if it sends one,
    /// sets off home.
    fn answer(&mut self, sim: &mut Sim, outcome: Option<Outcome>, trip: Ticks, now: Ticks) -> (ask:
        Ask)
        requires
            old(self).leg is Called,
            old(sim)@.stats.room(),
            old(sim)@.countable(),
            now + old(self).net.outbound <= u64::MAX,
            trip == round_trip(*old(self), now),
        ensures
            forall|event: Event|
                is_verdict(event) && #[trigger] outcome_of(old(sim)@, event, trip) == outcome
                    ==> (*final(self), final(sim)@, ask) == verdict(
                    *old(self),
                    old(sim)@,
                    event,
                    now,
                ),
    {
        drop_id(&mut sim.queue_stubs, self.id);
        sim.leave_backlog(self.id);
        assert(sim@ == old(sim)@.settled(self.id));
        proof {
            without_len(old(sim)@.queue_stubs, self.id);
            without_len(old(sim)@.syn_backlog, self.id);
        }
        match outcome {
            None => {
                self.leg = Leg::Done;
                Ask::Finished(None)
            },
            Some(outcome) => {
                let answer = Answer { outcome, round_trip: trip, load: sim.reported() };
                match outcome.reply() {
                    Some(reply) => {
                        let flight = Flight {
                            id: self.id,
                            lands: now + self.net.outbound,
                            dur: self.net.outbound,
                        };
                        sim.net_out.push(Homeward { flight, reply });
                        sim.hop(self.id, Station::NetworkOut { p: Part::none(), reply }, now);
                        self.leg = Leg::Returning { answer };
                        Ask::Sleep(self.net.outbound)
                    },
                    None => {
                        sim.receive(self.id, outcome, trip, now);
                        self.leg = Leg::Done;
                        Ask::Finished(Some(answer))
                    },
                }
            },
        }
    }
}

} // verus!
