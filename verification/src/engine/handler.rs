//! The leaf handler: a request's phases, walked one at a time.
//!
//! A CPU phase holds a core for its burst, and an IO phase sleeps. Like a
//! [`Client`](crate::engine::client::Client), the handler is a state machine: it asks the
//! runtime for a core or a sleep, and is told when it has it.

use vstd::prelude::*;

use crate::engine::clock::{part_none, Part, Ticks, ACCEPT_CPU_MS, MS};
use crate::engine::request::Phase;
use crate::engine::sim::{
    free_slot, CpuRec, IoRec, Sim, SimView, Station, ACCEPT_PHASE,
};
use crate::engine::stack::CORES;
use crate::engine::tagged::{drop_id, without};

verus! {

/// How far into a phase the handler is.
#[derive(Clone, Copy, PartialEq, Eq, Structural, Debug)]
pub enum Walk {
    /// Not begun.
    Unstarted,
    /// Waiting for a core.
    Waiting,
    /// On a core for the accept burst that heads the first phase.
    Accepting { slot: usize },
    /// On a core for a burst.
    Burst,
    /// Asleep on a dependency.
    Asleep,
    /// Every phase walked.
    Done,
}

/// What the runtime reports.
#[derive(Clone, Copy, PartialEq, Eq, Structural, Debug)]
pub enum Turn {
    /// The handler starts.
    Begin,
    /// The core it asked for is held.
    Core,
    /// The sleep it asked for has ended.
    Woke,
}

/// What the handler needs of the runtime next. `release` gives back the core it holds first.
#[derive(Clone, Copy, PartialEq, Eq, Structural, Debug)]
pub enum Need {
    /// Nothing: the turn was not one it was waiting for.
    Nothing,
    /// Hold a core.
    Core { release: bool },
    /// Sleep this long.
    Sleep { release: bool, span: Ticks },
    /// The work is done.
    Finished { release: bool },
}

/// One request's work, being done.
pub struct Handler {
    pub id: u32,
    pub phases: Vec<Phase>,
    /// The phase it is in.
    pub at: usize,
    /// Whether the accept burst is the head of the first phase, there being no request queue
    /// between the two.
    pub accept_in_phases: bool,
    pub walk: Walk,
}

/// What a handler holds.
#[verifier::ext_equal]
pub struct HandlerView {
    pub id: u32,
    pub phases: Seq<Phase>,
    pub at: int,
    pub accept_in_phases: bool,
    pub walk: Walk,
}

impl View for Handler {
    type V = HandlerView;

    open spec fn view(&self) -> HandlerView {
        HandlerView {
            id: self.id,
            phases: self.phases@,
            at: self.at as int,
            accept_in_phases: self.accept_in_phases,
            walk: self.walk,
        }
    }
}

/// How long a wait of `d` takes at an IO speed in hundredths, to the nearest tick. A dependency
/// never slows past a twentieth of its baseline.
pub open spec fn stretched(d: Ticks, io_speed: u32) -> int {
    let speed = if io_speed < 5 {
        5
    } else {
        io_speed as int
    };
    (d * 100 + speed / 2) / speed
}

/// What the handler does on reaching the phase it is at: ask for a core, go to sleep, or finish.
pub open spec fn spec_enter(h: HandlerView, s: SimView, release: bool, now: Ticks) -> (
    HandlerView,
    SimView,
    Need,
) {
    if h.at >= h.phases.len() {
        (HandlerView { walk: Walk::Done, ..h }, s, Need::Finished { release })
    } else {
        match h.phases[h.at] {
            Phase::Cpu(_) => (HandlerView { walk: Walk::Waiting, ..h }, s, Need::Core { release }),
            Phase::Io(d) => {
                let dur = stretched(d, s.io_speed) as u64;
                (
                    HandlerView { walk: Walk::Asleep, ..h },
                    SimView { io: s.io.push(IoRec { id: h.id, start: now, dur }), ..s }.hop(
                        h.id,
                        Station::Io { p: part_none() },
                        now,
                    ),
                    Need::Sleep { release, span: dur },
                )
            },
        }
    }
}

/// The burst of the phase the handler is at.
pub open spec fn burst_at(h: HandlerView) -> Ticks {
    match h.phases[h.at] {
        Phase::Cpu(d) => d,
        Phase::Io(d) => d,
    }
}

/// The state with the request out of the queue it waited for this core in: the request queue for
/// the first burst behind one, and the run queue otherwise.
pub open spec fn dequeued(h: HandlerView, s: SimView) -> SimView {
    if h.at == 0 && !h.accept_in_phases {
        s.leave_queue(h.id)
    } else {
        s.leave_run_queue(h.id)
    }
}

/// What one turn does to a handler and its server, and what the handler needs next. A turn it is
/// not waiting for changes nothing.
pub open spec fn spec_turn(h: HandlerView, s: SimView, turn: Turn, now: Ticks) -> (
    HandlerView,
    SimView,
    Need,
) {
    match (h.walk, turn) {
        (Walk::Unstarted, Turn::Begin) => spec_enter(h, s, false, now),
        (Walk::Waiting, Turn::Core) => {
            let slot = free_slot(s.cpu);
            if h.at == 0 && h.accept_in_phases {
                (
                    HandlerView { walk: Walk::Accepting { slot }, ..h },
                    dequeued(h, s).claim_core(
                        h.id,
                        ACCEPT_PHASE,
                        (ACCEPT_CPU_MS * MS) as u64,
                        now,
                        false,
                    ).hop(h.id, Station::Accept { slot, p: part_none() }, now),
                    Need::Sleep { release: false, span: (ACCEPT_CPU_MS * MS) as u64 },
                )
            } else {
                (
                    HandlerView { walk: Walk::Burst, ..h },
                    dequeued(h, s).claim_core(h.id, h.at as usize, burst_at(h), now, false).hop(
                        h.id,
                        Station::Cpu { slot, p: part_none(), hung: false },
                        now,
                    ),
                    Need::Sleep { release: false, span: burst_at(h) },
                )
            }
        },
        (Walk::Accepting { slot }, Turn::Woke) => (
            HandlerView { walk: Walk::Burst, ..h },
            s.leave_core(h.id).occupy(h.id, h.at as usize, slot, now, burst_at(h), false).hop(
                h.id,
                Station::Cpu { slot, p: part_none(), hung: false },
                now,
            ),
            Need::Sleep { release: false, span: burst_at(h) },
        ),
        (Walk::Burst, Turn::Woke) => spec_enter(
            HandlerView { at: h.at + 1, ..h },
            s.leave_core(h.id),
            true,
            now,
        ),
        (Walk::Asleep, Turn::Woke) => spec_enter(
            HandlerView { at: h.at + 1, ..h },
            SimView { io: without(s.io, h.id), ..s }.enter_run_queue(h.id, now),
            false,
            now,
        ),
        _ => (h, s, Need::Nothing),
    }
}

/// The handler's place in its plan is one it can be in: the phase it is in is there, a core it
/// waits for or holds is for a CPU phase, and no wait is too long to stretch.
pub open spec fn walkable(h: HandlerView) -> bool {
    &&& 0 <= h.at
    &&& h.walk is Unstarted ==> h.at == 0
    &&& h.walk is Waiting || h.walk is Accepting || h.walk is Burst ==> h.at < h.phases.len()
        && h.phases[h.at] is Cpu
    &&& h.walk is Asleep ==> h.at < h.phases.len()
    &&& forall|i: int|
        0 <= i < h.phases.len() ==> ((#[trigger] h.phases[i]) matches Phase::Io(d) ==> d * 20
            <= u64::MAX)
}

impl Handler {
    /// The work of a request just admitted.
    pub fn new(id: u32, phases: Vec<Phase>, accept_in_phases: bool) -> (h: Handler)
        ensures
            h@ == (HandlerView {
                id,
                phases: phases@,
                at: 0,
                accept_in_phases,
                walk: Walk::Unstarted,
            }),
    {
        Handler { id, phases, at: 0, accept_in_phases, walk: Walk::Unstarted }
    }

    /// Whether the handler can take a turn: it is at a place in its plan it can be, and a core is
    /// free where one is held.
    pub fn can_turn(&self, sim: &Sim, turn: Turn) -> (b: bool)
        ensures
            b == (walkable(self@) && (turn is Core ==> sim@.cpu.len() < CORES)),
    {
        let mut i: usize = 0;
        while i < self.phases.len()
            invariant
                i <= self.phases@.len(),
                forall|j: int|
                    0 <= j < i ==> ((#[trigger] self.phases@[j]) matches Phase::Io(d) ==> d * 20
                        <= u64::MAX),
            decreases self.phases@.len() - i,
        {
            if let Phase::Io(d) = self.phases[i] {
                if d as u128 * 20 > u64::MAX as u128 {
                    assert(!(self@.phases[i as int] matches Phase::Io(d) ==> d * 20 <= u64::MAX));
                    return false;
                }
            }
            i += 1;
        }
        let there: bool = self.at < self.phases.len();
        let on_cpu: bool = there && match self.phases[self.at] {
            Phase::Cpu(_) => true,
            Phase::Io(_) => false,
        };
        let placed: bool = match self.walk {
            Walk::Unstarted => self.at == 0,
            Walk::Waiting | Walk::Accepting { .. } | Walk::Burst => on_cpu,
            Walk::Asleep => there,
            Walk::Done => true,
        };
        let core: bool = match turn {
            Turn::Core => sim.cpu.len() < CORES,
            _ => true,
        };
        placed && core
    }

    /// Take one turn: move the request through the server's state, and say what is needed next.
    pub fn turn(&mut self, sim: &mut Sim, turn: Turn, now: Ticks) -> (need: Need)
        requires
            walkable(old(self)@),
            turn is Core ==> old(sim)@.cpu.len() < CORES,
        ensures
            (final(self)@, final(sim)@, need) == spec_turn(old(self)@, old(sim)@, turn, now),
            walkable(final(self)@),
    {
        match (self.walk, turn) {
            (Walk::Unstarted, Turn::Begin) => self.enter(sim, false, now),
            (Walk::Waiting, Turn::Core) => {
                if self.at == 0 && !self.accept_in_phases {
                    drop_id(&mut sim.queue_stubs, self.id);
                } else {
                    drop_id(&mut sim.ready, self.id);
                }
                assert(sim@ == dequeued(old(self)@, old(sim)@));
                if self.at == 0 && self.accept_in_phases {
                    let span: u64 = ACCEPT_CPU_MS * MS;
                    let slot: usize = sim.claim_core(self.id, ACCEPT_PHASE, span, now, false);
                    sim.hop(self.id, Station::Accept { slot, p: Part::none() }, now);
                    self.walk = Walk::Accepting { slot };
                    Need::Sleep { release: false, span }
                } else {
                    let span: u64 = self.burst();
                    let slot: usize = sim.claim_core(self.id, self.at, span, now, false);
                    sim.hop(self.id, Station::Cpu { slot, p: Part::none(), hung: false }, now);
                    self.walk = Walk::Burst;
                    Need::Sleep { release: false, span }
                }
            },
            (Walk::Accepting { slot }, Turn::Woke) => {
                drop_id(&mut sim.cpu, self.id);
                let span: u64 = self.burst();
                sim.cpu.push(
                    CpuRec { id: self.id, phase: self.at, slot, start: now, dur: span, hung: false },
                );
                sim.hop(self.id, Station::Cpu { slot, p: Part::none(), hung: false }, now);
                self.walk = Walk::Burst;
                Need::Sleep { release: false, span }
            },
            (Walk::Burst, Turn::Woke) => {
                drop_id(&mut sim.cpu, self.id);
                assert(self.at < self.phases.len());
                self.at = self.at + 1;
                self.enter(sim, true, now)
            },
            (Walk::Asleep, Turn::Woke) => {
                drop_id(&mut sim.io, self.id);
                sim.enter_run_queue(self.id, now);
                assert(self.at < self.phases.len());
                self.at = self.at + 1;
                self.enter(sim, false, now)
            },
            _ => Need::Nothing,
        }
    }

    /// The burst of the CPU phase it is in.
    fn burst(&self) -> (d: Ticks)
        requires
            self@.at < self@.phases.len(),
        ensures
            d == burst_at(self@),
    {
        match self.phases[self.at] {
            Phase::Cpu(d) => d,
            Phase::Io(d) => d,
        }
    }

    /// Reach the phase it is at: ask for a core, go to sleep, or finish.
    fn enter(&mut self, sim: &mut Sim, release: bool, now: Ticks) -> (need: Need)
        requires
            forall|i: int|
                0 <= i < old(self)@.phases.len() ==> ((#[trigger] old(self)@.phases[i]) matches Phase::Io(
                    d,
                ) ==> d * 20 <= u64::MAX),
        ensures
            (final(self)@, final(sim)@, need) == spec_enter(
                old(self)@,
                old(sim)@,
                release,
                now,
            ),
            walkable(final(self)@),
    {
        if self.at >= self.phases.len() {
            self.walk = Walk::Done;
            return Need::Finished { release };
        }
        let ghost h = self@;
        match self.phases[self.at] {
            Phase::Cpu(_) => {
                self.walk = Walk::Waiting;
                Need::Core { release }
            },
            Phase::Io(d) => {
                assert(h.phases[h.at] == Phase::Io(d));
                let speed: u64 = if sim.io_speed < 5 {
                    5
                } else {
                    sim.io_speed as u64
                };
                let dur: u64 = stretch(d, speed);
                sim.io.push(IoRec { id: self.id, start: now, dur });
                sim.hop(self.id, Station::Io { p: Part::none() }, now);
                self.walk = Walk::Asleep;
                Need::Sleep { release, span: dur }
            },
        }
    }
}

/// A wait of `d` at an IO speed in hundredths.
fn stretch(d: Ticks, speed: u64) -> (dur: Ticks)
    requires
        5 <= speed <= u32::MAX,
        d * 20 <= u64::MAX,
    ensures
        dur == (d * 100 + speed as int / 2) / speed as int,
{
    let scaled: u128 = (d as u128) * 100 + (speed / 2) as u128;
    assert((d * 100 + speed as int / 2) / speed as int <= d * 20) by (nonlinear_arith)
        requires
            speed >= 5,
            d >= 0,
    ;
    (scaled / (speed as u128)) as u64
}

impl SimView {
    /// The stack admits a request to its handler. Without a request queue, the accept task joins
    /// the run queue; with one, the request stays where it is until a worker frees.
    pub open spec fn take_in(self, id: u32, accept_in_phases: bool, now: Ticks) -> SimView {
        let entered = SimView { occupiers: self.occupiers.push(id), ..self };
        if accept_in_phases {
            entered.leave_backlog(id).enter_run_queue(id, now)
        } else {
            entered
        }
    }

    /// A handler ends, whether it finished or was cancelled.
    pub open spec fn vacate(self, id: u32) -> SimView {
        SimView { occupiers: without(self.occupiers, id), ..self }
    }
}

impl Sim {
    /// The stack admits a request to its handler.
    pub fn take_in(&mut self, id: u32, accept_in_phases: bool, now: Ticks)
        ensures
            final(self)@ == old(self)@.take_in(id, accept_in_phases, now),
    {
        self.occupiers.push(id);
        if accept_in_phases {
            self.leave_backlog(id);
            self.enter_run_queue(id, now);
        }
    }

    /// A handler ends: its place among the occupiers is free.
    pub fn vacate(&mut self, id: u32)
        ensures
            final(self)@ == old(self)@.vacate(id),
    {
        drop_id(&mut self.occupiers, id);
    }
}

} // verus!
