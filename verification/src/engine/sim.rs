//! One server's state: where every request stands, and the tallies kept as they leave.

use std::collections::VecDeque;

use vstd::prelude::*;

use crate::compose::Gate;
use crate::engine::clock::{Part, Ticks};
use crate::engine::outcome::{Load, Outcome, Reply};
use crate::engine::stack::CORES;
use crate::engine::tagged::{drop_id, without, Tagged};

verus! {

/// The phase an accept burst is tagged with.
pub const ACCEPT_PHASE: usize = usize::MAX;

/// Where a live request sits in its lifecycle. `p` is its progress through a timed leg.
#[derive(Clone, Copy, PartialEq, Eq, Structural, Debug)]
pub enum Station {
    /// In flight down the SYN pipe. `slot` is the place it lands on if nothing drains.
    NetworkIn { p: Part, slot: usize },
    /// The verdict is in and its reply is in flight home.
    NetworkOut { p: Part, reply: Reply },
    /// On a core for the accept burst.
    Accept { slot: usize, p: Part },
    /// In the request queue awaiting admission; `age` is its progress toward the deadline.
    AppQueue { idx: usize, age: Part },
    /// In the kernel's accept queue.
    SynBacklog { idx: usize },
    /// Awaiting a worker in the runtime's run queue.
    RunQueue { idx: usize },
    /// On a core for a compute burst. `hung` is a leaked worker that never frees.
    Cpu { slot: usize, p: Part, hung: bool },
    /// Sleeping in IO.
    Io { p: Part },
}

/// Which station it is, whatever its parameters.
#[derive(Clone, Copy, PartialEq, Eq, Structural, Debug)]
pub enum StationKind {
    NetworkIn,
    NetworkOut,
    Accept,
    AppQueue,
    SynBacklog,
    RunQueue,
    Cpu,
    Io,
}

impl Station {
    /// Which station it is.
    pub open spec fn kind(self) -> StationKind {
        match self {
            Station::NetworkIn { .. } => StationKind::NetworkIn,
            Station::NetworkOut { .. } => StationKind::NetworkOut,
            Station::Accept { .. } => StationKind::Accept,
            Station::AppQueue { .. } => StationKind::AppQueue,
            Station::SynBacklog { .. } => StationKind::SynBacklog,
            Station::RunQueue { .. } => StationKind::RunQueue,
            Station::Cpu { .. } => StationKind::Cpu,
            Station::Io { .. } => StationKind::Io,
        }
    }
}

/// A request entering a station, stamped with the instant it did.
#[derive(Clone, Copy, PartialEq, Eq, Structural, Debug)]
pub struct Hop {
    pub id: u32,
    pub station: Station,
    pub t: Ticks,
}

/// A request in a network leg: it lands at `lands`, after `dur` in flight.
#[derive(Clone, Copy, PartialEq, Eq, Structural, Debug)]
pub struct Flight {
    pub id: u32,
    pub lands: Ticks,
    pub dur: Ticks,
}

impl Flight {
    /// How much of the leg is behind it.
    pub open spec fn spec_p(self, now: Ticks) -> Part {
        Part {
            done: if now >= self.lands {
                self.dur
            } else if self.lands - now >= self.dur {
                0
            } else {
                (self.dur - (self.lands - now)) as u64
            },
            of: self.dur,
        }
    }

    /// How much of the leg is behind it.
    pub fn p(&self, now: Ticks) -> (p: Part)
        ensures
            p == self.spec_p(now),
            p.wf(),
    {
        let left: u64 = self.lands.saturating_sub(now);
        Part { done: self.dur.saturating_sub(left), of: self.dur }
    }
}

impl Tagged for Flight {
    open spec fn tag(self) -> u32 {
        self.id
    }

    fn id_of(&self) -> (id: u32) {
        self.id
    }
}

/// A reply in flight home, and what it carries.
#[derive(Clone, Copy, PartialEq, Eq, Structural, Debug)]
pub struct Homeward {
    pub flight: Flight,
    pub reply: Reply,
}

impl Tagged for Homeward {
    open spec fn tag(self) -> u32 {
        self.flight.id
    }

    fn id_of(&self) -> (id: u32) {
        self.flight.id
    }
}

/// A request waiting in a queue, and since when.
#[derive(Clone, Copy, PartialEq, Eq, Structural, Debug)]
pub struct Waiting {
    pub id: u32,
    pub since: Ticks,
}

impl Tagged for Waiting {
    open spec fn tag(self) -> u32 {
        self.id
    }

    fn id_of(&self) -> (id: u32) {
        self.id
    }
}

/// A request on a core.
#[derive(Clone, Copy, PartialEq, Eq, Structural, Debug)]
pub struct CpuRec {
    pub id: u32,
    pub phase: usize,
    pub slot: usize,
    pub start: Ticks,
    pub dur: Ticks,
    /// A hung handler that never frees this worker.
    pub hung: bool,
}

impl CpuRec {
    /// The station a request on this core stands at.
    pub open spec fn kind(self) -> StationKind {
        if self.phase == ACCEPT_PHASE && !self.hung {
            StationKind::Accept
        } else {
            StationKind::Cpu
        }
    }
}

impl Tagged for CpuRec {
    open spec fn tag(self) -> u32 {
        self.id
    }

    fn id_of(&self) -> (id: u32) {
        self.id
    }
}

/// A request asleep on a dependency.
#[derive(Clone, Copy, PartialEq, Eq, Structural, Debug)]
pub struct IoRec {
    pub id: u32,
    pub start: Ticks,
    pub dur: Ticks,
}

impl Tagged for IoRec {
    open spec fn tag(self) -> u32 {
        self.id
    }

    fn id_of(&self) -> (id: u32) {
        self.id
    }
}

/// How many requests came in, and how many left by each way out.
#[derive(Clone, Copy, PartialEq, Eq, Structural, Debug)]
pub struct Stats {
    pub arrived: u32,
    pub queue_timeout: u32,
    pub rejected: u32,
    pub rate_limited: u32,
    pub success: u32,
    pub response_timeout: u32,
    pub processing_timeout: u32,
}

impl Stats {
    /// Nothing counted yet.
    pub open spec fn none() -> Stats {
        Stats {
            arrived: 0,
            queue_timeout: 0,
            rejected: 0,
            rate_limited: 0,
            success: 0,
            response_timeout: 0,
            processing_timeout: 0,
        }
    }

    /// Every tally can count one more.
    pub open spec fn room(self) -> bool {
        &&& self.arrived < u32::MAX
        &&& self.queue_timeout < u32::MAX
        &&& self.rejected < u32::MAX
        &&& self.rate_limited < u32::MAX
        &&& self.success < u32::MAX
        &&& self.response_timeout < u32::MAX
        &&& self.processing_timeout < u32::MAX
    }

    /// How many requests have left, whichever way.
    pub open spec fn terminal(self) -> int {
        self.queue_timeout + self.rejected + self.rate_limited + self.success
            + self.response_timeout + self.processing_timeout
    }

    /// One more arrival.
    pub open spec fn landed(self) -> Stats {
        Stats { arrived: (self.arrived + 1) as u32, ..self }
    }

    /// One more departure, by `outcome`.
    pub open spec fn with(self, outcome: Outcome) -> Stats {
        match outcome {
            Outcome::Success => Stats { success: (self.success + 1) as u32, ..self },
            Outcome::QueueTimeout => Stats {
                queue_timeout: (self.queue_timeout + 1) as u32,
                ..self
            },
            Outcome::Rejected => Stats { rejected: (self.rejected + 1) as u32, ..self },
            Outcome::RateLimited => Stats { rate_limited: (self.rate_limited + 1) as u32, ..self },
            Outcome::ResponseTimeout => Stats {
                response_timeout: (self.response_timeout + 1) as u32,
                ..self
            },
            Outcome::ProcessingTimeout => Stats {
                processing_timeout: (self.processing_timeout + 1) as u32,
                ..self
            },
        }
    }
}

impl Stats {
    /// Whether every tally can count one more.
    pub fn has_room(&self) -> (b: bool)
        ensures
            b == self.room(),
    {
        self.arrived < u32::MAX && self.queue_timeout < u32::MAX && self.rejected < u32::MAX
            && self.rate_limited < u32::MAX && self.success < u32::MAX && self.response_timeout
            < u32::MAX && self.processing_timeout < u32::MAX
    }
}

impl Default for Stats {
    fn default() -> (s: Stats)
        ensures
            s == Stats::none(),
    {
        Stats {
            arrived: 0,
            queue_timeout: 0,
            rejected: 0,
            rate_limited: 0,
            success: 0,
            response_timeout: 0,
            processing_timeout: 0,
        }
    }
}

/// One server's live counts: busy cores, the three queue depths, in-flight work, and the
/// running outcome tallies.
#[derive(Clone, Copy, PartialEq, Eq, Structural, Debug)]
pub struct ServerCounts {
    pub busy: usize,
    pub tcp: usize,
    pub req: usize,
    pub run: usize,
    pub inflight: usize,
    pub retried: usize,
    pub success: usize,
    pub failed: usize,
    /// Turned away at the door for being over a tenant's share.
    pub rate_limited: usize,
}

impl ServerCounts {
    /// Nothing has happened here.
    pub open spec fn none() -> ServerCounts {
        ServerCounts {
            busy: 0,
            tcp: 0,
            req: 0,
            run: 0,
            inflight: 0,
            retried: 0,
            success: 0,
            failed: 0,
            rate_limited: 0,
        }
    }

    /// Whether nothing has happened here.
    pub fn untouched(&self) -> (b: bool)
        ensures
            b == (*self == ServerCounts::none()),
    {
        *self == ServerCounts::default()
    }
}

impl Default for ServerCounts {
    fn default() -> (c: ServerCounts)
        ensures
            c == ServerCounts::none(),
    {
        ServerCounts {
            busy: 0,
            tcp: 0,
            req: 0,
            run: 0,
            inflight: 0,
            retried: 0,
            success: 0,
            failed: 0,
            rate_limited: 0,
        }
    }
}

/// One reading of core occupancy.
#[derive(Clone, Copy, PartialEq, Eq, Structural, Debug)]
pub struct Occupied {
    pub t: Ticks,
    pub busy: usize,
}

/// One server's state.
pub struct Sim {
    /// Requests that reached a verdict since the last snapshot.
    pub departures: Vec<(u32, Outcome)>,
    /// Round trips of the requests that reached a verdict since the last snapshot.
    pub latencies: Vec<(u32, Ticks)>,
    /// Stations entered since the last snapshot, in order.
    pub hops: Vec<Hop>,
    /// Requests in the inbound leg, in send order.
    pub net_in: Vec<Flight>,
    /// Replies in the outbound leg.
    pub net_out: Vec<Homeward>,
    pub syn_backlog: Vec<Waiting>,
    pub queue_stubs: Vec<Waiting>,
    pub cpu: Vec<CpuRec>,
    pub io: Vec<IoRec>,
    pub ready: Vec<u32>,
    /// Requests admitted past admission, in entry order.
    pub occupiers: Vec<u32>,
    pub stats: Stats,
    pub last_latency: Option<Ticks>,
    pub done_window: VecDeque<Ticks>,
    pub success_window: VecDeque<Ticks>,
    pub timeout_window: VecDeque<Ticks>,
    pub response_timeout: Ticks,
    pub processing_timeout_enabled: bool,
    /// IO speed in hundredths: 100 is the baseline, and lower is a slower dependency.
    pub io_speed: u32,
    pub gate: Gate,
    /// Core occupancy as it changed, over the trailing OS window.
    pub util_samples: VecDeque<Occupied>,
}

/// What a server's state holds.
#[verifier::ext_equal]
pub struct SimView {
    pub departures: Seq<(u32, Outcome)>,
    pub latencies: Seq<(u32, Ticks)>,
    pub hops: Seq<Hop>,
    pub net_in: Seq<Flight>,
    pub net_out: Seq<Homeward>,
    pub syn_backlog: Seq<Waiting>,
    pub queue_stubs: Seq<Waiting>,
    pub cpu: Seq<CpuRec>,
    pub io: Seq<IoRec>,
    pub ready: Seq<u32>,
    pub occupiers: Seq<u32>,
    pub stats: Stats,
    pub last_latency: Option<Ticks>,
    pub done_window: Seq<Ticks>,
    pub success_window: Seq<Ticks>,
    pub timeout_window: Seq<Ticks>,
    pub response_timeout: Ticks,
    pub processing_timeout_enabled: bool,
    pub io_speed: u32,
    pub gate: Gate,
    pub util_samples: Seq<Occupied>,
}

impl View for Sim {
    type V = SimView;

    open spec fn view(&self) -> SimView {
        SimView {
            departures: self.departures@,
            latencies: self.latencies@,
            hops: self.hops@,
            net_in: self.net_in@,
            net_out: self.net_out@,
            syn_backlog: self.syn_backlog@,
            queue_stubs: self.queue_stubs@,
            cpu: self.cpu@,
            io: self.io@,
            ready: self.ready@,
            occupiers: self.occupiers@,
            stats: self.stats,
            last_latency: self.last_latency,
            done_window: self.done_window@,
            success_window: self.success_window@,
            timeout_window: self.timeout_window@,
            response_timeout: self.response_timeout,
            processing_timeout_enabled: self.processing_timeout_enabled,
            io_speed: self.io_speed,
            gate: self.gate,
            util_samples: self.util_samples@,
        }
    }
}

/// Whether a core is taken.
pub open spec fn taken(cpu: Seq<CpuRec>, slot: usize) -> bool {
    exists|i: int| 0 <= i < cpu.len() && (#[trigger] cpu[i]).slot == slot
}

/// Whether `slot` is the lowest free core.
pub open spec fn lowest_free(cpu: Seq<CpuRec>, slot: usize) -> bool {
    &&& slot < CORES
    &&& !taken(cpu, slot)
    &&& forall|s: usize| s < slot ==> #[trigger] taken(cpu, s)
}

/// The lowest free core, where one is free.
pub open spec fn free_slot(cpu: Seq<CpuRec>) -> usize {
    choose|slot: usize| lowest_free(cpu, slot)
}

/// A lowest free core is the only one.
pub proof fn free_slot_is(cpu: Seq<CpuRec>, slot: usize)
    requires
        lowest_free(cpu, slot),
    ensures
        free_slot(cpu) == slot,
{
    let chosen = free_slot(cpu);
    assert(lowest_free(cpu, chosen));
    if chosen < slot {
        assert(taken(cpu, chosen));
    } else if slot < chosen {
        assert(taken(cpu, slot));
    }
}

/// While fewer cores are busy than there are, a core is free.
pub proof fn a_core_is_free(cpu: Seq<CpuRec>)
    requires
        cpu.len() < CORES,
    ensures
        exists|slot: usize| slot < CORES && !taken(cpu, slot),
{
    if forall|slot: usize| slot < CORES ==> taken(cpu, slot) {
        let slots = cpu.map_values(|c: CpuRec| c.slot as int);
        let all = vstd::set_lib::set_int_range(0, CORES as int);
        vstd::set_lib::lemma_int_range(0, CORES as int);
        assert(all.subset_of(slots.to_set())) by {
            assert forall|s: int| all.contains(s) implies slots.to_set().contains(s) by {
                assert(taken(cpu, s as usize));
                let i = choose|i: int| 0 <= i < cpu.len() && (#[trigger] cpu[i]).slot == s as usize;
                assert(slots[i] == s);
            }
        }
        slots.lemma_cardinality_of_set();
        vstd::set_lib::lemma_len_subset(all, slots.to_set());
    }
}

/// While fewer cores are busy than there are, the lowest free core is one.
pub proof fn free_slot_is_free(cpu: Seq<CpuRec>)
    requires
        cpu.len() < CORES,
    ensures
        lowest_free(cpu, free_slot(cpu)),
{
    a_core_is_free(cpu);
    lowest_free_from(cpu, 0);
}

proof fn lowest_free_from(cpu: Seq<CpuRec>, from: usize)
    requires
        forall|s: usize| s < from ==> #[trigger] taken(cpu, s),
        exists|slot: usize| slot < CORES && !taken(cpu, slot),
        from < CORES,
    ensures
        exists|slot: usize| lowest_free(cpu, slot),
    decreases CORES - from,
{
    let free = choose|slot: usize| slot < CORES && !taken(cpu, slot);
    if taken(cpu, from) {
        assert(free > from);
        lowest_free_from(cpu, (from + 1) as usize);
    } else {
        assert(lowest_free(cpu, from));
    }
}

impl SimView {
    /// A server with nothing on it.
    pub open spec fn fresh(
        response_timeout: Ticks,
        processing_timeout_enabled: bool,
        io_speed: u32,
        gate: Gate,
    ) -> SimView {
        SimView {
            departures: Seq::empty(),
            latencies: Seq::empty(),
            hops: Seq::empty(),
            net_in: Seq::empty(),
            net_out: Seq::empty(),
            syn_backlog: Seq::empty(),
            queue_stubs: Seq::empty(),
            cpu: Seq::empty(),
            io: Seq::empty(),
            ready: Seq::empty(),
            occupiers: Seq::empty(),
            stats: Stats::none(),
            last_latency: None,
            done_window: Seq::empty(),
            success_window: Seq::empty(),
            timeout_window: Seq::empty(),
            response_timeout,
            processing_timeout_enabled,
            io_speed,
            gate,
            util_samples: Seq::empty(),
        }
    }

    /// Everything committed to this machine that it has not yet answered.
    pub open spec fn committed(self) -> nat {
        self.net_in.len() + self.syn_backlog.len() + self.queue_stubs.len() + self.ready.len()
            + self.cpu.len() + self.io.len()
    }

    /// Its counts fit the types they are read in.
    pub open spec fn countable(self) -> bool {
        &&& self.committed() + self.net_out.len() <= usize::MAX
        &&& self.stats.rejected + self.stats.queue_timeout <= u32::MAX
        &&& self.stats.response_timeout + self.stats.processing_timeout <= u32::MAX
    }

    /// The load this machine can say.
    pub open spec fn reported(self) -> Load {
        Load {
            queued: (self.queue_stubs.len() + self.ready.len()) as usize,
            processed: (self.cpu.len() + self.io.len()) as usize,
        }
    }

    /// The same split over everything committed to the machine.
    pub open spec fn committed_load(self) -> Load {
        Load {
            queued: (self.net_in.len() + self.syn_backlog.len() + self.queue_stubs.len()
                + self.ready.len()) as usize,
            processed: (self.cpu.len() + self.io.len()) as usize,
        }
    }

    /// The live counts a box draws.
    pub open spec fn counts(self) -> ServerCounts {
        ServerCounts {
            busy: self.cpu.len() as usize,
            tcp: self.syn_backlog.len() as usize,
            req: self.queue_stubs.len() as usize,
            run: self.ready.len() as usize,
            inflight: (self.committed() + self.net_out.len()) as usize,
            retried: (self.stats.rejected + self.stats.queue_timeout) as usize,
            success: self.stats.success as usize,
            failed: (self.stats.response_timeout + self.stats.processing_timeout) as usize,
            rate_limited: self.stats.rate_limited as usize,
        }
    }

    /// A request enters a station.
    pub open spec fn hop(self, id: u32, station: Station, t: Ticks) -> SimView {
        SimView { hops: self.hops.push(Hop { id, station, t }), ..self }
    }

    /// A request joins the run queue.
    pub open spec fn enter_run_queue(self, id: u32, t: Ticks) -> SimView {
        SimView { ready: self.ready.push(id), ..self }.hop(
            id,
            Station::RunQueue { idx: self.ready.len() as usize },
            t,
        )
    }

    /// A request takes a core.
    pub open spec fn occupy(
        self,
        id: u32,
        phase: usize,
        slot: usize,
        start: Ticks,
        dur: Ticks,
        hung: bool,
    ) -> SimView {
        SimView { cpu: self.cpu.push(CpuRec { id, phase, slot, start, dur, hung }), ..self }
    }

    /// A request takes the lowest free core.
    pub open spec fn claim_core(
        self,
        id: u32,
        phase: usize,
        dur: Ticks,
        now: Ticks,
        hung: bool,
    ) -> SimView {
        self.occupy(id, phase, free_slot(self.cpu), now, dur, hung)
    }

    /// A request gives up its core.
    pub open spec fn leave_core(self, id: u32) -> SimView {
        SimView { cpu: without(self.cpu, id), ..self }
    }

    /// A connection leaves the kernel's accept queue.
    pub open spec fn leave_backlog(self, id: u32) -> SimView {
        SimView { syn_backlog: without(self.syn_backlog, id), ..self }
    }

    /// A request leaves the request queue.
    pub open spec fn leave_queue(self, id: u32) -> SimView {
        SimView { queue_stubs: without(self.queue_stubs, id), ..self }
    }

    /// A request leaves the run queue.
    pub open spec fn leave_run_queue(self, id: u32) -> SimView {
        SimView { ready: without(self.ready, id), ..self }
    }

    /// A client gives up: counted and reported, with nothing travelling home.
    pub open spec fn give_up(self, id: u32) -> SimView {
        SimView {
            stats: self.stats.with(Outcome::ResponseTimeout),
            departures: self.departures.push((id, Outcome::ResponseTimeout)),
            ..self
        }
    }

    /// A client gives up, and the readouts count it as turned away.
    pub open spec fn time_out(self, id: u32, now: Ticks) -> SimView {
        SimView { timeout_window: self.timeout_window.push(now), ..self.give_up(id) }
    }

    /// The client has its answer.
    pub open spec fn receive(
        self,
        id: u32,
        outcome: Outcome,
        round_trip: Ticks,
        now: Ticks,
    ) -> SimView {
        SimView {
            last_latency: Some(round_trip),
            stats: self.stats.with(outcome),
            done_window: if outcome.spec_served() {
                self.done_window.push(now)
            } else {
                self.done_window
            },
            success_window: if outcome is Success {
                self.success_window.push(now)
            } else {
                self.success_window
            },
            timeout_window: if outcome.spec_served() {
                self.timeout_window
            } else {
                self.timeout_window.push(now)
            },
            departures: self.departures.push((id, outcome)),
            latencies: self.latencies.push((id, round_trip)),
            ..self
        }
    }
}

impl Sim {
    /// A server with nothing on it.
    pub fn new(
        response_timeout: Ticks,
        processing_timeout_enabled: bool,
        io_speed: u32,
        gate: Gate,
    ) -> (s: Sim)
        ensures
            s@ == SimView::fresh(response_timeout, processing_timeout_enabled, io_speed, gate),
    {
        Sim {
            departures: Vec::new(),
            latencies: Vec::new(),
            hops: Vec::new(),
            net_in: Vec::new(),
            net_out: Vec::new(),
            syn_backlog: Vec::new(),
            queue_stubs: Vec::new(),
            cpu: Vec::new(),
            io: Vec::new(),
            ready: Vec::new(),
            occupiers: Vec::new(),
            stats: Stats::default(),
            last_latency: None,
            done_window: VecDeque::new(),
            success_window: VecDeque::new(),
            timeout_window: VecDeque::new(),
            response_timeout,
            processing_timeout_enabled,
            io_speed,
            gate,
            util_samples: VecDeque::new(),
        }
    }

    /// Everything committed to this machine that it has not yet answered: on the wire in,
    /// waiting to be accepted, waiting for admission, waiting for a worker, on a core, or
    /// asleep on a dependency.
    pub fn committed(&self) -> (n: usize)
        requires
            self@.countable(),
        ensures
            n as nat == self@.committed(),
    {
        self.net_in.len() + self.syn_backlog.len() + self.queue_stubs.len() + self.ready.len()
            + self.cpu.len() + self.io.len()
    }

    /// Whether its counts fit the types they are read in.
    pub fn is_countable(&self) -> (b: bool)
        ensures
            b == self@.countable(),
    {
        let all: u128 = self.net_in.len() as u128 + self.syn_backlog.len() as u128
            + self.queue_stubs.len() as u128 + self.ready.len() as u128 + self.cpu.len() as u128
            + self.io.len() as u128 + self.net_out.len() as u128;
        all <= usize::MAX as u128 && self.stats.rejected as u64 + self.stats.queue_timeout as u64
            <= u32::MAX as u64 && self.stats.response_timeout as u64
            + self.stats.processing_timeout as u64 <= u32::MAX as u64
    }

    /// The load this machine can say: what is waiting, and what is being worked on.
    pub fn reported(&self) -> (load: Load)
        requires
            self@.countable(),
        ensures
            load == self@.reported(),
    {
        Load {
            queued: self.queue_stubs.len() + self.ready.len(),
            processed: self.cpu.len() + self.io.len(),
        }
    }

    /// The same split over everything committed to the machine, the SYN backlog and the wire
    /// in with it.
    pub fn committed_load(&self) -> (load: Load)
        requires
            self@.countable(),
        ensures
            load == self@.committed_load(),
    {
        Load {
            queued: self.net_in.len() + self.syn_backlog.len() + self.queue_stubs.len()
                + self.ready.len(),
            processed: self.cpu.len() + self.io.len(),
        }
    }

    /// A one-server reading for the fleet view.
    pub fn counts(&self) -> (counts: ServerCounts)
        requires
            self@.countable(),
        ensures
            counts == self@.counts(),
    {
        ServerCounts {
            busy: self.cpu.len(),
            tcp: self.syn_backlog.len(),
            req: self.queue_stubs.len(),
            run: self.ready.len(),
            inflight: self.committed() + self.net_out.len(),
            retried: (self.stats.rejected + self.stats.queue_timeout) as usize,
            success: self.stats.success as usize,
            failed: (self.stats.response_timeout + self.stats.processing_timeout) as usize,
            rate_limited: self.stats.rate_limited as usize,
        }
    }

    /// Record a request entering a station.
    pub fn hop(&mut self, id: u32, station: Station, t: Ticks)
        ensures
            final(self)@ == old(self)@.hop(id, station, t),
    {
        self.hops.push(Hop { id, station, t });
    }

    /// Push `id` onto the run queue and stamp the hop: its place is the tail.
    pub fn enter_run_queue(&mut self, id: u32, t: Ticks)
        ensures
            final(self)@ == old(self)@.enter_run_queue(id, t),
    {
        let idx: usize = self.ready.len();
        self.ready.push(id);
        self.hop(id, Station::RunQueue { idx }, t);
    }

    /// Take a core for `id`: choosing the free slot and occupying it are one step. A caller
    /// holds a core permit, so a core is free.
    pub fn claim_core(&mut self, id: u32, phase: usize, dur: Ticks, now: Ticks, hung: bool) -> (slot:
        usize)
        requires
            old(self)@.cpu.len() < CORES,
        ensures
            final(self)@ == old(self)@.claim_core(id, phase, dur, now, hung),
            lowest_free(old(self)@.cpu, slot),
            slot == free_slot(old(self)@.cpu),
    {
        let mut slot: usize = 0;
        proof {
            a_core_is_free(self.cpu@);
        }
        while self.slot_taken(slot)
            invariant
                slot < CORES,
                exists|s: usize| s < CORES && !taken(self.cpu@, s),
                forall|s: usize| s < slot ==> #[trigger] taken(self.cpu@, s),
            ensures
                lowest_free(self.cpu@, slot),
            decreases CORES - slot,
        {
            proof {
                let free = choose|s: usize| s < CORES && !taken(self.cpu@, s);
                assert(taken(self.cpu@, slot));
                assert(free > slot);
            }
            slot += 1;
        }
        proof {
            free_slot_is(self.cpu@, slot);
        }
        self.cpu.push(CpuRec { id, phase, slot, start: now, dur, hung });
        slot
    }

    /// Whether a core is taken.
    fn slot_taken(&self, slot: usize) -> (b: bool)
        ensures
            b == taken(self@.cpu, slot),
    {
        let mut i: usize = 0;
        while i < self.cpu.len()
            invariant
                i <= self.cpu@.len(),
                forall|j: int| 0 <= j < i ==> (#[trigger] self.cpu@[j]).slot != slot,
            decreases self.cpu@.len() - i,
        {
            if self.cpu[i].slot == slot {
                assert(self.cpu@[i as int].slot == slot);
                return true;
            }
            i += 1;
        }
        false
    }

    /// A connection leaves the kernel's accept queue, from wherever it stands.
    pub fn leave_backlog(&mut self, id: u32)
        ensures
            final(self)@ == old(self)@.leave_backlog(id),
    {
        drop_id(&mut self.syn_backlog, id);
    }

    /// Count a departure.
    fn tally(&mut self, outcome: Outcome)
        requires
            old(self)@.stats.room(),
        ensures
            final(self)@ == (SimView { stats: old(self)@.stats.with(outcome), ..old(self)@ }),
    {
        match outcome {
            Outcome::Success => self.stats.success += 1,
            Outcome::ResponseTimeout => self.stats.response_timeout += 1,
            Outcome::ProcessingTimeout => self.stats.processing_timeout += 1,
            Outcome::QueueTimeout => self.stats.queue_timeout += 1,
            Outcome::Rejected => self.stats.rejected += 1,
            Outcome::RateLimited => self.stats.rate_limited += 1,
        }
    }

    /// A client gives up on a connection nobody accepted.
    pub fn give_up(&mut self, id: u32)
        requires
            old(self)@.stats.room(),
        ensures
            final(self)@ == old(self)@.give_up(id),
    {
        self.tally(Outcome::ResponseTimeout);
        self.departures.push((id, Outcome::ResponseTimeout));
    }

    /// A client gives up, and the readouts count it as turned away.
    pub fn time_out(&mut self, id: u32, now: Ticks)
        requires
            old(self)@.stats.room(),
        ensures
            final(self)@ == old(self)@.time_out(id, now),
    {
        self.give_up(id);
        self.timeout_window.push_back(now);
    }

    /// Receipt: the client has its answer. Every tally is stamped at the end of the leg it
    /// belongs to.
    pub fn receive(&mut self, id: u32, outcome: Outcome, round_trip: Ticks, now: Ticks)
        requires
            old(self)@.stats.room(),
        ensures
            final(self)@ == old(self)@.receive(id, outcome, round_trip, now),
    {
        self.last_latency = Some(round_trip);
        self.tally(outcome);
        if outcome.served() {
            self.done_window.push_back(now);
            match outcome {
                Outcome::Success => self.success_window.push_back(now),
                _ => {},
            }
        } else {
            self.timeout_window.push_back(now);
        }
        self.departures.push((id, outcome));
        self.latencies.push((id, round_trip));
    }
}

/// What the machine is committed to beyond what it can say is the kernel's backlog and the wire:
/// nothing more, and nothing less.
pub proof fn commitment_is_what_it_says_and_the_wire(s: SimView)
    requires
        s.countable(),
    ensures
        s.committed() == s.reported().queued + s.reported().processed + s.syn_backlog.len()
            + s.net_in.len(),
        s.committed_load().queued == s.reported().queued + s.syn_backlog.len() + s.net_in.len(),
        s.committed_load().processed == s.reported().processed,
        s.counts().inflight == s.committed() + s.net_out.len(),
{
}

/// A core is taken by whoever holds it, and by nobody else.
pub proof fn a_core_is_taken_by_its_holder(cpu: Seq<CpuRec>, i: int, slot: usize)
    ensures
        0 <= i < cpu.len() ==> taken(cpu, cpu[i].slot),
        (forall|k: int| 0 <= k < cpu.len() ==> (#[trigger] cpu[k]).slot != slot) ==> !taken(
            cpu,
            slot,
        ),
        lowest_free(cpu, slot) && 0 <= i < cpu.len() ==> cpu[i].slot != slot,
{
}

} // verus!
