//! The reading taken of a server each frame: every live request and where it stands, what came
//! and went since the last one, and the counts the readouts are made of.

use std::collections::VecDeque;

use vstd::prelude::*;

use crate::compose::Layers;
use crate::engine::clock::{Part, Ticks, MS, TIMEOUT_MS};
use crate::engine::meters::{trim_window, trimmed};
use crate::engine::outcome::Outcome;
use crate::engine::sim::{
    CpuRec, Hop, IoRec, Sim, SimView, Station, Stats, Waiting, ACCEPT_PHASE,
};
use crate::engine::spans::{no_blame, BlameFrame, BlameFrameView};
use crate::engine::tagged::{copy_all, take_all};

verus! {

/// A burst on a core, as the picture reads it.
#[derive(Clone, Copy, PartialEq, Eq, Structural, Debug)]
pub struct CpuTask {
    pub id: u32,
    /// Which of the request's bursts this is.
    pub phase: usize,
    pub remaining: Ticks,
    pub dur: Ticks,
    pub slot: Option<usize>,
}

/// One sample of the charts. The two rates are counts over the rate window.
#[derive(Clone, Copy, PartialEq, Eq, Structural, Debug)]
pub struct SparkPoint {
    pub in_flight: usize,
    pub queue: usize,
    pub goodput: usize,
    pub offered: usize,
}

/// How many samples the charts keep.
pub const SPARKS: usize = 130;

/// Virtual milliseconds between two samples of the charts.
pub const SPARK_MS: u64 = 100;

/// The reading taken of a server each frame.
pub struct Obs {
    pub t: Ticks,
    pub net_in: usize,
    pub net_out: usize,
    pub syn_backlog: Vec<Waiting>,
    pub queue_stubs: Vec<Waiting>,
    pub cpu: Vec<CpuTask>,
    /// Core-occupancy extremes over the frame.
    pub busy_peak: usize,
    pub busy_min: usize,
    pub io_sleeping: usize,
    pub ready: Vec<u32>,
    pub stats: Stats,
    pub spark: VecDeque<SparkPoint>,
    /// Every live request and its station.
    pub live: Vec<(u32, Station)>,
    /// Every station entered since the last reading, in order.
    pub hops: Vec<Hop>,
    /// Requests that reached a verdict since the last reading.
    pub departures: Vec<(u32, Outcome)>,
    /// The round trip of each.
    pub latencies: Vec<(u32, Ticks)>,
    /// Which protection layers the running composition has.
    pub layers: Layers,
    /// `None` while the queue's shed deadline is disabled.
    pub queue_timeout: Option<Ticks>,
    pub backpressure: bool,
    /// Whether the stack would admit a request standing here at the frame's end.
    pub gate_open_end: bool,
    pub last_latency: Option<Ticks>,
    pub response_timeout: Ticks,
    pub processing_timeout_enabled: bool,
    /// The OS reading as a percent, under that signal alone.
    pub os_cpu_pct: Option<u32>,
    pub blame: BlameFrame,
    pub success_5s: usize,
    pub done_5s: usize,
    pub timeout_5s: usize,
    pub last_spark_t: Ticks,
}

/// What a readout holds.
#[verifier::ext_equal]
pub struct ObsView {
    pub t: Ticks,
    pub net_in: nat,
    pub net_out: nat,
    pub syn_backlog: Seq<Waiting>,
    pub queue_stubs: Seq<Waiting>,
    pub cpu: Seq<CpuTask>,
    pub busy_peak: usize,
    pub busy_min: usize,
    pub io_sleeping: nat,
    pub ready: Seq<u32>,
    pub stats: Stats,
    pub spark: Seq<SparkPoint>,
    pub live: Seq<(u32, Station)>,
    pub hops: Seq<Hop>,
    pub departures: Seq<(u32, Outcome)>,
    pub latencies: Seq<(u32, Ticks)>,
    pub layers: Layers,
    pub queue_timeout: Option<Ticks>,
    pub backpressure: bool,
    pub gate_open_end: bool,
    pub last_latency: Option<Ticks>,
    pub response_timeout: Ticks,
    pub processing_timeout_enabled: bool,
    pub os_cpu_pct: Option<u32>,
    pub blame: BlameFrameView,
    pub success_5s: nat,
    pub done_5s: nat,
    pub timeout_5s: nat,
    pub last_spark_t: Ticks,
}

impl View for Obs {
    type V = ObsView;

    open spec fn view(&self) -> ObsView {
        ObsView {
            t: self.t,
            net_in: self.net_in as nat,
            net_out: self.net_out as nat,
            syn_backlog: self.syn_backlog@,
            queue_stubs: self.queue_stubs@,
            cpu: self.cpu@,
            busy_peak: self.busy_peak,
            busy_min: self.busy_min,
            io_sleeping: self.io_sleeping as nat,
            ready: self.ready@,
            stats: self.stats,
            spark: self.spark@,
            live: self.live@,
            hops: self.hops@,
            departures: self.departures@,
            latencies: self.latencies@,
            layers: self.layers,
            queue_timeout: self.queue_timeout,
            backpressure: self.backpressure,
            gate_open_end: self.gate_open_end,
            last_latency: self.last_latency,
            response_timeout: self.response_timeout,
            processing_timeout_enabled: self.processing_timeout_enabled,
            os_cpu_pct: self.os_cpu_pct,
            blame: self.blame@,
            success_5s: self.success_5s as nat,
            done_5s: self.done_5s as nat,
            timeout_5s: self.timeout_5s as nat,
            last_spark_t: self.last_spark_t,
        }
    }
}

/// A readout nothing has been read into: nobody standing anywhere, nothing tallied. What it says
/// of the stack and the deadlines is the controls'.
pub open spec fn untouched_obs(
    layers: Layers,
    queue_timeout: Option<Ticks>,
    backpressure: bool,
    response_timeout: Ticks,
) -> ObsView {
    ObsView {
        t: 0,
        net_in: 0,
        net_out: 0,
        syn_backlog: Seq::empty(),
        queue_stubs: Seq::empty(),
        cpu: Seq::empty(),
        busy_peak: 0,
        busy_min: 0,
        io_sleeping: 0,
        ready: Seq::empty(),
        stats: Stats::none(),
        spark: Seq::empty(),
        live: Seq::empty(),
        hops: Seq::empty(),
        departures: Seq::empty(),
        latencies: Seq::empty(),
        layers,
        queue_timeout,
        backpressure,
        gate_open_end: true,
        last_latency: None,
        response_timeout,
        processing_timeout_enabled: false,
        os_cpu_pct: None,
        blame: no_blame(),
        success_5s: 0,
        done_5s: 0,
        timeout_5s: 0,
        last_spark_t: 0,
    }
}

impl Default for Obs {
    fn default() -> (o: Obs)
        ensures
            o@ == untouched_obs(
                crate::compose::no_layers(),
                Some((TIMEOUT_MS * MS) as u64),
                true,
                (1000 * MS) as u64,
            ),
    {
        let o = Obs {
            t: 0,
            net_in: 0,
            net_out: 0,
            syn_backlog: Vec::new(),
            queue_stubs: Vec::new(),
            cpu: Vec::new(),
            busy_peak: 0,
            busy_min: 0,
            io_sleeping: 0,
            ready: Vec::new(),
            stats: Stats::default(),
            spark: VecDeque::new(),
            live: Vec::new(),
            hops: Vec::new(),
            departures: Vec::new(),
            latencies: Vec::new(),
            layers: Layers::default(),
            queue_timeout: Some(TIMEOUT_MS * MS),
            backpressure: true,
            gate_open_end: true,
            last_latency: None,
            response_timeout: 1000 * MS,
            processing_timeout_enabled: false,
            os_cpu_pct: None,
            blame: BlameFrame::default(),
            success_5s: 0,
            done_5s: 0,
            timeout_5s: 0,
            last_spark_t: 0,
        };
        assert(o@ =~= untouched_obs(
            crate::compose::no_layers(),
            Some((TIMEOUT_MS * MS) as u64),
            true,
            (1000 * MS) as u64,
        ));
        o
    }
}

// ----- where everyone stands -------------------------------------------------

/// What is left of a burst.
pub open spec fn spec_remaining(c: CpuRec, now: Ticks) -> Ticks {
    if now <= c.start {
        c.dur
    } else if now - c.start >= c.dur {
        0
    } else {
        (c.dur - (now - c.start)) as u64
    }
}

/// What is left of a burst.
fn remaining(c: &CpuRec, now: Ticks) -> (left: Ticks)
    ensures
        left == spec_remaining(*c, now),
{
    let gone: u64 = now.saturating_sub(c.start);
    c.dur.saturating_sub(gone)
}

/// How much of a burst is behind it: read against a millisecond at least, so a sliver of a burst
/// does not sweep its ring.
pub open spec fn burst_part(c: CpuRec, now: Ticks) -> Part {
    let of = if c.dur >= MS {
        c.dur
    } else {
        MS
    };
    Part { done: (of - spec_remaining(c, now)) as u64, of }
}

/// The station of a request on a core.
pub open spec fn core_station(c: CpuRec, now: Ticks) -> Station {
    if c.phase == ACCEPT_PHASE && !c.hung {
        Station::Accept { slot: c.slot, p: burst_part(c, now) }
    } else {
        Station::Cpu { slot: c.slot, p: burst_part(c, now), hung: c.hung }
    }
}

/// How much of a wait is behind it.
pub open spec fn wait_part(r: IoRec, now: Ticks) -> Part {
    if r.dur > 0 {
        Part::spec_of(r.start, r.dur, now)
    } else {
        Part { done: 1, of: 1 }
    }
}

/// Everyone in the kernel's accept queue, by their place in it.
pub open spec fn backlog_live(v: SimView) -> Seq<(u32, Station)> {
    Seq::new(
        v.syn_backlog.len(),
        |i: int| (v.syn_backlog[i].id, Station::SynBacklog { idx: i as usize }),
    )
}

/// Everyone in the run queue, by their place in it.
pub open spec fn run_live(v: SimView) -> Seq<(u32, Station)> {
    Seq::new(v.ready.len(), |i: int| (v.ready[i], Station::RunQueue { idx: i as usize }))
}

/// Everyone on the wire in. Each is placed to land behind the backlog and behind everyone sent
/// before it.
pub open spec fn inbound_live(v: SimView, now: Ticks) -> Seq<(u32, Station)> {
    Seq::new(
        v.net_in.len(),
        |i: int|
            (
                v.net_in[i].id,
                Station::NetworkIn {
                    p: v.net_in[i].spec_p(now),
                    slot: (v.syn_backlog.len() + i) as usize,
                },
            ),
    )
}

/// Every reply on its way home.
pub open spec fn outbound_live(v: SimView, now: Ticks) -> Seq<(u32, Station)> {
    Seq::new(
        v.net_out.len(),
        |i: int|
            (
                v.net_out[i].flight.id,
                Station::NetworkOut {
                    p: v.net_out[i].flight.spec_p(now),
                    reply: v.net_out[i].reply,
                },
            ),
    )
}

/// Everyone on a core.
pub open spec fn cores_live(v: SimView, now: Ticks) -> Seq<(u32, Station)> {
    Seq::new(v.cpu.len(), |i: int| (v.cpu[i].id, core_station(v.cpu[i], now)))
}

/// Everyone in the request queue, by their place in it and their age toward the deadline.
pub open spec fn queue_live(v: SimView, now: Ticks) -> Seq<(u32, Station)> {
    Seq::new(
        v.queue_stubs.len(),
        |i: int|
            (
                v.queue_stubs[i].id,
                Station::AppQueue {
                    idx: i as usize,
                    age: Part::spec_of(v.queue_stubs[i].since, (TIMEOUT_MS * MS) as u64, now),
                },
            ),
    )
}

/// Everyone asleep on a dependency.
pub open spec fn asleep_live(v: SimView, now: Ticks) -> Seq<(u32, Station)> {
    Seq::new(v.io.len(), |i: int| (v.io[i].id, Station::Io { p: wait_part(v.io[i], now) }))
}

/// Every live request, with where it stands.
pub open spec fn spec_live(v: SimView, now: Ticks) -> Seq<(u32, Station)> {
    backlog_live(v) + run_live(v) + inbound_live(v, now) + outbound_live(v, now) + cores_live(
        v,
        now,
    ) + queue_live(v, now) + asleep_live(v, now)
}

/// What the picture reads of the bursts on the cores.
pub open spec fn spec_tasks(v: SimView, now: Ticks) -> Seq<CpuTask> {
    Seq::new(
        v.cpu.len(),
        |i: int|
            CpuTask {
                id: v.cpu[i].id,
                phase: v.cpu[i].phase,
                remaining: spec_remaining(v.cpu[i], now),
                dur: v.cpu[i].dur,
                slot: Some(v.cpu[i].slot),
            },
    )
}

/// The station of a request on a core.
fn station_of(c: &CpuRec, now: Ticks) -> (s: Station)
    ensures
        s == core_station(*c, now),
{
    let of: u64 = if c.dur >= MS {
        c.dur
    } else {
        MS
    };
    let p = Part { done: of - remaining(c, now), of };
    if c.phase == ACCEPT_PHASE && !c.hung {
        Station::Accept { slot: c.slot, p }
    } else {
        Station::Cpu { slot: c.slot, p, hung: c.hung }
    }
}

/// Everyone waiting in a queue of the machine's own, and everyone asleep.
fn place_waiting(sim: &Sim, live: &mut Vec<(u32, Station)>, now: Ticks)
    ensures
        final(live)@ == old(live)@ + queue_live(sim@, now) + asleep_live(sim@, now),
{
    let ghost before = live@;
    let ghost queued = queue_live(sim@, now);
    let ghost asleep = asleep_live(sim@, now);
    let mut i: usize = 0;
    while i < sim.queue_stubs.len()
        invariant
            i <= sim.queue_stubs@.len(),
            queued == queue_live(sim@, now),
            live@ == before + queued.take(i as int),
        decreases sim.queue_stubs@.len() - i,
    {
        let w: Waiting = sim.queue_stubs[i];
        let age = Part::of(w.since, TIMEOUT_MS * MS, now);
        live.push((w.id, Station::AppQueue { idx: i, age }));
        assert(queued.take(i + 1) =~= queued.take(i as int).push(queued[i as int]));
        i += 1;
    }
    assert(queued.take(i as int) =~= queued);
    let ghost before = live@;
    let mut j: usize = 0;
    while j < sim.io.len()
        invariant
            j <= sim.io@.len(),
            asleep == asleep_live(sim@, now),
            live@ == before + asleep.take(j as int),
        decreases sim.io@.len() - j,
    {
        let r: IoRec = sim.io[j];
        let p = if r.dur > 0 {
            Part::of(r.start, r.dur, now)
        } else {
            Part { done: 1, of: 1 }
        };
        live.push((r.id, Station::Io { p }));
        assert(asleep.take(j + 1) =~= asleep.take(j as int).push(asleep[j as int]));
        j += 1;
    }
    assert(asleep.take(j as int) =~= asleep);
}

/// Everyone on a core.
fn place_cores(sim: &Sim, live: &mut Vec<(u32, Station)>, now: Ticks)
    ensures
        final(live)@ == old(live)@ + cores_live(sim@, now),
{
    let ghost before = live@;
    let ghost cores = cores_live(sim@, now);
    let mut i: usize = 0;
    while i < sim.cpu.len()
        invariant
            i <= sim.cpu@.len(),
            cores == cores_live(sim@, now),
            live@ == before + cores.take(i as int),
        decreases sim.cpu@.len() - i,
    {
        let c: CpuRec = sim.cpu[i];
        live.push((c.id, station_of(&c, now)));
        assert(cores.take(i + 1) =~= cores.take(i as int).push(cores[i as int]));
        i += 1;
    }
    assert(cores.take(i as int) =~= cores);
}

/// Everyone on the wire, either way.
fn place_wires(sim: &Sim, live: &mut Vec<(u32, Station)>, now: Ticks)
    requires
        sim@.syn_backlog.len() + sim@.net_in.len() <= usize::MAX,
    ensures
        final(live)@ == old(live)@ + inbound_live(sim@, now) + outbound_live(sim@, now),
{
    let ghost before = live@;
    let ghost inbound = inbound_live(sim@, now);
    let ghost outbound = outbound_live(sim@, now);
    let syn: usize = sim.syn_backlog.len();
    let mut i: usize = 0;
    while i < sim.net_in.len()
        invariant
            i <= sim.net_in@.len(),
            syn == sim.syn_backlog@.len(),
            sim@.syn_backlog.len() + sim@.net_in.len() <= usize::MAX,
            inbound == inbound_live(sim@, now),
            live@ == before + inbound.take(i as int),
        decreases sim.net_in@.len() - i,
    {
        let p = sim.net_in[i].p(now);
        live.push((sim.net_in[i].id, Station::NetworkIn { p, slot: syn + i }));
        assert(inbound.take(i + 1) =~= inbound.take(i as int).push(inbound[i as int]));
        i += 1;
    }
    assert(inbound.take(i as int) =~= inbound);
    let ghost before = live@;
    let mut j: usize = 0;
    while j < sim.net_out.len()
        invariant
            j <= sim.net_out@.len(),
            outbound == outbound_live(sim@, now),
            live@ == before + outbound.take(j as int),
        decreases sim.net_out@.len() - j,
    {
        let p = sim.net_out[j].flight.p(now);
        let reply = sim.net_out[j].reply;
        live.push((sim.net_out[j].flight.id, Station::NetworkOut { p, reply }));
        assert(outbound.take(j + 1) =~= outbound.take(j as int).push(outbound[j as int]));
        j += 1;
    }
    assert(outbound.take(j as int) =~= outbound);
}

/// The station partition: every live request once, tagged with where it sits and its progress.
pub fn live_of(sim: &Sim, now: Ticks) -> (live: Vec<(u32, Station)>)
    requires
        sim@.countable(),
    ensures
        live@ == spec_live(sim@, now),
{
    let mut live: Vec<(u32, Station)> = Vec::new();
    let ghost backlog = backlog_live(sim@);
    let ghost running = run_live(sim@);
    let mut i: usize = 0;
    while i < sim.syn_backlog.len()
        invariant
            i <= sim.syn_backlog@.len(),
            backlog == backlog_live(sim@),
            live@ == backlog.take(i as int),
        decreases sim.syn_backlog@.len() - i,
    {
        live.push((sim.syn_backlog[i].id, Station::SynBacklog { idx: i }));
        assert(backlog.take(i + 1) =~= backlog.take(i as int).push(backlog[i as int]));
        i += 1;
    }
    assert(backlog.take(i as int) =~= backlog);
    let mut j: usize = 0;
    while j < sim.ready.len()
        invariant
            j <= sim.ready@.len(),
            running == run_live(sim@),
            live@ == backlog + running.take(j as int),
        decreases sim.ready@.len() - j,
    {
        live.push((sim.ready[j], Station::RunQueue { idx: j }));
        assert(running.take(j + 1) =~= running.take(j as int).push(running[j as int]));
        j += 1;
    }
    assert(running.take(j as int) =~= running);
    place_wires(sim, &mut live, now);
    place_cores(sim, &mut live, now);
    place_waiting(sim, &mut live, now);
    live
}

// ----- the reading -----------------------------------------------------------

/// The state once a reading is taken of it: what came and went is handed over, and the rate
/// windows are trimmed.
pub open spec fn read_out(v: SimView, now: Ticks) -> SimView {
    SimView {
        hops: Seq::empty(),
        departures: Seq::empty(),
        latencies: Seq::empty(),
        done_window: trimmed(v.done_window, now),
        success_window: trimmed(v.success_window, now),
        timeout_window: trimmed(v.timeout_window, now),
        ..v
    }
}

/// A readout once a reading of `v` is taken into it: what came and went since the last one, where
/// everyone stands, and the tallies. What it says of the stack and the deadlines stays.
pub open spec fn read_into(
    o: ObsView,
    v: SimView,
    now: Ticks,
    busy_peak: usize,
    busy_min: usize,
) -> ObsView {
    let (spark, last_spark_t) = spec_sparked(o.spark, o.last_spark_t, v, now);
    ObsView {
        t: now,
        net_in: v.net_in.len(),
        net_out: v.net_out.len(),
        syn_backlog: v.syn_backlog,
        queue_stubs: v.queue_stubs,
        cpu: spec_tasks(v, now),
        busy_peak,
        busy_min,
        io_sleeping: v.io.len(),
        ready: v.ready,
        stats: v.stats,
        spark,
        live: spec_live(v, now),
        hops: v.hops,
        departures: v.departures,
        latencies: v.latencies,
        last_latency: v.last_latency,
        success_5s: trimmed(v.success_window, now).len(),
        done_5s: trimmed(v.done_window, now).len(),
        timeout_5s: trimmed(v.timeout_window, now).len(),
        last_spark_t,
        ..o
    }
}

impl Obs {
    /// How many cores are busy.
    pub fn busy(&self) -> (n: usize)
        ensures
            n as nat == self.cpu@.len(),
    {
        self.cpu.len()
    }

    /// Whether a request is still live in this reading.
    pub fn is_live(&self, id: u32) -> (b: bool)
        ensures
            b == (exists|i: int| 0 <= i < self.live@.len() && (#[trigger] self.live@[i]).0 == id),
    {
        let mut i: usize = 0;
        while i < self.live.len()
            invariant
                i <= self.live@.len(),
                forall|j: int| 0 <= j < i ==> (#[trigger] self.live@[j]).0 != id,
            decreases self.live@.len() - i,
        {
            if self.live[i].0 == id {
                assert(self.live@[i as int].0 == id);
                return true;
            }
            i += 1;
        }
        false
    }

    /// Completions in time a second, over the last five.
    pub fn goodput_ps(&self) -> (rate: Part)
        ensures
            rate == (Part { done: self.success_5s as u64, of: 5 }),
    {
        Part { done: self.success_5s as u64, of: 5 }
    }

    /// Completions and queue timeouts a second, over the last five.
    pub fn offered_throughput_ps(&self) -> (rate: Part)
        requires
            self.done_5s + self.timeout_5s <= usize::MAX,
        ensures
            rate == (Part { done: (self.done_5s + self.timeout_5s) as u64, of: 5 }),
    {
        Part { done: (self.done_5s + self.timeout_5s) as u64, of: 5 }
    }

    /// Take the frame's reading: what came and went since the last one, where everyone stands,
    /// and the tallies. A chart sample follows where one is due.
    pub fn snapshot(&mut self, sim: &mut Sim, now: Ticks, busy_peak: usize, busy_min: usize)
        requires
            old(sim)@.countable(),
            old(sim)@.done_window.len() + old(sim)@.timeout_window.len() <= usize::MAX,
        ensures
            final(sim)@ == read_out(old(sim)@, now),
            final(self)@ == read_into(old(self)@, old(sim)@, now, busy_peak, busy_min),
    {
        proof {
            trimmed_len(sim.done_window@, now);
            trimmed_len(sim.timeout_window@, now);
        }
        trim_window(&mut sim.done_window, now);
        trim_window(&mut sim.success_window, now);
        trim_window(&mut sim.timeout_window, now);
        self.t = now;
        self.busy_peak = busy_peak;
        self.busy_min = busy_min;
        self.net_in = sim.net_in.len();
        self.net_out = sim.net_out.len();
        self.hops = take_all(&mut sim.hops);
        self.departures = take_all(&mut sim.departures);
        self.latencies = take_all(&mut sim.latencies);
        self.syn_backlog = copy_all(&sim.syn_backlog);
        self.queue_stubs = copy_all(&sim.queue_stubs);
        self.ready = copy_all(&sim.ready);
        self.io_sleeping = sim.io.len();
        self.cpu = tasks_of(sim, now);
        self.stats = sim.stats;
        self.last_latency = sim.last_latency;
        self.success_5s = sim.success_window.len();
        self.done_5s = sim.done_window.len();
        self.timeout_5s = sim.timeout_window.len();
        self.live = live_of(sim, now);
        assert(self.live@ == spec_live(old(sim)@, now));
        assert(self.cpu@ == spec_tasks(old(sim)@, now));
        self.maybe_sample_spark();
        assert(self@ =~= read_into(old(self)@, old(sim)@, now, busy_peak, busy_min));
    }

    /// Sample the charts, where a sample is due.
    fn maybe_sample_spark(&mut self)
        requires
            old(self).cpu@.len() + old(self).io_sleeping + old(self).ready@.len() <= usize::MAX,
            old(self).queue_stubs@.len() + old(self).ready@.len() <= usize::MAX,
            old(self).done_5s + old(self).timeout_5s <= usize::MAX,
        ensures
            ({
                let o = *old(self);
                let due = o.t - o.last_spark_t >= SPARK_MS * MS;
                let kept = if o.spark@.len() >= SPARKS {
                    o.spark@.drop_first()
                } else {
                    o.spark@
                };
                let point = SparkPoint {
                    in_flight: (o.cpu@.len() + o.io_sleeping + o.ready@.len()) as usize,
                    queue: (o.queue_stubs@.len() + o.ready@.len()) as usize,
                    goodput: o.success_5s,
                    offered: (o.done_5s + o.timeout_5s) as usize,
                };
                &&& final(self).spark@ == (if due {
                    kept.push(point)
                } else {
                    o.spark@
                })
                &&& final(self).last_spark_t == (if due {
                    o.t
                } else {
                    o.last_spark_t
                })
                &&& *final(self) == (Obs {
                    spark: final(self).spark,
                    last_spark_t: final(self).last_spark_t,
                    ..o
                })
            }),
    {
        if self.t < self.last_spark_t || self.t - self.last_spark_t < SPARK_MS * MS {
            return;
        }
        self.last_spark_t = self.t;
        if self.spark.len() >= SPARKS {
            let _ = self.spark.pop_front();
            assert(self.spark@ =~= old(self).spark@.drop_first());
        }
        let point = SparkPoint {
            in_flight: self.busy() + self.io_sleeping + self.ready.len(),
            queue: self.queue_stubs.len() + self.ready.len(),
            goodput: self.success_5s,
            offered: self.done_5s + self.timeout_5s,
        };
        self.spark.push_back(point);
    }
}

/// What the picture reads of the bursts on the cores.
fn tasks_of(sim: &Sim, now: Ticks) -> (tasks: Vec<CpuTask>)
    ensures
        tasks@ == spec_tasks(sim@, now),
{
    let mut tasks: Vec<CpuTask> = Vec::new();
    let ghost whole = spec_tasks(sim@, now);
    let mut i: usize = 0;
    while i < sim.cpu.len()
        invariant
            i <= sim.cpu@.len(),
            whole == spec_tasks(sim@, now),
            tasks@ == whole.take(i as int),
        decreases sim.cpu@.len() - i,
    {
        let c: CpuRec = sim.cpu[i];
        tasks.push(
            CpuTask {
                id: c.id,
                phase: c.phase,
                remaining: remaining(&c, now),
                dur: c.dur,
                slot: Some(c.slot),
            },
        );
        assert(whole.take(i + 1) =~= whole.take(i as int).push(whole[i as int]));
        i += 1;
    }
    assert(whole.take(i as int) =~= whole);
    tasks
}

/// The charts' history after a reading of `v` at `now`: one sample more where one is due, and
/// never more than the charts keep.
pub open spec fn spec_sparked(
    spark: Seq<SparkPoint>,
    last: Ticks,
    v: SimView,
    now: Ticks,
) -> (Seq<SparkPoint>, Ticks) {
    if now - last < SPARK_MS * MS {
        (spark, last)
    } else {
        let kept = if spark.len() >= SPARKS {
            spark.drop_first()
        } else {
            spark
        };
        (
            kept.push(
                SparkPoint {
                    in_flight: (v.cpu.len() + v.io.len() + v.ready.len()) as usize,
                    queue: (v.queue_stubs.len() + v.ready.len()) as usize,
                    goodput: trimmed(v.success_window, now).len() as usize,
                    offered: (trimmed(v.done_window, now).len() + trimmed(
                        v.timeout_window,
                        now,
                    ).len()) as usize,
                },
            ),
            now,
        )
    }
}

proof fn trimmed_len(w: Seq<Ticks>, now: Ticks)
    ensures
        trimmed(w, now).len() <= w.len(),
    decreases w.len(),
{
    if w.len() > 0 && crate::engine::meters::stale(w[0], now) {
        trimmed_len(w.drop_first(), now);
    }
}

/// Everybody in the machine is shown once, where they are: in their place in the kernel's queue,
/// the runtime's or the admission's, on the wire they are on, on the core they hold, or asleep.
pub proof fn everybody_is_shown_where_they_are(v: SimView, now: Ticks, i: int)
    requires
        0 <= i,
    ensures
        ({
            let live = spec_live(v, now);
            &&& i < v.syn_backlog.len() ==> live.contains(
                (v.syn_backlog[i].id, Station::SynBacklog { idx: i as usize }),
            )
            &&& i < v.ready.len() ==> live.contains(
                (v.ready[i], Station::RunQueue { idx: i as usize }),
            )
            &&& i < v.net_in.len() ==> live.contains(
                (
                    v.net_in[i].id,
                    Station::NetworkIn {
                        p: v.net_in[i].spec_p(now),
                        slot: (v.syn_backlog.len() + i) as usize,
                    },
                ),
            )
            &&& i < v.net_out.len() ==> live.contains(
                (
                    v.net_out[i].flight.id,
                    Station::NetworkOut {
                        p: v.net_out[i].flight.spec_p(now),
                        reply: v.net_out[i].reply,
                    },
                ),
            )
            &&& i < v.cpu.len() ==> live.contains((v.cpu[i].id, core_station(v.cpu[i], now)))
            &&& i < v.queue_stubs.len() ==> live.contains(
                (
                    v.queue_stubs[i].id,
                    Station::AppQueue {
                        idx: i as usize,
                        age: Part::spec_of(v.queue_stubs[i].since, 100_000_000_000, now),
                    },
                ),
            )
            &&& i < v.io.len() ==> live.contains(
                (v.io[i].id, Station::Io { p: wait_part(v.io[i], now) }),
            )
        }),
{
    let live = spec_live(v, now);
    let (a, b, c, d) = (
        v.syn_backlog.len() as int,
        v.ready.len() as int,
        v.net_in.len() as int,
        v.net_out.len() as int,
    );
    let (e, f) = (v.cpu.len() as int, v.queue_stubs.len() as int);
    if i < a {
        assert(live[i] == backlog_live(v)[i]);
    }
    if i < b {
        assert(live[a + i] == run_live(v)[i]);
    }
    if i < c {
        assert(live[a + b + i] == inbound_live(v, now)[i]);
    }
    if i < d {
        assert(live[a + b + c + i] == outbound_live(v, now)[i]);
    }
    if i < e {
        assert(live[a + b + c + d + i] == cores_live(v, now)[i]);
    }
    if i < f {
        assert(live[a + b + c + d + e + i] == queue_live(v, now)[i]);
    }
    if i < v.io.len() {
        assert(live[a + b + c + d + e + f + i] == asleep_live(v, now)[i]);
    }
}

/// A core is accepting while what holds it is being accepted, and working otherwise, hung or not, in
/// the slot it holds; and a wait of no time is over at once.
pub proof fn a_core_accepts_or_works(c: CpuRec, r: IoRec, now: Ticks)
    ensures
        core_station(c, now) is Accept <==> c.phase == ACCEPT_PHASE && !c.hung,
        core_station(c, now) matches Station::Accept { slot, p } ==> slot == c.slot && p
            == burst_part(c, now),
        core_station(c, now) matches Station::Cpu { slot, p, hung } ==> slot == c.slot && p
            == burst_part(c, now) && hung == c.hung,
        core_station(c, now) is Accept || core_station(c, now) is Cpu,
        r.dur == 0 ==> wait_part(r, now).done == wait_part(r, now).of,
        r.dur > 0 ==> wait_part(r, now) == Part::spec_of(r.start, r.dur, now),
{
}

/// A reading of the machine is the machine's: what is on each wire, in each queue and on each core,
/// what departed and moved since the last, and the rates by what their windows hold. Reading it
/// empties what is told once and ages the windows, and moves nobody.
pub proof fn a_reading_is_the_machines(
    o: ObsView,
    v: SimView,
    now: Ticks,
    busy_peak: usize,
    busy_min: usize,
)
    ensures
        ({
            let r = read_into(o, v, now, busy_peak, busy_min);
            &&& r.t == now && r.busy_peak == busy_peak && r.busy_min == busy_min
            &&& r.net_in == v.net_in.len() && r.net_out == v.net_out.len() && r.io_sleeping
                == v.io.len()
            &&& r.syn_backlog == v.syn_backlog && r.queue_stubs == v.queue_stubs && r.ready
                == v.ready
            &&& r.hops == v.hops && r.departures == v.departures && r.latencies == v.latencies
            &&& r.stats == v.stats && r.last_latency == v.last_latency
            &&& r.success_5s == trimmed(v.success_window, now).len()
            &&& r.done_5s == trimmed(v.done_window, now).len()
            &&& r.timeout_5s == trimmed(v.timeout_window, now).len()
            &&& r.layers == o.layers && r.blame == o.blame && r.os_cpu_pct == o.os_cpu_pct
        }),
        ({
            let after = read_out(v, now);
            &&& after.hops.len() == 0 && after.departures.len() == 0 && after.latencies.len() == 0
            &&& after.net_in == v.net_in && after.net_out == v.net_out && after.syn_backlog
                == v.syn_backlog && after.queue_stubs == v.queue_stubs && after.ready == v.ready
                && after.cpu == v.cpu && after.io == v.io && after.stats == v.stats
            &&& after.success_window == trimmed(v.success_window, now) && after.done_window
                == trimmed(v.done_window, now) && after.timeout_window == trimmed(
                v.timeout_window,
                now,
            )
        }),
{
}

/// Each core's task is who holds it, and how much of its burst is left.
pub proof fn a_task_is_its_cores(v: SimView, now: Ticks, i: int)
    requires
        0 <= i < v.cpu.len(),
    ensures
        spec_tasks(v, now).len() == v.cpu.len(),
        ({
            let (task, c) = (spec_tasks(v, now)[i], v.cpu[i]);
            &&& task.id == c.id && task.phase == c.phase && task.dur == c.dur && task.slot == Some(
                c.slot,
            )
            &&& c.start <= now && now - c.start <= c.dur ==> task.remaining == c.dur - (now
                - c.start)
            &&& now <= c.start ==> task.remaining == c.dur
        }),
{
}

} // verus!
