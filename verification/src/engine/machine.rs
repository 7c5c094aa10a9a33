//! The engine: one server, the controls over it, and the frame it advances by.
//!
//! The runtime owns the clock, the tasks and the stack. The engine owns everything that is
//! decided: what is sent and when, which stack a control asks for, what is read at each settle,
//! and the frame's reading.

use vstd::prelude::*;

use crate::compose::{Composition, Gate, Layers, PolicyStage};
use crate::engine::arrivals::Arrivals;
use crate::engine::clock::{Part, Ticks, MS, NET_MS, OS_CPU_REFRESH_MS, TIMEOUT_MS};
use crate::engine::ledger::Ledger;
use crate::engine::meters::{
    busy_time, readable, sampling_keeps_the_history_readable,
};
use crate::engine::mix::{forgotten, MixView, Stream, TenantMix};
use crate::engine::obs::{read_into, read_out, untouched_obs, Obs, ObsView};
use crate::engine::request::{
    a_tenant_is_found_by_its_name, make_phases, spec_plan, spec_tenant, spec_tenant_of, tenants,
    Behavior, SimReq, SOLO, TENANT_COUNT, WHOLE_WEIGHT,
};
use crate::engine::rng::{drawn, next_state, Rng};
use crate::engine::sim::{ServerCounts, Sim, SimView};
use crate::engine::spans::{
    billed_since, no_blame, shut_since, BlameFrame, BlameFrameView, BlameSampleView, BlameSampler,
};
use crate::engine::stack::{
    composition_for, default_limit, layers_for, spec_composition_for, spec_default_limit,
    spec_layers_for, spec_timeout_for, steered, timeout_for, Billing, ADMISSION_LIMIT, CORES,
};
use crate::engine::tagged::copy_all;

verus! {

/// The seed the single-server sims run on.
pub const ENGINE_SEED: u64 = 0xdead_beef_cafe_1234;

/// The response deadline a server opens with.
pub const OPENING_DEADLINE_MS: u64 = 1000;

/// The rate past which a stream is not asked to go, per thousand seconds.
pub const TOP_RATE: u64 = 500_000;

/// How fast the clock opens against the reader's, and the bounds it is held to, in millionths.
pub const DEFAULT_SPEED: u64 = 100_000;

pub const SLOWEST: u64 = 50;

pub const FASTEST: u64 = 3_000_000;

/// One server, and the controls over it.
pub struct SimEngine {
    pub sim: Sim,
    pub obs: Obs,
    pub rng: Rng,
    pub stage: PolicyStage,
    pub gate: Gate,
    /// Whether a gate was selected rather than inherited from the stage.
    pub gated: bool,
    pub cpu_only: bool,
    pub behavior: Behavior,
    pub backpressure: bool,
    pub queue_timeout_on: bool,
    pub concurrency_limit: usize,
    /// Whether the CPU gate is the active signal.
    pub backpressure_flag: bool,
    /// Whether an OS-CPU controller steers the ceiling.
    pub steered: bool,
    /// When the controller next looks.
    pub os_cpu_next: Ticks,
    /// The one sender the untenanted sims model.
    pub arrivals: Arrivals,
    pub next_id: u32,
    /// Present in a sim that models tenants.
    pub tenants: Option<TenantMix>,
    /// What a tenanted stack bills through.
    pub billing: Option<Billing>,
    pub ledger: Ledger,
    pub blame: BlameSampler,
    /// The instant of the last settle.
    pub at: Ticks,
    /// How fast the clock runs against the reader's, in millionths.
    pub speed: u64,
}

/// The extremes and the state of admission over a frame, and the blame sampled in it.
pub struct Digest {
    pub busy_peak: usize,
    pub busy_min: usize,
    pub gate_open_end: bool,
    pub blame: BlameFrame,
}

/// What an engine holds.
#[verifier::ext_equal]
pub struct EngineView {
    pub sim: SimView,
    pub obs: ObsView,
    pub rng: Rng,
    pub stage: PolicyStage,
    pub gate: Gate,
    pub gated: bool,
    pub cpu_only: bool,
    pub behavior: Behavior,
    pub backpressure: bool,
    pub queue_timeout_on: bool,
    pub concurrency_limit: usize,
    pub backpressure_flag: bool,
    pub steered: bool,
    pub os_cpu_next: Ticks,
    pub arrivals: Arrivals,
    pub next_id: u32,
    pub tenants: Option<MixView>,
    pub billing: Option<Billing>,
    pub ledger: Seq<(&'static str, Ticks)>,
    pub blame: Option<BlameSampleView>,
    pub at: Ticks,
    pub speed: u64,
}

impl View for SimEngine {
    type V = EngineView;

    open spec fn view(&self) -> EngineView {
        EngineView {
            sim: self.sim@,
            obs: self.obs@,
            rng: self.rng,
            stage: self.stage,
            gate: self.gate,
            gated: self.gated,
            cpu_only: self.cpu_only,
            behavior: self.behavior,
            backpressure: self.backpressure,
            queue_timeout_on: self.queue_timeout_on,
            concurrency_limit: self.concurrency_limit,
            backpressure_flag: self.backpressure_flag,
            steered: self.steered,
            os_cpu_next: self.os_cpu_next,
            arrivals: self.arrivals,
            next_id: self.next_id,
            tenants: match self.tenants {
                Some(mix) => Some(mix@),
                None => None,
            },
            billing: self.billing,
            ledger: self.ledger@,
            blame: self.blame@,
            at: self.at,
            speed: self.speed,
        }
    }
}

/// What a frame has gathered.
#[verifier::ext_equal]
pub struct DigestView {
    pub busy_peak: usize,
    pub busy_min: usize,
    pub gate_open_end: bool,
    pub blame: BlameFrameView,
}

impl View for Digest {
    type V = DigestView;

    open spec fn view(&self) -> DigestView {
        DigestView {
            busy_peak: self.busy_peak,
            busy_min: self.busy_min,
            gate_open_end: self.gate_open_end,
            blame: self.blame@,
        }
    }
}

/// The reporter's meter at a settle.
#[derive(Clone, Copy, PartialEq, Eq, Structural, Debug)]
pub struct Metered {
    pub meter: Ticks,
    pub shut: bool,
}

/// The reporter's readings at a frame's end.
#[derive(Clone, Copy, PartialEq, Eq, Structural, Debug)]
pub struct Accounts {
    pub meter: Ticks,
    pub accumulated: Ticks,
    pub attributed: Ticks,
    pub unattributed: Ticks,
    pub shut_now: bool,
    pub inflight: u64,
}

/// Whether the stack would admit a request standing here now: in-flight work is under the ceiling,
/// or where there is none, the cores are.
pub open spec fn spec_gate_open(v: SimView, limit: Option<usize>, backpressure: bool) -> bool {
    match limit {
        Some(n) => v.cpu.len() + v.io.len() + v.ready.len() < n,
        None => !backpressure || v.cpu.len() < ADMISSION_LIMIT,
    }
}

/// Whether the stack would admit a request standing here now.
pub fn gate_open(sim: &Sim, limit: Option<usize>, backpressure: bool) -> (b: bool)
    requires
        sim@.countable(),
    ensures
        b == spec_gate_open(sim@, limit, backpressure),
{
    match limit {
        Some(n) => sim.cpu.len() + sim.io.len() + sim.ready.len() < n,
        None => !backpressure || sim.cpu.len() < ADMISSION_LIMIT,
    }
}

/// A frame as it opens.
pub open spec fn opening_digest() -> DigestView {
    DigestView { busy_peak: 0, busy_min: usize::MAX, gate_open_end: true, blame: no_blame() }
}

/// Whether the controller is due a look.
pub open spec fn looks(e: EngineView, now: Ticks) -> bool {
    e.steered && now >= e.os_cpu_next
}

/// The last reading of the meter, once the world has settled at `now`.
pub open spec fn metered_to(
    prev: Option<BlameSampleView>,
    sim: SimView,
    now: Ticks,
    metered: Option<Metered>,
) -> Option<BlameSampleView> {
    match metered {
        Some(m) => Some(
            BlameSampleView { t: now, meter: m.meter, shut: m.shut, occupiers: sim.occupiers },
        ),
        None => prev,
    }
}

/// The engine once the world has settled at `now`: the occupancy recorded, the meter's reading
/// kept, and the controller's next look put off where it has just had one.
pub open spec fn settled(e: EngineView, now: Ticks, metered: Option<Metered>) -> EngineView {
    EngineView {
        sim: e.sim.sampled(now),
        at: now,
        blame: metered_to(e.blame, e.sim, now, metered),
        os_cpu_next: if looks(e, now) {
            (now + OS_CPU_REFRESH_MS * MS) as u64
        } else {
            e.os_cpu_next
        },
        ..e
    }
}

/// A frame widened by where the world settled: its extremes, the state of admission, and what was
/// billed since the last reading of the meter.
pub open spec fn widened_by(
    d: DigestView,
    sim: SimView,
    prev: Option<BlameSampleView>,
    now: Ticks,
    metered: Option<Metered>,
    limit: Option<usize>,
    backpressure: bool,
) -> DigestView {
    let busy = sim.cpu.len() as usize;
    DigestView {
        busy_peak: if busy > d.busy_peak {
            busy
        } else {
            d.busy_peak
        },
        busy_min: if busy < d.busy_min {
            busy
        } else {
            d.busy_min
        },
        gate_open_end: spec_gate_open(sim, limit, backpressure),
        blame: match metered {
            Some(m) => BlameFrameView {
                shut: d.blame.shut + shut_since(prev, now),
                spans: d.blame.spans + billed_since(prev, now, m.meter),
                ..d.blame
            },
            None => d.blame,
        },
    }
}

/// A frame widened by the engine settling at `now`.
pub open spec fn widened(
    d: DigestView,
    e: EngineView,
    now: Ticks,
    metered: Option<Metered>,
) -> DigestView {
    widened_by(d, e.sim, e.blame, now, metered, e.obs.layers.limit, e.backpressure_flag)
}

/// The blame of a frame, with the reporter's readings at its end.
pub open spec fn accounted(
    blame: BlameFrameView,
    occupiers: Seq<u32>,
    accounts: Option<Accounts>,
) -> BlameFrameView {
    match accounts {
        Some(a) => BlameFrameView {
            meter: a.meter,
            accumulated: a.accumulated,
            attributed: a.attributed,
            unattributed: a.unattributed,
            shut_now: a.shut_now,
            inflight: a.inflight,
            occupiers,
            ..blame
        },
        None => blame,
    }
}

/// The engine once a frame is closed: the frame's reading taken, and whose the last frame's
/// departed were forgotten.
pub open spec fn closed(
    e: EngineView,
    d: DigestView,
    now: Ticks,
    accounts: Option<Accounts>,
    pct: Option<u32>,
    ceiling: Option<usize>,
) -> EngineView {
    EngineView {
        sim: read_out(e.sim, now),
        obs: read_into(
            told(e, d, accounts, pct, ceiling),
            e.sim,
            now,
            d.busy_peak,
            fewest(d),
        ),
        tenants: match e.tenants {
            Some(mix) => Some(
                MixView { whose: forgotten(mix.whose, e.obs.departures), ..mix },
            ),
            None => None,
        },
        ..e
    }
}

/// What the readout is told before a frame's reading is taken into it.
pub open spec fn told(
    e: EngineView,
    d: DigestView,
    accounts: Option<Accounts>,
    pct: Option<u32>,
    ceiling: Option<usize>,
) -> ObsView {
    ObsView {
        gate_open_end: d.gate_open_end,
        blame: accounted(d.blame, e.sim.occupiers, accounts),
        os_cpu_pct: pct,
        layers: if e.steered {
            Layers { limit: ceiling, ..e.obs.layers }
        } else {
            e.obs.layers
        },
        ..e.obs
    }
}

/// The fewest cores busy at once over a frame: never more than the most.
pub open spec fn fewest(d: DigestView) -> usize {
    if d.busy_min < d.busy_peak {
        d.busy_min
    } else {
        d.busy_peak
    }
}

/// The selected gate, where one is.
pub open spec fn spec_selected(e: SimEngine) -> Option<Gate> {
    if e.gated {
        Some(e.gate)
    } else {
        None
    }
}

/// The layers the engine's controls ask for.
pub open spec fn asked_layers(e: SimEngine) -> Layers {
    spec_layers_for(
        e.stage,
        spec_selected(e),
        e.backpressure,
        e.concurrency_limit,
        spec_timeout_for(e.queue_timeout_on),
        e.billing,
    )
}

/// The stack the engine's controls ask for.
pub open spec fn asked_stack(e: SimEngine) -> Composition {
    spec_composition_for(e.stage, spec_selected(e), e.backpressure, e.billing)
}

/// The engine once the stack its controls ask for is running.
pub open spec fn rebuilt(e: SimEngine, now: Ticks) -> SimEngine {
    let layers = asked_layers(e);
    SimEngine {
        steered: spec_selected(e) == Some(Gate::OsCpu) && asked_stack(e)
            == Composition::QueueOsCpu,
        os_cpu_next: now,
        backpressure_flag: layers.backpressure,
        obs: Obs {
            layers,
            queue_timeout: if layers.queue_timeout is Some && e.queue_timeout_on {
                Some((TIMEOUT_MS * MS) as u64)
            } else {
                None
            },
            backpressure: layers.backpressure,
            ..e.obs
        },
        ..e
    }
}

/// An engine as it opens on a seed: an untouched server, every control where it starts, the stack
/// those controls ask for, and a stream held until its first gap is drawn.
pub open spec fn opens(
    e: SimEngine,
    seed: u64,
    rate: u64,
    stage: PolicyStage,
    gate: Option<Gate>,
    cpu_only: bool,
    behavior: Behavior,
) -> bool {
    &&& e.wf()
    &&& e.at == 0
    &&& e.rng.state == seed ^ 0x9e37_79b9_7f4a_7c15u64
    &&& e.gate == (match gate {
        Some(g) => g,
        None => Gate::RuntimeCpu,
    })
    &&& e.gated == (gate is Some)
    &&& e.sim@ == SimView::fresh((OPENING_DEADLINE_MS * MS) as u64, false, 100, e.gate)
    &&& e.stage == stage && e.cpu_only == cpu_only && e.behavior == behavior
    &&& e.backpressure && e.queue_timeout_on
    &&& e.concurrency_limit == spec_default_limit(stage)
    &&& e.arrivals == (Arrivals { rate, next: None })
    &&& e.next_id == 0 && e.tenants is None && e.billing is None
    &&& e.obs@ == untouched_obs(
        asked_layers(e),
        if stage is Queue {
            Some((TIMEOUT_MS * MS) as u64)
        } else {
            None
        },
        asked_layers(e).backpressure,
        (OPENING_DEADLINE_MS * MS) as u64,
    )
    &&& e.backpressure_flag == asked_layers(e).backpressure
    &&& e.steered == (gate == Some(Gate::OsCpu) && stage is Queue)
    &&& e.os_cpu_next == 0
    &&& e.ledger@ == Seq::<(&'static str, Ticks)>::empty()
    &&& e.blame@ is None
}

/// An engine as it opens for tenants: beside them and their billing, a queue behind the runtime's
/// own gate, its lone stream at what the tenants' sum to.
pub open spec fn opens_shared(e: SimEngine, seed: u64) -> bool {
    opens(
        SimEngine { tenants: None, billing: None, ..e },
        seed,
        240_000,
        PolicyStage::Queue,
        Some(Gate::RuntimeCpu),
        false,
        Behavior::Good,
    )
}

/// A tenant's stream as it opens, held until its first gap is drawn.
pub open spec fn opening_stream(k: int) -> Stream {
    Stream {
        spec: spec_tenant(k),
        clock: Arrivals { rate: spec_tenant(k).rate, next: None },
        work: spec_tenant(k).work,
    }
}

/// One server's share of a tenant's rate.
pub open spec fn shared_rate(k: int, share: Part) -> int {
    spec_tenant(k).rate * share.done / share.of as int
}

/// What a settle touches is all it touches.
proof fn settles(e: SimEngine, f: SimEngine, now: Ticks, metered: Option<Metered>)
    requires
        f == (SimEngine {
            sim: f.sim,
            at: now,
            blame: f.blame,
            os_cpu_next: f.os_cpu_next,
            ..e
        }),
        f.sim@ == settled(e@, now, metered).sim,
        f.blame@ == settled(e@, now, metered).blame,
        f.os_cpu_next == settled(e@, now, metered).os_cpu_next,
    ensures
        f@ == settled(e@, now, metered),
{
}

/// Widen a frame's extremes to where the cores stand, and note whether admission is open.
fn widen(digest: &mut Digest, sim: &Sim, limit: Option<usize>, backpressure: bool)
    requires
        sim@.countable(),
    ensures
        final(digest)@ == (DigestView {
            busy_peak: if sim@.cpu.len() > old(digest).busy_peak {
                sim@.cpu.len() as usize
            } else {
                old(digest).busy_peak
            },
            busy_min: if sim@.cpu.len() < old(digest).busy_min {
                sim@.cpu.len() as usize
            } else {
                old(digest).busy_min
            },
            gate_open_end: spec_gate_open(sim@, limit, backpressure),
            ..old(digest)@
        }),
        final(digest).blame == old(digest).blame,
{
    let busy: usize = sim.cpu.len();
    if busy > digest.busy_peak {
        digest.busy_peak = busy;
    }
    if busy < digest.busy_min {
        digest.busy_min = busy;
    }
    digest.gate_open_end = gate_open(sim, limit, backpressure);
}

/// Fold a settle into the frame: its extremes, the state of admission, and the meter's reading.
fn fold(
    blame: &mut BlameSampler,
    digest: &mut Digest,
    sim: &Sim,
    now: Ticks,
    metered: Option<Metered>,
    limit: Option<usize>,
    backpressure: bool,
)
    requires
        sim@.countable(),
    ensures
        final(blame)@ == metered_to(old(blame)@, sim@, now, metered),
        final(digest)@ == widened_by(
            old(digest)@,
            sim@,
            old(blame)@,
            now,
            metered,
            limit,
            backpressure,
        ),
{
    widen(digest, sim, limit, backpressure);
    if let Some(m) = metered {
        blame.event(&mut digest.blame, now, m.meter, m.shut, &sim.occupiers);
    }
}

/// What closing a frame touches is all it touches.
proof fn closes(
    e: SimEngine,
    f: SimEngine,
    d: DigestView,
    now: Ticks,
    accounts: Option<Accounts>,
    pct: Option<u32>,
    ceiling: Option<usize>,
)
    requires
        f == (SimEngine { sim: f.sim, obs: f.obs, tenants: f.tenants, ..e }),
        f.sim@ == closed(e@, d, now, accounts, pct, ceiling).sim,
        f.obs@ == closed(e@, d, now, accounts, pct, ceiling).obs,
        f@.tenants == closed(e@, d, now, accounts, pct, ceiling).tenants,
    ensures
        f@ == closed(e@, d, now, accounts, pct, ceiling),
{
}

/// Join the reporter's readings to a frame's blame.
fn account(blame: BlameFrame, occupiers: &Vec<u32>, accounts: Option<Accounts>) -> (joined:
    BlameFrame)
    ensures
        joined@ == accounted(blame@, occupiers@, accounts),
{
    match accounts {
        Some(a) => BlameFrame {
            shut: blame.shut,
            spans: blame.spans,
            meter: a.meter,
            accumulated: a.accumulated,
            attributed: a.attributed,
            unattributed: a.unattributed,
            shut_now: a.shut_now,
            inflight: a.inflight,
            occupiers: copy_all(occupiers),
        },
        None => blame,
    }
}

/// Tell the readout what the frame gathered, and the ceiling where one is steered.
fn tell(
    obs: &mut Obs,
    gate_open_end: bool,
    blame: BlameFrame,
    pct: Option<u32>,
    steer: Option<Option<usize>>,
)
    ensures
        final(obs)@ == (ObsView {
            gate_open_end,
            blame: blame@,
            os_cpu_pct: pct,
            layers: match steer {
                Some(ceiling) => Layers { limit: ceiling, ..old(obs)@.layers },
                None => old(obs)@.layers,
            },
            ..old(obs)@
        }),
        final(obs).departures == old(obs).departures,
{
    obs.gate_open_end = gate_open_end;
    obs.blame = blame;
    obs.os_cpu_pct = pct;
    match steer {
        Some(ceiling) => {
            obs.layers.limit = ceiling;
        },
        None => {},
    }
}

impl SimEngine {
    /// The history of core occupancy is one the engine can read, and the tenants are in their
    /// places.
    pub open spec fn wf(self) -> bool {
        &&& readable(self.sim@.util_samples, self.at)
        &&& self.tenants matches Some(mix) ==> mix.wf()
    }

    /// An engine on a chosen seed, its stream held until its first gap is drawn.
    pub fn seeded(
        seed: u64,
        rate: u64,
        stage: PolicyStage,
        gate: Option<Gate>,
        cpu_only: bool,
        behavior: Behavior,
    ) -> (e: SimEngine)
        ensures
            opens(e, seed, rate, stage, gate, cpu_only, behavior),
            e.speed == DEFAULT_SPEED,
    {
        let limit: usize = default_limit(stage);
        let timeout: u64 = timeout_for(true);
        let layers = layers_for(stage, gate, true, limit, timeout, None);
        let stack = composition_for(stage, gate, true, None);
        let signal = match gate {
            Some(g) => g,
            None => Gate::default(),
        };
        let mut obs = Obs::default();
        obs.layers = layers;
        obs.queue_timeout = if layers.queue_timeout.is_some() {
            Some(TIMEOUT_MS * MS)
        } else {
            None
        };
        obs.backpressure = layers.backpressure;
        obs.response_timeout = OPENING_DEADLINE_MS * MS;
        SimEngine {
            sim: Sim::new(OPENING_DEADLINE_MS * MS, false, 100, signal),
            obs,
            rng: Rng::new(seed),
            stage,
            gate: signal,
            gated: gate.is_some(),
            cpu_only,
            behavior,
            backpressure: true,
            queue_timeout_on: true,
            concurrency_limit: limit,
            backpressure_flag: layers.backpressure,
            steered: steered(gate, stack),
            os_cpu_next: 0,
            arrivals: Arrivals::new(rate),
            next_id: 0,
            tenants: None,
            billing: None,
            ledger: Ledger::default(),
            blame: BlameSampler::default(),
            at: 0,
            speed: DEFAULT_SPEED,
        }
    }

    /// An engine for a single-server sim.
    pub fn new(
        rate: u64,
        stage: PolicyStage,
        gate: Option<Gate>,
        cpu_only: bool,
        behavior: Behavior,
    ) -> (e: SimEngine)
        ensures
            opens(e, ENGINE_SEED, rate, stage, gate, cpu_only, behavior),
            e.speed == DEFAULT_SPEED,
    {
        SimEngine::seeded(ENGINE_SEED, rate, stage, gate, cpu_only, behavior)
    }

    /// Three tenants sharing one server, with their accounting under its queue, and the fleet's
    /// limit in front of it where `billing` says so. The lone stream runs at what the tenants' sum
    /// to.
    pub fn tenanted(seed: u64, billing: Billing) -> (e: SimEngine)
        ensures
            e.wf(),
            opens_shared(e, seed),
            e.speed == DEFAULT_SPEED,
            e.billing == Some(billing),
            e.tenants matches Some(mix) && mix.rng.state == seed ^ 0x9e37_79b9_7f4a_7c15u64
                && mix.whose@ == Map::<u32, usize>::empty() && forall|k: int|
                0 <= k < TENANT_COUNT ==> #[trigger] mix.streams@[k] == opening_stream(k),
            asked_stack(e) == (if billing is Limited {
                Composition::QueueRateLimited
            } else {
                Composition::QueueTenant
            }),
    {
        let table = tenants();
        let mut rate: u64 = 0;
        let mut k: usize = 0;
        while k < 3
            invariant
                k <= 3,
                forall|j: int|
                    0 <= j < TENANT_COUNT ==> #[trigger] table@[j]
                        == spec_tenant(j),
                rate == (if k == 0 {
                    0int
                } else if k == 1 {
                    100_000
                } else if k == 2 {
                    160_000
                } else {
                    240_000
                }),
            decreases 3 - k,
        {
            assert(table@[k as int] == spec_tenant(k as int));
            rate = rate + table[k].rate;
            k += 1;
        }
        let mut e = SimEngine::seeded(
            seed,
            rate,
            PolicyStage::Queue,
            Some(Gate::RuntimeCpu),
            false,
            Behavior::Good,
        );
        e.billing = Some(billing);
        e.tenants = Some(TenantMix::new(seed));
        let _ = e.rebuild(0);
        e
    }

    /// One server of a fleet that shares its limits: each tenant's stream runs at this server's
    /// share of its rate.
    pub fn rate_limited(seed: u64, share: &Part) -> (e: SimEngine)
        requires
            share.of > 0,
            share.done <= share.of,
        ensures
            e.wf(),
            opens_shared(e, seed),
            e.speed == DEFAULT_SPEED,
            e.billing == Some(Billing::Limited),
            asked_stack(e) == Composition::QueueRateLimited,
            e.tenants matches Some(mix) && mix.rng.state == seed ^ 0x9e37_79b9_7f4a_7c15u64
                && mix.whose@ == Map::<u32, usize>::empty() && forall|k: int|
                0 <= k < TENANT_COUNT ==> #[trigger] mix.streams@[k] == (Stream {
                    clock: Arrivals {
                        rate: shared_rate(k, *share) as u64,
                        ..opening_stream(k).clock
                    },
                    ..opening_stream(k)
                }),
    {
        let mut e = SimEngine::tenanted(seed, Billing::Limited);
        let table = tenants();
        let mut k: usize = 0;
        while k < TENANT_COUNT
            invariant
                k <= TENANT_COUNT,
                share.of > 0,
                share.done <= share.of,
                forall|j: int| 0 <= j < TENANT_COUNT ==> #[trigger] table@[j] == spec_tenant(j),
                e.wf(),
                e.billing == Some(Billing::Limited),
                asked_stack(e) == Composition::QueueRateLimited,
                opens_shared(e, seed),
                e.speed == DEFAULT_SPEED,
                e.tenants matches Some(mix) && mix.rng.state == seed ^ 0x9e37_79b9_7f4a_7c15u64
                    && mix.whose@ == Map::<u32, usize>::empty() && mix.streams@.len()
                    == TENANT_COUNT && (forall|j: int|
                    0 <= j < k ==> #[trigger] mix.streams@[j] == (Stream {
                        clock: Arrivals {
                            rate: shared_rate(j, *share) as u64,
                            ..opening_stream(j).clock
                        },
                        ..opening_stream(j)
                    })) && (forall|j: int|
                    k <= j < TENANT_COUNT ==> #[trigger] mix.streams@[j] == opening_stream(j)),
            decreases TENANT_COUNT - k,
        {
            proof {
                a_tenant_is_found_by_its_name(k as int);
                let (rate, d, of) = (table@[k as int].rate as int, share.done as int, share.of as int);
                assert(0 <= rate * d / of <= rate) by (nonlinear_arith)
                    requires
                        0 <= rate,
                        0 <= d <= of,
                        of > 0,
                ;
                assert(rate * d <= 0xffff_ffff_ffff_ffff * 0xffff_ffff_ffff_ffff)
                    by (nonlinear_arith)
                    requires
                        0 <= rate <= 0xffff_ffff_ffff_ffff,
                        0 <= d <= 0xffff_ffff_ffff_ffff,
                ;
            }
            let scaled: u128 = table[k].rate as u128 * share.done as u128 / share.of as u128;
            let _ = e.set_tenant_qps(table[k].id, scaled as u64);
            k += 1;
        }
        e
    }

    /// The selected gate: one for a sim with gates to choose from, and none where the
    /// stage runs its own composition.
    pub fn selected_gate(&self) -> (gate: Option<Gate>)
        ensures
            gate == spec_selected(*self),
    {
        if self.gated {
            Some(self.gate)
        } else {
            None
        }
    }

    /// Ask for the stage's stack under the current controls. What comes back is the stack to swap
    /// in; the tallies, the clock and everyone in flight carry across.
    pub fn rebuild(&mut self, now: Ticks) -> (stack: Composition)
        ensures
            *final(self) == rebuilt(*old(self), now),
            stack == asked_stack(*old(self)),
    {
        let timeout: u64 = timeout_for(self.queue_timeout_on);
        let gate = self.selected_gate();
        let layers = layers_for(
            self.stage,
            gate,
            self.backpressure,
            self.concurrency_limit,
            timeout,
            self.billing,
        );
        let stack = composition_for(self.stage, gate, self.backpressure, self.billing);
        self.steered = steered(gate, stack);
        self.os_cpu_next = now;
        self.backpressure_flag = layers.backpressure;
        self.obs.layers = layers;
        self.obs.queue_timeout = if layers.queue_timeout.is_some() && self.queue_timeout_on {
            Some(TIMEOUT_MS * MS)
        } else {
            None
        };
        self.obs.backpressure = layers.backpressure;
        stack
    }

    /// Set the concurrency ceiling. It is the slider's to move only where a limit is drawn and no
    /// controller is driving it, and moving it there asks for a new stack; otherwise the number is
    /// kept for the next one.
    pub fn set_concurrency_limit(&mut self, n: usize, now: Ticks) -> (stack: Option<Composition>)
        ensures
            ({
                let set = SimEngine {
                    concurrency_limit: if n >= 1 {
                        n
                    } else {
                        1
                    },
                    ..*old(self)
                };
                if old(self).obs.layers.limit is Some && spec_selected(*old(self)) != Some(
                    Gate::OsCpu,
                ) {
                    *final(self) == rebuilt(set, now) && stack == Some(asked_stack(set))
                } else {
                    *final(self) == set && stack is None
                }
            }),
    {
        self.concurrency_limit = if n >= 1 {
            n
        } else {
            1
        };
        let driven: bool = match self.selected_gate() {
            Some(Gate::OsCpu) => true,
            _ => false,
        };
        if self.obs.layers.limit.is_some() && !driven {
            Some(self.rebuild(now))
        } else {
            None
        }
    }

    /// Switch the admission signal. Each is its own composition, so the switch asks for a new
    /// stack.
    pub fn set_gate(&mut self, gate: Gate, now: Ticks) -> (stack: Composition)
        ensures
            ({
                let set = SimEngine {
                    gate,
                    sim: Sim { gate, ..old(self).sim },
                    ..*old(self)
                };
                *final(self) == rebuilt(set, now) && stack == asked_stack(set)
            }),
    {
        self.gate = gate;
        self.sim.gate = gate;
        self.rebuild(now)
    }

    /// Toggle CPU backpressure, which composes its layer or drops it where the stage lets the switch
    /// decide.
    pub fn set_backpressure(&mut self, on: bool, now: Ticks) -> (stack: Composition)
        ensures
            ({
                let set = SimEngine { backpressure: on, ..*old(self) };
                *final(self) == rebuilt(set, now) && stack == asked_stack(set)
            }),
    {
        self.backpressure = on;
        self.rebuild(now)
    }

    /// Toggle the queue's shed deadline.
    pub fn set_queue_timeout(&mut self, on: bool, now: Ticks) -> (stack: Composition)
        ensures
            ({
                let set = SimEngine { queue_timeout_on: on, ..*old(self) };
                *final(self) == rebuilt(set, now) && stack == asked_stack(set)
            }),
    {
        self.queue_timeout_on = on;
        self.rebuild(now)
    }

    /// Scale IO latency, in hundredths: 100 is the baseline, and it stays between a tenth and four
    /// times it.
    pub fn set_io_speed(&mut self, percent: u32)
        ensures
            *final(self) == (SimEngine {
                sim: Sim {
                    io_speed: if percent < 10 {
                        10
                    } else if percent > 400 {
                        400
                    } else {
                        percent
                    },
                    ..old(self).sim
                },
                ..*old(self)
            }),
    {
        self.sim.io_speed = if percent < 10 {
            10
        } else if percent > 400 {
            400
        } else {
            percent
        };
    }

    /// Toggle the processing deadline.
    pub fn set_processing_timeout(&mut self, on: bool)
        ensures
            *final(self) == (SimEngine {
                obs: Obs { processing_timeout_enabled: on, ..old(self).obs },
                sim: Sim { processing_timeout_enabled: on, ..old(self).sim },
                ..*old(self)
            }),
    {
        self.obs.processing_timeout_enabled = on;
        self.sim.processing_timeout_enabled = on;
    }

    /// Set the response deadline, in milliseconds: one at least.
    pub fn set_response_timeout_ms(&mut self, ms: u64)
        requires
            ms * MS <= u64::MAX,
        ensures
            ({
                let set = if ms < 1 {
                    MS
                } else {
                    (ms * MS) as u64
                };
                *final(self) == (SimEngine {
                    obs: Obs { response_timeout: set, ..old(self).obs },
                    sim: Sim { response_timeout: set, ..old(self).sim },
                    ..*old(self)
                })
            }),
    {
        let set: u64 = if ms < 1 {
            MS
        } else {
            ms * MS
        };
        self.obs.response_timeout = set;
        self.sim.response_timeout = set;
    }

    /// How fast the engine's clock runs against the reader's, in millionths, within its bounds.
    pub fn set_speed(&mut self, millionths: u64)
        ensures
            *final(self) == (SimEngine {
                speed: if millionths < SLOWEST {
                    SLOWEST
                } else if millionths > FASTEST {
                    FASTEST
                } else {
                    millionths
                },
                ..*old(self)
            }),
    {
        self.speed = if millionths < SLOWEST {
            SLOWEST
        } else if millionths > FASTEST {
            FASTEST
        } else {
            millionths
        };
    }

    /// How far virtual time runs in `wall` microseconds of the reader's: a millionth of a speed is
    /// a tick to the microsecond.
    pub fn runs(&self, wall: u64) -> (virt: Ticks)
        requires
            wall * self.speed <= u64::MAX,
        ensures
            virt == wall * self.speed,
    {
        wall * self.speed
    }

    /// Move one tenant's rate. What comes back is the tenant whose stream woke and so needs a gap
    /// drawn, where one did. An engine with no tenants, and a name that is nobody's, move nothing.
    pub fn set_tenant_qps(&mut self, tenant: &str, rate: u64) -> (woken: Option<usize>)
        requires
            old(self).wf(),
        ensures
            final(self).wf(),
            *final(self) == (SimEngine { tenants: final(self).tenants, ..*old(self) }),
            match (old(self).tenants, spec_tenant_of(Some(tenant@))) {
                (Some(mix), Some(k)) => {
                    &&& final(self).tenants matches Some(after)
                    &&& after.streams@ == mix.streams@.update(
                        k,
                        Stream {
                            clock: Arrivals { rate, ..mix.streams@[k].clock },
                            ..mix.streams@[k]
                        },
                    )
                    &&& after.rng == mix.rng && after.whose == mix.whose
                    &&& woken == (if mix.streams@[k].clock.rate == 0 && rate > 0 {
                        Some(k as usize)
                    } else {
                        None
                    })
                },
                _ => woken is None && (old(self).tenants is None ==> final(self).tenants is None)
                    && (old(self).tenants matches Some(mix) ==> final(self).tenants matches Some(
                    after,
                ) && after.streams@ == mix.streams@ && after.rng == mix.rng && after.whose
                    == mix.whose),
            },
    {
        match self.tenants.take() {
            Some(mut mix) => {
                let woken: Option<usize> = mix.set_rate(tenant, rate);
                self.tenants = Some(mix);
                woken
            },
            None => None,
        }
    }

    /// Move one tenant's weight: how much work each of its requests brings.
    pub fn set_tenant_work(&mut self, tenant: &str, work: u32)
        requires
            old(self).wf(),
        ensures
            final(self).wf(),
            *final(self) == (SimEngine { tenants: final(self).tenants, ..*old(self) }),
            old(self).tenants is None <==> final(self).tenants is None,
            old(self).tenants matches Some(mix) ==> {
                &&& final(self).tenants matches Some(after)
                &&& after.rng == mix.rng && after.whose == mix.whose
                &&& after.streams@ == (match spec_tenant_of(Some(tenant@)) {
                    Some(k) => mix.streams@.update(k, Stream { work, ..mix.streams@[k] }),
                    None => mix.streams@,
                })
            },
    {
        match self.tenants.take() {
            Some(mut mix) => {
                mix.set_work(tenant, work);
                self.tenants = Some(mix);
            },
            None => {},
        }
    }

    /// Open the stage with a single request in flight: the lone stream is held, and one request is
    /// sent now. It is to be run half its inbound leg on, and the stream let go from there.
    pub fn open_incoming(&mut self, now: Ticks) -> (placed: (SimReq, Ticks))
        requires
            old(self).next_id < u32::MAX,
            now + NET_MS * MS <= u64::MAX,
        ensures
            placed.0.id == old(self).next_id,
            placed.0.enq_t == now + NET_MS * MS,
            placed.0.tenant == SOLO,
            (placed.0.phases@, final(self).rng.state) == spec_plan(
                old(self).rng.state,
                old(self).cpu_only,
                WHOLE_WEIGHT,
            ),
            placed.1 == now + NET_MS * MS / 2,
            *final(self) == (SimEngine {
                rng: final(self).rng,
                next_id: (old(self).next_id + 1) as u32,
                arrivals: Arrivals { next: None, ..old(self).arrivals },
                ..*old(self)
            }),
    {
        self.arrivals.hold();
        let req = self.inject(now);
        (req, now + NET_MS * MS / 2)
    }

    /// Let the lone stream go: its next send is a gap from now.
    pub fn release(&mut self, now: Ticks, gap: Ticks)
        requires
            now + gap <= u64::MAX,
        ensures
            *final(self) == (SimEngine {
                arrivals: Arrivals { next: Some((now + gap) as u64), ..old(self).arrivals },
                ..*old(self)
            }),
    {
        self.arrivals.release(now, gap);
    }

    /// Retune the lone stream, never past [`TOP_RATE`], and say whether it is coming back from
    /// silence. A rate of zero is no arrivals but the ones placed by hand.
    pub fn set_lambda(&mut self, rate: u64) -> (woken: bool)
        ensures
            ({
                let set = if rate > TOP_RATE {
                    TOP_RATE
                } else {
                    rate
                };
                &&& woken == (old(self).arrivals.rate == 0 && set > 0)
                &&& *final(self) == (SimEngine {
                    arrivals: Arrivals { rate: set, ..old(self).arrivals },
                    ..*old(self)
                })
            }),
    {
        let set: u64 = if rate > TOP_RATE {
            TOP_RATE
        } else {
            rate
        };
        self.arrivals.set_rate(set)
    }

    /// A draw from the lone stream, for a gap.
    pub fn draw(&mut self) -> (m: u64)
        ensures
            m == drawn(next_state(old(self).rng.state)),
            *final(self) == (SimEngine {
                rng: Rng { state: next_state(old(self).rng.state) },
                ..*old(self)
            }),
    {
        self.rng.fraction()
    }

    /// A request of the lone tenant, landing at `at`, with the next id.
    fn request(&mut self, at: Ticks) -> (req: SimReq)
        requires
            old(self).next_id < u32::MAX,
        ensures
            req.id == old(self).next_id,
            req.enq_t == at,
            req.tenant == SOLO,
            (req.phases@, final(self).rng.state) == spec_plan(
                old(self).rng.state,
                old(self).cpu_only,
                WHOLE_WEIGHT,
            ),
            *final(self) == (SimEngine {
                rng: final(self).rng,
                next_id: (old(self).next_id + 1) as u32,
                ..*old(self)
            }),
    {
        let id: u32 = self.next_id;
        let phases = make_phases(&mut self.rng, self.cpu_only, WHOLE_WEIGHT);
        self.next_id = id + 1;
        SimReq { id, enq_t: at, tenant: SOLO, phases }
    }

    /// Inject one request sent right now: an ordinary arrival whose inbound leg starts at this
    /// instant.
    pub fn inject(&mut self, now: Ticks) -> (req: SimReq)
        requires
            old(self).next_id < u32::MAX,
            now + NET_MS * MS <= u64::MAX,
        ensures
            req.id == old(self).next_id,
            req.enq_t == now + NET_MS * MS,
            req.tenant == SOLO,
            (req.phases@, final(self).rng.state) == spec_plan(
                old(self).rng.state,
                old(self).cpu_only,
                WHOLE_WEIGHT,
            ),
            *final(self) == (SimEngine {
                rng: final(self).rng,
                next_id: (old(self).next_id + 1) as u32,
                ..*old(self)
            }),
    {
        self.request(now + NET_MS * MS)
    }

    /// The next request the lone stream sends by `t_end`, if one is due. Its work is drawn here;
    /// the stream's clock stands until the gap after it is drawn and [`sent`](SimEngine::sent).
    pub fn arrival(&mut self, t_end: Ticks) -> (sent: Option<SimReq>)
        requires
            old(self).next_id < u32::MAX,
        ensures
            match sent {
                Some(req) => {
                    &&& old(self).arrivals.spec_due(t_end) == Some(req.enq_t)
                    &&& req.id == old(self).next_id
                    &&& req.tenant == SOLO
                    &&& (req.phases@, final(self).rng.state) == spec_plan(
                        old(self).rng.state,
                        old(self).cpu_only,
                        WHOLE_WEIGHT,
                    )
                    &&& *final(self) == (SimEngine {
                        rng: final(self).rng,
                        next_id: (old(self).next_id + 1) as u32,
                        ..*old(self)
                    })
                },
                None => old(self).arrivals.spec_due(t_end) is None && *final(self) == *old(self),
            },
    {
        match self.arrivals.due(t_end) {
            Some(at) => Some(self.request(at)),
            None => None,
        }
    }

    /// The lone stream sent a request landing at `at`: its next is a gap after it.
    pub fn sent(&mut self, at: Ticks, gap: Ticks)
        requires
            at + gap <= u64::MAX,
        ensures
            *final(self) == (SimEngine {
                arrivals: Arrivals { next: Some((at + gap) as u64), ..old(self).arrivals },
                ..*old(self)
            }),
    {
        self.arrivals.sent(at, gap);
    }

    /// Which tenant a live request belongs to, as its place in the table.
    pub fn whose(&self, id: u32) -> (k: Option<usize>)
        requires
            self.wf(),
        ensures
            k == spec_whose(*self, id),
            k matches Some(i) ==> i < TENANT_COUNT,
    {
        match &self.tenants {
            Some(mix) => mix.whose(id),
            None => None,
        }
    }

    /// A frame opens.
    pub fn open_frame(&self) -> (d: Digest)
        ensures
            d@ == opening_digest(),
    {
        Digest {
            busy_peak: 0,
            busy_min: usize::MAX,
            gate_open_end: true,
            blame: BlameFrame::default(),
        }
    }

    /// Whether the engine can settle at `now`: no earlier than it last did, with no more cores busy
    /// than there are, and with room to count.
    pub fn can_settle(&self, now: Ticks) -> (b: bool)
        ensures
            b == (self.at <= now && self.sim@.cpu.len() <= CORES && self.sim@.countable() && now
                + OS_CPU_REFRESH_MS * MS <= u64::MAX),
    {
        self.at <= now && self.sim.cpu.len() <= CORES && self.sim.is_countable() && now <= u64::MAX
            - OS_CPU_REFRESH_MS * MS
    }

    /// Whether a frame can be closed: its counts have room.
    pub fn can_close(&self) -> (b: bool)
        ensures
            b == (self.sim@.countable() && self.sim@.done_window.len()
                + self.sim@.timeout_window.len() <= usize::MAX),
    {
        self.sim.is_countable() && self.sim.done_window.len() as u128
            + self.sim.timeout_window.len() as u128 <= usize::MAX as u128
    }

    /// The world settled at `now`: record the occupancy, fold the meter's reading, and widen the
    /// frame's extremes. Where the controller is due a look, what comes back is the busy core-time
    /// it reads.
    pub fn settle(&mut self, digest: &mut Digest, now: Ticks, metered: Option<Metered>) -> (look:
        Option<u64>)
        requires
            old(self).wf(),
            old(self).at <= now,
            old(self).sim@.cpu.len() <= CORES,
            old(self).sim@.countable(),
            now + OS_CPU_REFRESH_MS * MS <= u64::MAX,
        ensures
            final(self).wf(),
            final(self)@ == settled(old(self)@, now, metered),
            final(digest)@ == widened(old(digest)@, old(self)@, now, metered),
            look is Some <==> looks(old(self)@, now),
            look matches Some(busy) ==> busy == busy_time(
                final(self).sim@.util_samples,
                final(self).sim@.util_samples.len() as int,
                now,
            ) && busy <= CORES * crate::engine::clock::OS_CPU_WINDOW_MS * MS,
    {
        proof {
            sampling_keeps_the_history_readable(self.sim@, self.at, now);
        }
        let ghost was = *self;
        let limit: Option<usize> = self.obs.layers.limit;
        let flag: bool = self.backpressure_flag;
        fold(&mut self.blame, digest, &self.sim, now, metered, limit, flag);
        assert(digest@ == widened(old(digest)@, was@, now, metered));
        self.sim.util_sample(now);
        self.at = now;
        let due: bool = self.steered && now >= self.os_cpu_next;
        if due {
            self.os_cpu_next = now + OS_CPU_REFRESH_MS * MS;
        }
        proof {
            assert(*self == SimEngine {
                sim: self.sim,
                at: now,
                blame: self.blame,
                os_cpu_next: self.os_cpu_next,
                ..was
            });
            settles(was, *self, now, metered);
        }
        if due {
            Some(self.sim.os_cpu_busy(now))
        } else {
            None
        }
    }

    /// The frame closes: the reporter's readings join the blame sampled in it, the departures the
    /// last frame handed out are forgotten, and the frame's reading is taken. `pct` and `ceiling`
    /// are the controller's, where one steers.
    pub fn close_frame(
        &mut self,
        digest: Digest,
        now: Ticks,
        accounts: Option<Accounts>,
        pct: Option<u32>,
        ceiling: Option<usize>,
    )
        requires
            old(self).wf(),
            old(self).sim@.countable(),
            old(self).sim@.done_window.len() + old(self).sim@.timeout_window.len() <= usize::MAX,
        ensures
            final(self).wf(),
            final(self)@ == closed(old(self)@, digest@, now, accounts, pct, ceiling),
    {
        let least: usize = if digest.busy_min < digest.busy_peak {
            digest.busy_min
        } else {
            digest.busy_peak
        };
        match &mut self.tenants {
            Some(mix) => mix.forget(&self.obs.departures),
            None => {},
        }
        let ghost given = digest@;
        let blame = account(digest.blame, &self.sim.occupiers, accounts);
        let steer: Option<Option<usize>> = if self.steered {
            Some(ceiling)
        } else {
            None
        };
        tell(&mut self.obs, digest.gate_open_end, blame, pct, steer);
        assert(self.obs@ == told(old(self)@, given, accounts, pct, ceiling));
        self.obs.snapshot(&mut self.sim, now, digest.busy_peak, least);
        proof {
            assert(*self == SimEngine {
                sim: self.sim,
                obs: self.obs,
                tenants: self.tenants,
                ..*old(self)
            });
            closes(*old(self), *self, given, now, accounts, pct, ceiling);
        }
    }

    /// This server's live tallies, read off the running state.
    pub fn counts(&self) -> (counts: ServerCounts)
        requires
            self.sim@.countable(),
        ensures
            counts == self.sim@.counts(),
    {
        self.sim.counts()
    }

    /// The fares banked since the last call.
    pub fn take_fares(&mut self) -> (fares: Vec<(&'static str, Ticks)>)
        ensures
            fares@ == old(self).ledger@,
            final(self).ledger@ == Seq::<(&'static str, Ticks)>::empty(),
            *final(self) == (SimEngine { ledger: final(self).ledger, ..*old(self) }),
    {
        self.ledger.drain()
    }
}

/// Which tenant a request belongs to, as its place in the table.
pub open spec fn spec_whose(e: SimEngine, id: u32) -> Option<usize> {
    match e.tenants {
        Some(mix) => if mix.whose@.contains_key(id) {
            Some(mix.whose@[id])
        } else {
            None
        },
        None => None,
    }
}

/// A control leaves everyone where they are: rebuilding the stack keeps the state, the tallies and
/// the streams.
pub proof fn a_rebuild_carries_everything_across(e: SimEngine, now: Ticks)
    ensures
        rebuilt(e, now).sim == e.sim,
        rebuilt(e, now).arrivals == e.arrivals,
        rebuilt(e, now).tenants == e.tenants,
        rebuilt(e, now).next_id == e.next_id,
        rebuilt(e, now).rng == e.rng,
        rebuilt(e, now).obs.live == e.obs.live,
        rebuilt(rebuilt(e, now), now) == rebuilt(e, now),
{
}

/// A gate with a ceiling is open while the work past it is under the ceiling; one with none stands
/// open, or where it is the CPU's, while fewer than half the cores are busy.
pub proof fn a_gate_is_open_while_there_is_room(v: SimView, limit: Option<usize>, backpressure: bool)
    ensures
        limit matches Some(n) ==> (spec_gate_open(v, limit, backpressure) <==> v.cpu.len()
            + v.io.len() + v.ready.len() < n),
        limit is None && !backpressure ==> spec_gate_open(v, limit, backpressure),
        limit is None && backpressure ==> (spec_gate_open(v, limit, backpressure) <==> 2
            * v.cpu.len() < CORES),
{
}

/// A frame's extremes are extremes: no settle of it found more cores busy than the most or fewer
/// than the fewest, and each of them is one that a settle found.
pub proof fn the_extremes_are_met(d: DigestView, e: EngineView, now: Ticks, metered: Option<Metered>)
    requires
        e.sim.cpu.len() <= CORES,
    ensures
        ({
            let after = widened(d, e, now, metered);
            let busy = e.sim.cpu.len();
            &&& after.busy_min <= busy <= after.busy_peak
            &&& after.busy_min <= d.busy_min && d.busy_peak <= after.busy_peak
            &&& after.busy_peak == busy || after.busy_peak == d.busy_peak
            &&& after.busy_min == busy || after.busy_min == d.busy_min
        }),
        fewest(d) <= d.busy_peak && fewest(d) <= d.busy_min,
        fewest(d) == d.busy_peak || fewest(d) == d.busy_min,
        opening_digest().busy_peak == 0,
{
}

/// The controller looks where it steers and its time has come, and not again for a tenth of a
/// second.
pub proof fn the_controller_looks_ten_times_a_second(e: EngineView, now: Ticks, metered: Option<Metered>)
    requires
        now + OS_CPU_REFRESH_MS * MS <= u64::MAX,
    ensures
        looks(e, now) <==> e.steered && e.os_cpu_next <= now,
        looks(e, now) ==> settled(e, now, metered).os_cpu_next == now + 100_000_000_000,
        !looks(e, now) ==> settled(e, now, metered).os_cpu_next == e.os_cpu_next,
        settled(e, now, metered).at == now,
{
}

/// A meter read is kept until it is read again: when, what it read, whether the door was shut, and
/// who was inside. An engine that is not metered keeps what it had.
pub proof fn a_reading_is_kept_until_the_next(e: EngineView, now: Ticks, m: Metered)
    ensures
        settled(e, now, None).blame == e.blame,
        settled(e, now, Some(m)).blame matches Some(kept) && kept.t == now && kept.meter == m.meter
            && kept.shut == m.shut && kept.occupiers == e.sim.occupiers,
        settled(e, now, Some(m)).obs == e.obs && settled(e, now, Some(m)).tenants == e.tenants
            && settled(e, now, Some(m)).next_id == e.next_id && settled(e, now, Some(m)).rng
            == e.rng,
{
}

/// A frame takes on what was billed and what was shut since the meter was last read, after what it
/// already had; and its admission is as the last settle found it.
pub proof fn a_frame_takes_on_what_was_billed(d: DigestView, e: EngineView, now: Ticks, m: Metered)
    ensures
        ({
            let after = widened(d, e, now, Some(m));
            &&& after.blame.spans == d.blame.spans + billed_since(e.blame, now, m.meter)
            &&& after.blame.shut == d.blame.shut + shut_since(e.blame, now)
            &&& after.blame.meter == d.blame.meter && after.blame.occupiers == d.blame.occupiers
            &&& after.gate_open_end == spec_gate_open(
                e.sim,
                e.obs.layers.limit,
                e.backpressure_flag,
            )
            &&& widened(d, e, now, None).blame == d.blame
        }),
{
}

/// A closed frame shows what the reporter told: its accounts where there are any, beside what the
/// frame itself was billed; the reading of the processors; and the ceiling where it is steered. The
/// last frame's departed are forgotten then, and not before.
pub proof fn a_closed_frame_shows_what_was_told(
    e: EngineView,
    d: DigestView,
    now: Ticks,
    a: Accounts,
    pct: Option<u32>,
    ceiling: Option<usize>,
)
    ensures
        ({
            let shown = closed(e, d, now, Some(a), pct, ceiling).obs;
            &&& shown.blame.meter == a.meter && shown.blame.accumulated == a.accumulated
                && shown.blame.attributed == a.attributed && shown.blame.unattributed
                == a.unattributed && shown.blame.shut_now == a.shut_now && shown.blame.inflight
                == a.inflight
            &&& shown.blame.spans == d.blame.spans && shown.blame.shut == d.blame.shut
            &&& shown.blame.occupiers == e.sim.occupiers
            &&& shown.os_cpu_pct == pct && shown.gate_open_end == d.gate_open_end
            &&& e.steered ==> shown.layers.limit == ceiling
            &&& !e.steered ==> shown.layers == e.obs.layers
            &&& shown.busy_peak == d.busy_peak
            &&& closed(e, d, now, None, pct, ceiling).obs.blame == d.blame
        }),
        e.tenants matches Some(mix) ==> (closed(e, d, now, Some(a), pct, ceiling).tenants matches Some(
            after,
        ) && after.streams == mix.streams && after.rng == mix.rng && after.whose == forgotten(
            mix.whose,
            e.obs.departures,
        )),
{
}

/// A rebuild runs what the controls ask for: the layers shown are the layers run, a deadline is
/// shown where the queue has one and it is on, and the ceiling is steered where the OS reading is
/// what is asked for at a queue.
pub proof fn a_rebuild_runs_what_is_asked_for(e: SimEngine, now: Ticks)
    ensures
        ({
            let after = rebuilt(e, now);
            &&& after.obs.layers == asked_layers(e)
            &&& after.obs.backpressure == after.backpressure_flag && after.backpressure_flag
                == after.obs.layers.backpressure
            &&& after.obs.queue_timeout == if after.obs.layers.queue_timeout is Some
                && e.queue_timeout_on {
                Some(100_000_000_000u64)
            } else {
                None
            }
            &&& after.steered <==> e.gated && e.gate == Gate::OsCpu && e.stage is Queue && e.billing
                is None
            &&& after.os_cpu_next == now
        }),
        spec_selected(e) is Some <==> e.gated,
        e.gated ==> spec_selected(e) == Some(e.gate),
{
}

/// A server's share of a tenant's rate is its part of the whole, to the unit below: the whole of it
/// where it is the only one.
pub proof fn a_share_of_a_rate_is_its_part(k: int, share: Part)
    requires
        share.of > 0,
        share.done <= share.of,
    ensures
        share.of * shared_rate(k, share) <= spec_tenant(k).rate * share.done,
        spec_tenant(k).rate * share.done < share.of * shared_rate(k, share) + share.of,
        share.done == share.of ==> shared_rate(k, share) == spec_tenant(k).rate,
{
    let x = spec_tenant(k).rate * share.done;
    vstd::arithmetic::div_mod::lemma_fundamental_div_mod(x, share.of as int);
    if share.done == share.of {
        let (r, of) = (spec_tenant(k).rate as int, share.of as int);
        assert((r * of) / of == r) by (nonlinear_arith)
            requires
                of > 0,
        ;
    }
}

/// A request is its tenant's from when it is sent until it is forgotten, and nobody's on a machine
/// with no tenants.
pub proof fn a_request_is_its_tenants(e: SimEngine, id: u32)
    ensures
        e.tenants is None ==> spec_whose(e, id) is None,
        e.tenants matches Some(mix) ==> {
            &&& mix.whose@.contains_key(id) ==> spec_whose(e, id) == Some(mix.whose@[id])
            &&& !mix.whose@.contains_key(id) ==> spec_whose(e, id) is None
        },
{
}

/// What runs is what is shown: the stack the controls ask for queues, sheds, refuses, caps and
/// admits by the CPU exactly where the layers they ask for say so.
pub proof fn the_stack_asked_for_is_the_layers_asked_for(e: SimEngine)
    ensures
        ({
            let (stack, layers) = (asked_stack(e), asked_layers(e));
            &&& stack.queues() == layers.queue && stack.sheds() == layers.queue_timeout is Some
            &&& (stack == Composition::Reject) == layers.reject
            &&& stack.limits() == layers.limit is Some && stack.gates_on_cpu()
                == layers.backpressure
            &&& e.billing is Some && e.stage is Queue ==> stack == Composition::QueueTenant || stack
                == Composition::QueueRateLimited
        }),
{
}

/// An engine for tenants opens as one lone stream of all that they send between them would, at a
/// healthy queue admitted by the CPU; and each tenant's own stream at its own rate, holding its first
/// send.
pub proof fn tenants_open_at_their_own_rates(e: SimEngine, seed: u64, k: int)
    requires
        opens_shared(e, seed),
    ensures
        e.arrivals.rate == spec_tenant(0).rate + spec_tenant(1).rate + spec_tenant(2).rate,
        e.stage is Queue && e.gated && e.gate == Gate::RuntimeCpu,
        !e.cpu_only && e.behavior is Good,
        e.next_id == 0 && e.at == 0 && e.arrivals.next is None,
        opening_stream(k).clock.next is None && opening_stream(k).clock.rate == spec_tenant(k).rate
            && opening_stream(k).work == spec_tenant(k).work && opening_stream(k).spec
            == spec_tenant(k),
{
}

/// A frame opens with admission open, nothing billed and no extremes met.
pub proof fn a_frame_opens_with_admission_open()
    ensures
        opening_digest().gate_open_end,
        opening_digest().blame.spans.len() == 0 && opening_digest().blame.shut.len() == 0,
        opening_digest().busy_min == usize::MAX,
{
}

/// An engine opens with nothing in it, every switch on, its stage's own ceiling, a second's patience
/// at the client, and the stack its stage asks for; steered only where the OS reading is asked for at
/// a queue.
pub proof fn an_engine_opens_as_its_stage_asks(
    e: SimEngine,
    seed: u64,
    rate: u64,
    stage: PolicyStage,
    gate: Option<Gate>,
    cpu_only: bool,
    behavior: Behavior,
)
    requires
        opens(e, seed, rate, stage, gate, cpu_only, behavior),
    ensures
        e.steered <==> gate == Some(Gate::OsCpu) && stage is Queue,
        e.backpressure && e.queue_timeout_on,
        stage is Reject || stage is Wait ==> e.concurrency_limit == 8,
        stage is Queue ==> e.concurrency_limit == 24,
        e.arrivals.rate == rate && e.arrivals.next is None,
        e.sim@.committed() == 0 && e.sim@.net_out.len() == 0 && e.sim@.stats.terminal() == 0
            && e.sim@.stats.arrived == 0,
        e.sim@.io_speed == 100 && !e.sim@.processing_timeout_enabled,
        e.sim@.response_timeout == 1_000_000_000_000 && e.obs@.response_timeout
            == 1_000_000_000_000,
        e.obs@.layers == asked_layers(e) && e.backpressure_flag == e.obs@.layers.backpressure,
        e.obs@.live.len() == 0 && e.obs@.t == 0,
        gate is None ==> !e.gated && e.gate == Gate::RuntimeCpu,
        gate matches Some(g) ==> e.gated && e.gate == g,
{
}

} // verus!
