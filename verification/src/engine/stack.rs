//! Which stack a stage runs under the current controls, and which layers the picture draws
//! of it.

use vstd::prelude::*;

use crate::compose::{
    Composition, Gate, Layers, PolicyStage, REJECT_LIMIT,
};
use crate::engine::clock::{Ticks, MS, TIMEOUT_MS};

verus! {

/// Cores the simulated server has.
pub const CORES: usize = 8;

/// The cores the admission reserve leaves free to admit on: half of them.
pub const ADMISSION_LIMIT: usize = 4;

/// The ceiling the OS-CPU controller starts from.
pub const OS_CPU_INITIAL_LIMIT: usize = 16;

/// What a tenanted stack bills through: accounting alone, or accounting with the fleet's limit
/// in front.
#[derive(Clone, Copy, PartialEq, Eq, Structural, Debug)]
pub enum Billing {
    Measured,
    Limited,
}

/// The queue shed deadline for the toggle's position: 100 ms, or an hour so long nothing sheds.
pub open spec fn spec_timeout_for(on: bool) -> Ticks {
    if on {
        (TIMEOUT_MS * MS) as u64
    } else {
        (3_600_000 * MS) as u64
    }
}

/// The queue shed deadline for the toggle's position.
pub fn timeout_for(on: bool) -> (t: Ticks)
    ensures
        t == spec_timeout_for(on),
{
    if on {
        TIMEOUT_MS * MS
    } else {
        3_600_000 * MS
    }
}

/// The ceiling a stage starts at: its own layers', so the slider opens where the composition
/// runs, and a stage that gates on nothing still has a number to move.
pub open spec fn spec_default_limit(stage: PolicyStage) -> usize {
    match Layers::spec_of(stage, spec_timeout_for(true)).limit {
        Some(n) => n,
        None => REJECT_LIMIT,
    }
}

/// The ceiling a stage starts at.
pub fn default_limit(stage: PolicyStage) -> (n: usize)
    ensures
        n == spec_default_limit(stage),
        n >= 1,
{
    match Layers::of(stage, timeout_for(true)).limit {
        Some(n) => n,
        None => REJECT_LIMIT,
    }
}

/// The stack a stage runs under the current controls.
pub open spec fn spec_composition_for(
    stage: PolicyStage,
    gate: Option<Gate>,
    backpressure_on: bool,
    billing: Option<Billing>,
) -> Composition {
    match stage {
        PolicyStage::App => Composition::Bare,
        PolicyStage::Backpressure => if backpressure_on {
            Composition::Backpressure
        } else {
            Composition::Bare
        },
        PolicyStage::Reject => Composition::Reject,
        PolicyStage::Wait => Composition::Wait,
        PolicyStage::Queue => match billing {
            Some(Billing::Limited) => Composition::QueueRateLimited,
            Some(Billing::Measured) => Composition::QueueTenant,
            None => if gate == Some(Gate::RuntimeCpu) {
                Composition::Queue
            } else if gate == Some(Gate::OsCpu) {
                Composition::QueueOsCpu
            } else {
                Composition::QueueNaive
            },
        },
    }
}

/// The stack a stage runs under the current controls. Billing settles admission rather than
/// choosing beside it: a tenanted queue always gates on the CPU.
pub fn composition_for(
    stage: PolicyStage,
    gate: Option<Gate>,
    backpressure_on: bool,
    billing: Option<Billing>,
) -> (c: Composition)
    ensures
        c == spec_composition_for(stage, gate, backpressure_on, billing),
{
    match stage {
        PolicyStage::App => Composition::Bare,
        PolicyStage::Backpressure => if backpressure_on {
            Composition::Backpressure
        } else {
            Composition::Bare
        },
        PolicyStage::Reject => Composition::Reject,
        PolicyStage::Wait => Composition::Wait,
        PolicyStage::Queue => match (billing, gate) {
            (Some(Billing::Limited), _) => Composition::QueueRateLimited,
            (Some(Billing::Measured), _) => Composition::QueueTenant,
            (None, Some(Gate::RuntimeCpu)) => Composition::Queue,
            (None, Some(Gate::OsCpu)) => Composition::QueueOsCpu,
            (None, _) => Composition::QueueNaive,
        },
    }
}

/// The layers a stack is made of, under a ceiling and a shed deadline. The ceiling a controller
/// steers opens at its own.
pub open spec fn spec_drawn(running: Composition, limit: usize, timeout: Ticks) -> Layers {
    Layers {
        backpressure: running.gates_on_cpu(),
        limit: if running is QueueOsCpu {
            Some(OS_CPU_INITIAL_LIMIT)
        } else if running.limits() {
            Some(limit)
        } else {
            None
        },
        reject: running is Reject,
        queue: running.queues(),
        queue_timeout: if running.sheds() {
            Some(timeout)
        } else {
            None
        },
    }
}

/// The layers of the stack a stage runs under the current controls.
pub open spec fn spec_layers_for(
    stage: PolicyStage,
    gate: Option<Gate>,
    backpressure_on: bool,
    limit: usize,
    timeout: Ticks,
    billing: Option<Billing>,
) -> Layers {
    spec_drawn(spec_composition_for(stage, gate, backpressure_on, billing), limit, timeout)
}

/// The layers of the stack a stage runs under the current controls: what the picture draws. They
/// are read off the stack itself, so that the picture never claims one that is not running.
pub fn layers_for(
    stage: PolicyStage,
    gate: Option<Gate>,
    backpressure_on: bool,
    limit: usize,
    timeout: Ticks,
    billing: Option<Billing>,
) -> (layers: Layers)
    ensures
        layers == spec_layers_for(stage, gate, backpressure_on, limit, timeout, billing),
{
    let bare = Layers::default();
    let queued = Layers { queue: true, queue_timeout: Some(timeout), ..bare };
    match composition_for(stage, gate, backpressure_on, billing) {
        Composition::Bare => bare,
        Composition::Backpressure => Layers { backpressure: true, ..bare },
        Composition::Reject => Layers { limit: Some(limit), reject: true, ..bare },
        Composition::Wait => Layers { limit: Some(limit), queue: true, ..bare },
        Composition::QueueNaive => Layers { limit: Some(limit), ..queued },
        Composition::QueueOsCpu => Layers { limit: Some(OS_CPU_INITIAL_LIMIT), ..queued },
        Composition::Queue | Composition::QueueTenant | Composition::QueueRateLimited => Layers {
            backpressure: true,
            ..queued
        },
    }
}

/// The deadline a stack's queue sheds at, for the toggle's position. A queue that only ever waits
/// sheds nothing, whatever the toggle says.
pub fn deadline_for(stack: Composition, on: bool) -> (t: Ticks)
    ensures
        t == spec_timeout_for(on && stack != Composition::Wait),
{
    match stack {
        Composition::Wait => timeout_for(false),
        _ => timeout_for(on),
    }
}

/// Whether an OS-CPU controller steers the stack's ceiling: that gate is selected, and the
/// stack has the live handle to steer.
pub fn steered(gate: Option<Gate>, c: Composition) -> (b: bool)
    ensures
        b == (gate == Some(Gate::OsCpu) && c == Composition::QueueOsCpu),
{
    match (gate, c) {
        (Some(Gate::OsCpu), Composition::QueueOsCpu) => true,
        _ => false,
    }
}

/// The layers drawn are the layers running, under every control: the queue and its deadline, the
/// rejection, the ceiling and the backpressure are each drawn exactly where the stack has it.
pub proof fn drawn_is_running(
    stage: PolicyStage,
    gate: Option<Gate>,
    backpressure_on: bool,
    limit: usize,
    timeout: Ticks,
    billing: Option<Billing>,
)
    ensures
        ({
            let layers = spec_layers_for(stage, gate, backpressure_on, limit, timeout, billing);
            let running = spec_composition_for(stage, gate, backpressure_on, billing);
            &&& layers.queue <==> running.queues()
            &&& layers.queue_timeout is Some <==> running.sheds()
            &&& layers.reject <==> running == Composition::Reject
            &&& layers.limit is Some <==> running.limits()
            &&& layers.backpressure <==> running.gates_on_cpu()
        }),
{
}

/// A stage left to its own controls draws its own picture.
pub proof fn a_stage_draws_its_own_picture(stage: PolicyStage, timeout: Ticks)
    ensures
        spec_layers_for(stage, None, true, spec_default_limit(stage), timeout, None)
            == Layers::spec_of(stage, timeout),
{
}

/// The listing shown is the stack that runs, wherever there is one to show and the backpressure
/// it lists has not been switched off.
pub proof fn shown_is_running(stage: PolicyStage, gate: Option<Gate>, backpressure_on: bool)
    requires
        stage is Backpressure ==> backpressure_on,
    ensures
        match crate::compose::spec_src_for(stage, gate) {
            Some(shown) => spec_composition_for(stage, gate, backpressure_on, None) == shown,
            None => spec_composition_for(stage, gate, backpressure_on, None)
                == Composition::Bare,
        },
{
}

/// A queue admits the way that is selected for it: by the runtime's own CPU reading with no ceiling,
/// under the slider's ceiling, or under one the OS reading steers, which opens at the controller's
/// own. Each of them queues, with a deadline. Tenants are admitted by the CPU whatever is selected.
pub proof fn the_gate_selected_is_the_gate_run(
    gate: Option<Gate>,
    backpressure_on: bool,
    limit: usize,
    timeout: Ticks,
    billing: Option<Billing>,
)
    ensures
        ({
            let layers = spec_layers_for(
                PolicyStage::Queue,
                gate,
                backpressure_on,
                limit,
                timeout,
                billing,
            );
            let on_cpu = billing is Some || gate == Some(Gate::RuntimeCpu);
            &&& layers.queue && layers.queue_timeout == Some(timeout) && !layers.reject
            &&& layers.backpressure == on_cpu
            &&& layers.limit == if on_cpu {
                None
            } else if gate == Some(Gate::OsCpu) {
                Some(16usize)
            } else {
                Some(limit)
            }
        }),
{
}

/// Off the queue's stage neither the way in nor the billing is looked at, and only the backpressure
/// stage looks at its switch, which leaves nothing running where it is off.
pub proof fn only_the_queue_looks_at_the_gate(
    stage: PolicyStage,
    gate: Option<Gate>,
    on: bool,
    billing: Option<Billing>,
)
    ensures
        !(stage is Queue) ==> spec_composition_for(stage, gate, on, billing)
            == spec_composition_for(stage, None, on, None),
        !(stage is Backpressure) ==> spec_composition_for(stage, gate, on, billing)
            == spec_composition_for(stage, gate, !on, billing),
        spec_composition_for(PolicyStage::Backpressure, gate, false, billing)
            == spec_composition_for(PolicyStage::App, None, true, None),
        spec_composition_for(PolicyStage::App, gate, on, billing) == Composition::Bare,
        billing is Some && stage is Queue ==> {
            let running = spec_composition_for(stage, gate, on, billing);
            (running == Composition::QueueRateLimited <==> billing == Some(Billing::Limited)) && (
            running == Composition::QueueTenant <==> billing == Some(Billing::Measured))
        },
{
}

/// A stack that protects anything admits one way: it gates on the CPU or it caps what is in
/// flight, and never both; the bare one does neither, and neither queues nor sheds.
pub proof fn a_stack_admits_one_way(c: Composition)
    ensures
        c == Composition::Bare <==> !c.gates_on_cpu() && !c.limits(),
        !(c.gates_on_cpu() && c.limits()),
        c.sheds() ==> c.queues(),
        c.queues() && !c.sheds() <==> c == Composition::Wait,
        !Composition::Bare.queues() && !Composition::Reject.queues()
            && !Composition::Backpressure.queues(),
        Composition::QueueRateLimited.gates_on_cpu() && Composition::QueueTenant.gates_on_cpu()
            && Composition::Queue.gates_on_cpu() && Composition::Backpressure.gates_on_cpu(),
{
}

/// A shed deadline switched on is a tenth of a second, and switched off is one no request of any
/// patience reaches.
pub proof fn the_switch_is_a_deadline_or_none_to_speak_of()
    ensures
        spec_timeout_for(true) == 100_000_000_000,
        spec_timeout_for(false) == 36_000 * spec_timeout_for(true),
{
}

} // verus!
