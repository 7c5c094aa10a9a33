//! The protection compositions: which layers a stage composes, and which listing shows it.

use vstd::prelude::*;

use crate::engine::clock::Ticks;

verus! {

/// The protection a page runs.
#[derive(Clone, Copy, PartialEq, Eq, Structural, Debug)]
pub enum PolicyStage {
    /// The bare application.
    App,
    /// CPU backpressure alone: callers wait for a core, and nothing sheds.
    Backpressure,
    /// A concurrency limit that rejects at its ceiling.
    Reject,
    /// The same limit, and callers wait at its ceiling without a deadline.
    Wait,
    /// A limit behind a queue with a deadline.
    Queue,
}

/// The admission signal a page asks for.
#[derive(Clone, Copy, PartialEq, Eq, Structural, Debug)]
pub enum GateSignal {
    RuntimeCpu,
    ConcurrencyLimit,
    OsCpu,
}

/// The admission-gate signal: how the stack decides whether the server can take more work.
#[derive(Clone, Copy, PartialEq, Eq, Structural, Debug)]
pub enum Gate {
    /// Runtime-level CPU tracking: admit while enough cores sit parked.
    RuntimeCpu,
    /// A fixed in-flight ceiling held for the whole request.
    ConcurrencyLimit,
    /// OS-level CPU utilisation, steering a ceiling.
    OsCpu,
}

impl Default for Gate {
    fn default() -> (g: Gate)
        ensures
            g == Gate::RuntimeCpu,
    {
        Gate::RuntimeCpu
    }
}

impl Gate {
    /// The admission signal a page's signal names.
    pub fn from_signal(signal: GateSignal) -> (g: Gate)
        ensures
            signal is ConcurrencyLimit <==> g is ConcurrencyLimit,
            signal is OsCpu <==> g is OsCpu,
            signal is RuntimeCpu <==> g is RuntimeCpu,
    {
        match signal {
            GateSignal::ConcurrencyLimit => Gate::ConcurrencyLimit,
            GateSignal::OsCpu => Gate::OsCpu,
            GateSignal::RuntimeCpu => Gate::RuntimeCpu,
        }
    }
}

/// The ceiling [`PolicyStage::Reject`] admits before it sheds: one slot per core.
pub const REJECT_LIMIT: usize = 8;

/// The ceiling [`PolicyStage::Queue`] admits behind its queue, sized to the in-flight
/// population the cores can sustain across their IO.
pub const QUEUE_LIMIT: usize = 24;

/// Which protection layers a stage composes. Present means drawn.
#[derive(Clone, Copy, PartialEq, Eq, Structural, Debug)]
pub struct Layers {
    /// CPU backpressure gates admission.
    pub backpressure: bool,
    /// A concurrency limit caps in-flight requests at this ceiling.
    pub limit: Option<usize>,
    /// A rejection layer sheds when the inner service is not ready.
    pub reject: bool,
    /// A request queue: accepted requests, parked awaiting admission.
    pub queue: bool,
    /// The queue's shed deadline. `None` is the unbounded wait.
    pub queue_timeout: Option<Ticks>,
}

/// No layers at all.
pub open spec fn no_layers() -> Layers {
    Layers { backpressure: false, limit: None, reject: false, queue: false, queue_timeout: None }
}

impl Default for Layers {
    fn default() -> (l: Layers)
        ensures
            l == no_layers(),
    {
        Layers {
            backpressure: false,
            limit: None,
            reject: false,
            queue: false,
            queue_timeout: None,
        }
    }
}

impl Layers {
    /// The layer set a stage composes.
    pub open spec fn spec_of(stage: PolicyStage, queue_timeout: Ticks) -> Layers {
        Layers {
            backpressure: stage is Backpressure,
            limit: if stage is Reject || stage is Wait {
                Some(REJECT_LIMIT)
            } else if stage is Queue {
                Some(QUEUE_LIMIT)
            } else {
                None
            },
            reject: stage is Reject,
            queue: stage is Wait || stage is Queue,
            queue_timeout: if stage is Queue {
                Some(queue_timeout)
            } else {
                None
            },
        }
    }

    /// The layer set a stage composes: what the picture draws.
    pub fn of(stage: PolicyStage, queue_timeout: Ticks) -> (layers: Layers)
        ensures
            layers == Layers::spec_of(stage, queue_timeout),
    {
        let bare = Layers::default();
        match stage {
            PolicyStage::App => bare,
            PolicyStage::Backpressure => Layers { backpressure: true, ..bare },
            PolicyStage::Reject => Layers { limit: Some(REJECT_LIMIT), reject: true, ..bare },
            PolicyStage::Wait => Layers { limit: Some(REJECT_LIMIT), queue: true, ..bare },
            PolicyStage::Queue => Layers {
                limit: Some(QUEUE_LIMIT),
                queue: true,
                queue_timeout: Some(queue_timeout),
                ..bare
            },
        }
    }
}

/// Backpressure belongs to one stage, and to no other.
pub proof fn backpressure_is_one_stages_own(stage: PolicyStage, t: Ticks)
    ensures
        Layers::spec_of(stage, t).backpressure <==> stage == PolicyStage::Backpressure,
{
}

/// Waiting and rejecting share a ceiling and give opposite answers at it.
pub proof fn wait_and_reject_differ_at_the_ceiling(t: Ticks)
    ensures
        ({
            let (wait, reject) = (
                Layers::spec_of(PolicyStage::Wait, t),
                Layers::spec_of(PolicyStage::Reject, t),
            );
            &&& wait.limit == reject.limit
            &&& reject.reject && !reject.queue
            &&& wait.queue && !wait.reject
        }),
{
}

/// A deadline is the caller's, and there is one only where there is a queue to wait in.
pub proof fn a_deadline_is_the_callers_and_needs_a_queue(stage: PolicyStage, t: Ticks)
    ensures
        Layers::spec_of(stage, t).queue_timeout is Some ==> Layers::spec_of(stage, t).queue,
        Layers::spec_of(stage, t).queue_timeout matches Some(d) ==> d == t,
        Layers::spec_of(PolicyStage::Wait, t).queue_timeout is None,
        Layers::spec_of(PolicyStage::Queue, t).queue_timeout is Some,
{
}

/// No two stages draw the same picture.
pub proof fn stages_draw_distinct_pictures(a: PolicyStage, b: PolicyStage, t: Ticks)
    requires
        Layers::spec_of(a, t) == Layers::spec_of(b, t),
    ensures
        a == b,
{
}

/// A stack the engine can run.
#[derive(Clone, Copy, PartialEq, Eq, Structural, Debug)]
pub enum Composition {
    /// Nothing around the application.
    Bare,
    /// Readiness is withheld while every core is busy.
    Backpressure,
    /// A limit with rejection above it.
    Reject,
    /// A limit with an unbounded queue above it.
    Wait,
    /// A hand-tuned limit behind a queue with a deadline.
    QueueNaive,
    /// CPU backpressure behind a queue with a deadline.
    Queue,
    /// The same, with tenant accounting between the two.
    QueueTenant,
    /// The same, with the fleet's rate limit in front.
    QueueRateLimited,
    /// A limit an OS-CPU controller steers, behind a queue with a deadline.
    QueueOsCpu,
}

impl Composition {
    /// Whether requests park in a queue of its own.
    pub open spec fn queues(self) -> bool {
        !(self is Bare || self is Backpressure || self is Reject)
    }

    /// Whether CPU backpressure gates admission.
    pub open spec fn gates_on_cpu(self) -> bool {
        self is Backpressure || self is Queue || self is QueueTenant || self is QueueRateLimited
    }

    /// Whether a concurrency limit caps what is in flight.
    pub open spec fn limits(self) -> bool {
        self is Reject || self is Wait || self is QueueNaive || self is QueueOsCpu
    }

    /// Whether its queue sheds what has waited past a deadline.
    pub open spec fn sheds(self) -> bool {
        self.queues() && !(self is Wait)
    }

    /// Whether a worker has to be driven for the stack to serve.
    pub fn has_worker(self) -> (b: bool)
        ensures
            b == self.queues(),
    {
        match self {
            Composition::Bare | Composition::Backpressure | Composition::Reject => false,
            _ => true,
        }
    }
}

/// The listing a page shows for its stage and gate.
pub open spec fn spec_src_for(stage: PolicyStage, gate: Option<Gate>) -> Option<Composition> {
    match stage {
        PolicyStage::App => None,
        PolicyStage::Backpressure => Some(Composition::Backpressure),
        PolicyStage::Reject => Some(Composition::Reject),
        PolicyStage::Wait => Some(Composition::Wait),
        PolicyStage::Queue => Some(
            if gate == Some(Gate::RuntimeCpu) {
                Composition::Queue
            } else if gate == Some(Gate::OsCpu) {
                Composition::QueueOsCpu
            } else {
                Composition::QueueNaive
            },
        ),
    }
}

/// The composition whose source a page shows for its stage and gate. The bare stage composes
/// nothing, so it has nothing to show.
pub fn src_for(stage: PolicyStage, gate: Option<Gate>) -> (shown: Option<Composition>)
    ensures
        shown == spec_src_for(stage, gate),
{
    match (stage, gate) {
        (PolicyStage::App, _) => None,
        (PolicyStage::Backpressure, _) => Some(Composition::Backpressure),
        (PolicyStage::Reject, _) => Some(Composition::Reject),
        (PolicyStage::Wait, _) => Some(Composition::Wait),
        (PolicyStage::Queue, Some(Gate::RuntimeCpu)) => Some(Composition::Queue),
        (PolicyStage::Queue, Some(Gate::OsCpu)) => Some(Composition::QueueOsCpu),
        (PolicyStage::Queue, _) => Some(Composition::QueueNaive),
    }
}

/// A listing is shown for every stage that composes anything, and it composes what the stage does:
/// it queues where the stage does, and sheds where the stage's queue has a deadline.
pub proof fn a_listing_composes_its_stage(stage: PolicyStage, gate: Option<Gate>, t: Ticks)
    ensures
        spec_src_for(stage, gate) is None <==> stage == PolicyStage::App,
        spec_src_for(stage, gate) matches Some(c) ==> {
            let layers = Layers::spec_of(stage, t);
            &&& c.queues() == layers.queue
            &&& c.sheds() == layers.queue_timeout is Some
            &&& c == Composition::Reject <==> layers.reject
            &&& stage is Queue ==> (c == Composition::Queue <==> gate == Some(Gate::RuntimeCpu))
            &&& stage is Queue ==> (c == Composition::QueueOsCpu <==> gate == Some(Gate::OsCpu))
            &&& !(stage is Queue) ==> c.limits() == layers.limit is Some && c.gates_on_cpu()
                == layers.backpressure
        },
{
}

/// The ceilings: eight where what is over it is refused or waits, and three times that in front of a
/// queue with a deadline.
pub proof fn a_queue_is_let_run_deeper(t: Ticks)
    ensures
        Layers::spec_of(PolicyStage::Reject, t).limit == Some(8usize),
        Layers::spec_of(PolicyStage::Wait, t).limit == Some(8usize),
        Layers::spec_of(PolicyStage::Queue, t).limit == Some(24usize),
        Layers::spec_of(PolicyStage::App, t).limit is None && Layers::spec_of(
            PolicyStage::Backpressure,
            t,
        ).limit is None,
        Layers::spec_of(PolicyStage::App, t) == no_layers(),
{
}

} // verus!
