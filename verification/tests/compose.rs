use blog_app::compose::{src_for, Composition, Gate, GateSignal, Layers, PolicyStage};
use blog_app::engine::cores::Cores;
use blog_app::engine::stack::{
    composition_for, deadline_for, default_limit, layers_for, steered, timeout_for, Billing, CORES,
};
use blog_app::engine::{Ticks, MS};

const T: Ticks = 100 * MS;

fn stages() -> [PolicyStage; 5] {
    let all = [
        PolicyStage::App,
        PolicyStage::Backpressure,
        PolicyStage::Reject,
        PolicyStage::Wait,
        PolicyStage::Queue,
    ];
    // A new variant makes this match non-exhaustive, so the list cannot fall behind the enum
    // and quietly shrink what the tests below range over.
    all.map(|stage| match stage {
        PolicyStage::App
        | PolicyStage::Backpressure
        | PolicyStage::Reject
        | PolicyStage::Wait
        | PolicyStage::Queue => stage,
    })
}

/// Gating is its own chapter, and the stage the book reaches first must not have arrived
/// there already: `Queue` is the naive ceiling, tuned by hand. Backpressure is composed onto a
/// manifest afterwards, so no stage may bring it along.
#[test]
fn backpressure_belongs_to_exactly_one_stage() {
    let carried: Vec<PolicyStage> = stages()
        .into_iter()
        .filter(|&s| Layers::of(s, T).backpressure)
        .collect();
    assert_eq!(carried, [PolicyStage::Backpressure]);
}

/// The comparison those two pages are built on: the same ceiling, opposite answers at it.
#[test]
fn wait_and_reject_differ_only_in_what_reaching_the_ceiling_does() {
    let (wait, reject) = (
        Layers::of(PolicyStage::Wait, T),
        Layers::of(PolicyStage::Reject, T),
    );
    assert_eq!(wait.limit, reject.limit);
    assert!(reject.reject && !reject.queue, "reaching it sheds");
    assert!(wait.queue && !wait.reject, "reaching it waits");
}

/// A deadline is what separates the two waits, it is meaningless without something to wait in,
/// and it is the caller's.
#[test]
fn the_deadline_is_the_callers_and_belongs_to_a_queue() {
    for stage in stages() {
        let layers = Layers::of(stage, T);
        assert!(
            layers.queue_timeout.is_none() || layers.queue,
            "{stage:?} times out nothing"
        );
    }
    assert!(
        Layers::of(PolicyStage::Wait, T).queue_timeout.is_none(),
        "the unbounded wait"
    );
    assert!(
        Layers::of(PolicyStage::Queue, T).queue_timeout.is_some(),
        "the deadline that ends it"
    );
    assert_ne!(
        Layers::of(PolicyStage::Queue, T).queue_timeout,
        Layers::of(PolicyStage::Queue, T * 2).queue_timeout
    );
}

/// Two stages sharing a manifest are one picture, and the reader would be looking at a
/// composition other than the one the page names.
#[test]
fn each_stage_draws_a_distinct_picture() {
    for (i, a) in stages().into_iter().enumerate() {
        for b in stages().into_iter().skip(i + 1) {
            assert_ne!(
                Layers::of(a, T),
                Layers::of(b, T),
                "{a:?} and {b:?} draw the same picture"
            );
        }
    }
}

#[test]
fn a_queue_without_a_deadline_is_drawn_without_one() {
    let drawn = layers_for(PolicyStage::Queue, None, true, 24, T * 2, None);
    assert!(drawn.queue);
    assert_eq!(drawn.queue_timeout, Some(T * 2));
    let waiting = layers_for(PolicyStage::Wait, None, true, 9, T, None);
    assert!(waiting.queue && waiting.queue_timeout.is_none());
    assert_eq!(waiting.limit, Some(9));
    assert_eq!(timeout_for(true), 100 * MS);
    assert!(timeout_for(false) > timeout_for(true));
    assert_eq!(deadline_for(Composition::QueueNaive, true), timeout_for(true));
    assert_eq!(deadline_for(Composition::QueueNaive, false), timeout_for(false));
    assert_eq!(deadline_for(Composition::Wait, true), timeout_for(false));
}

/// The picture is of the stack that runs, however the controls stand.
#[test]
fn the_layers_drawn_are_the_layers_running() {
    for stage in stages() {
        assert_eq!(
            layers_for(stage, None, true, default_limit(stage), T, None),
            Layers::of(stage, T),
            "left to itself, a stage draws its own picture"
        );
    }
    let cpu = Some(Gate::RuntimeCpu);
    let off = layers_for(PolicyStage::Queue, cpu, false, 24, T, None);
    assert!(off.backpressure, "a queue gated on the CPU runs its gate, switch or no switch");
    assert!(off.limit.is_none());
    let bare = layers_for(PolicyStage::App, cpu, true, 24, T, None);
    assert_eq!(bare, Layers::default(), "a bare stage composes nothing, whatever is selected");
    let steered = layers_for(PolicyStage::Queue, Some(Gate::OsCpu), true, 24, T, None);
    assert_eq!(steered.limit, Some(16));
    let billed = layers_for(PolicyStage::Queue, None, true, 24, T, Some(Billing::Measured));
    assert!(billed.backpressure && billed.limit.is_none());
}

#[test]
fn each_stage_runs_its_own_composition() {
    let run = |stage, gate| composition_for(stage, gate, true, None);
    assert_eq!(run(PolicyStage::App, None), Composition::Bare);
    assert_eq!(run(PolicyStage::Backpressure, None), Composition::Backpressure);
    assert_eq!(run(PolicyStage::Reject, None), Composition::Reject);
    assert_eq!(run(PolicyStage::Wait, None), Composition::Wait);
    let os = run(PolicyStage::Queue, Some(Gate::OsCpu));
    assert_eq!(os, Composition::QueueOsCpu);
    assert!(steered(Some(Gate::OsCpu), os));
    assert!(!steered(Some(Gate::RuntimeCpu), run(PolicyStage::Queue, Some(Gate::RuntimeCpu))));
    assert!(os.has_worker() && !Composition::Bare.has_worker());
    assert_eq!(
        composition_for(
            PolicyStage::Queue,
            Some(Gate::RuntimeCpu),
            true,
            Some(Billing::Measured)
        ),
        Composition::QueueTenant
    );
    assert_eq!(
        composition_for(
            PolicyStage::Queue,
            Some(Gate::RuntimeCpu),
            true,
            Some(Billing::Limited)
        ),
        Composition::QueueRateLimited
    );
}

#[test]
fn the_listing_shown_is_the_stack_that_runs() {
    assert_eq!(src_for(PolicyStage::App, None), None);
    for stage in stages() {
        for gate in [
            None,
            Some(Gate::RuntimeCpu),
            Some(Gate::ConcurrencyLimit),
            Some(Gate::OsCpu),
        ] {
            let running = composition_for(stage, gate, true, None);
            assert_eq!(src_for(stage, gate).unwrap_or(Composition::Bare), running);
        }
    }
}

#[test]
fn a_signal_names_its_gate() {
    assert_eq!(Gate::default(), Gate::RuntimeCpu);
    assert_eq!(Gate::from_signal(GateSignal::OsCpu), Gate::OsCpu);
    assert_eq!(
        Gate::from_signal(GateSignal::ConcurrencyLimit),
        Gate::ConcurrencyLimit
    );
}

#[test]
fn a_stage_opens_at_its_own_limit() {
    assert_eq!(default_limit(PolicyStage::Reject), 8);
    assert_eq!(default_limit(PolicyStage::Queue), 24);
}

/// The capacity lives in the semaphore the admission reads, so it is read back from there.
#[test]
fn capacity_opens_at_the_cores_less_the_reserve() {
    let spare = Cores::new(3).into_idle();
    assert_eq!((spare.available(), spare.debt()), (CORES - 3, 0));
    let level = Cores::new(CORES as i64).into_idle();
    assert_eq!((level.available(), level.debt()), (0, 0));
    let owing = Cores::new(CORES as i64 + 2).into_idle();
    assert_eq!((owing.available(), owing.debt()), (0, 2));
    let generous = Cores::new(-4).into_idle();
    assert_eq!((generous.available(), generous.debt()), (CORES + 4, 0));
}
