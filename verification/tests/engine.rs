use std::collections::{HashMap, HashSet, VecDeque};
use std::convert::Infallible;
use std::future::{poll_fn, Future};
use std::pin::Pin;
use std::sync::{Arc, Mutex};
use std::task::{Context, Poll};
use std::time::Duration;

use taipei::backpressure::{CpuBackpressureLayer, RuntimeInstrumentation};
use taipei::cpu_concurrency::{Config, CpuConcurrencyController};
use taipei::debt::DebtSemaphore;
use taipei::limit::{ConcurrencyLimit, DynamicConcurrencyLimitLayer};
use taipei::queue::{QueueError, QueueLayer};
use taipei::reject::{RejectError, RejectionLayer};
use taipei::tenant::{Report, Tenant, TenantReporter};
use tokio::runtime::{Handle, Runtime};
use tokio::sync::{Notify, OwnedSemaphorePermit, Semaphore};
use tokio::time::{sleep, sleep_until, Instant};
use tower::util::BoxCloneService;
use tower::{Layer, Service, ServiceExt};

use blog_app::compose::{Composition, Gate, PolicyStage};
use blog_app::engine::client::{Ask, Client, Event, NetLegs};
use blog_app::engine::clock::{NET_MS, OS_CPU_WINDOW_MS};
use blog_app::engine::cores::Cores;
use blog_app::engine::frame::{Act, Frame, Heard};
use blog_app::engine::handler::{Handler, Need, Turn};
use blog_app::engine::ledger::Ledger;
use blog_app::engine::machine::{Accounts, Metered, SimEngine, ENGINE_SEED};
use blog_app::engine::outcome::{LayerFault, QueueFault, Refusal};
use blog_app::engine::request::{Behavior, SimReq, TENANT_COUNT};
use blog_app::engine::rng::UNIT;
use blog_app::engine::stack::{
    composition_for, timeout_for, Billing, ADMISSION_LIMIT, CORES, OS_CPU_INITIAL_LIMIT,
};
use blog_app::engine::{Ticks, MS};
use blog_app::hotswap::{HotSwap, HotSwapHandle};
use blog_app::cluster::{Cluster, SERVERS};
use blog_app::engine::clock::{HANDSHAKE_MS, RTT_MS, TIMEOUT_MS};
use blog_app::engine::readers::{core_ink_of, on_the_wire, queues_by_tenant};
use blog_app::engine::request::{
    cpu_cost_ms, make_phases, tenants, work_for_cpu_cost, Phase, EQUAL_WEIGHT, SOLO, WHOLE_WEIGHT,
};
use blog_app::engine::rng::Rng;
use blog_app::engine::sim::{ServerCounts, Station, Stats};
use blog_app::atoms::wires::marks;
use blog_app::blame::controls::{Record, Traffic};
use blog_app::blame::frame::{Fine, LEAST_BAND, PLOT, TRACK};
use blog_app::blame::desk::Desk;
use blog_app::blame::panel::Panel;
use blog_app::blame::seats::LANES;
use blog_app::blame::styles::cell_style;
use blog_app::engine::{Outcome, Part, HOMEWARD};

/// A span of virtual time as the runtime counts it: a tick is one of its nanoseconds, so a virtual
/// millisecond is one of its seconds and the whole milliseconds its timers round up to are virtual
/// microseconds.
fn span(d: Ticks) -> Duration {
    Duration::from_nanos(d)
}

/// A span of the runtime's time in ticks.
fn ticks(d: Duration) -> Ticks {
    Ticks::try_from(d.as_nanos()).expect("a span the clock can count")
}

/// Where virtual time is measured from.
#[derive(Clone)]
struct Epoch {
    start: Instant,
    rt: Handle,
}

impl Epoch {
    fn now(&self) -> Ticks {
        let _rt = self.rt.enter();
        ticks(Instant::now() - self.start)
    }

    fn at(&self, t: Ticks) -> Instant {
        self.start + span(t)
    }
}

/// What the runtime's park hook and the pump share. The runtime parks only once nothing is
/// runnable, and a paused clock moves only inside that park — so a park is the world settled at
/// the instant it stands on.
struct Settling {
    settled: Notify,
    marks: Mutex<Marks>,
}

#[derive(Default)]
struct Marks {
    reported: Option<Instant>,
    end: Option<Instant>,
}

impl Settling {
    /// Report a settle at an instant not yet reported, or at the frame's end, and otherwise let
    /// the clock move on to the next sleeper.
    fn park(&self) {
        let now = Instant::now();
        let mut marks = self.marks.lock().unwrap();
        if marks.end.is_some_and(|end| now >= end) || marks.reported != Some(now) {
            marks.reported = Some(now);
            self.settled.notify_one();
        }
    }
}

/// The virtual world every server and client shares: one runtime whose clock is paused, so time
/// moves only when nothing is left to run.
struct World {
    rt: Runtime,
    epoch: Epoch,
    settling: Arc<Settling>,
}

impl World {
    fn new() -> World {
        let settling = Arc::new(Settling {
            settled: Notify::new(),
            marks: Mutex::default(),
        });
        let hook = settling.clone();
        let rt = tokio::runtime::Builder::new_current_thread()
            .enable_time()
            .start_paused(true)
            .on_thread_park(move || hook.park())
            .build()
            .expect("a current-thread runtime");
        let start = {
            let _rt = rt.enter();
            Instant::now()
        };
        let epoch = Epoch {
            start,
            rt: rt.handle().clone(),
        };
        World {
            rt,
            epoch,
            settling,
        }
    }

    /// Run the world to `t_end`, calling `sample` each time it settles.
    fn pump(&self, t_end: Ticks, mut sample: impl FnMut(Ticks)) {
        let _rt = self.rt.enter();
        let end = self.epoch.at(t_end);
        self.settling.marks.lock().unwrap().end = Some(end);
        let mut edge = Box::pin(sleep_until(end));
        loop {
            let mut settled = Box::pin(self.settling.settled.notified());
            self.rt.block_on(poll_fn(|cx| {
                // Polled only so the clock stops on the frame's end; reaching it is not a settle.
                let _ = edge.as_mut().poll(cx);
                settled.as_mut().poll(cx)
            }));
            sample(self.epoch.now());
            if Instant::now() >= end {
                break;
            }
        }
    }
}

/// The cores, doubling as the instrumentation the backpressure layer reads.
#[derive(Clone)]
struct Machine {
    cores: Arc<Semaphore>,
    idle: Arc<DebtSemaphore>,
}

impl Machine {
    fn new(reserve: i64) -> Machine {
        Machine {
            cores: Arc::new(Semaphore::new(CORES)),
            idle: Arc::new(Cores::new(reserve).into_idle()),
        }
    }

    fn instrumentation(&self) -> RuntimeInstrumentation {
        RuntimeInstrumentation::new(self.idle.clone())
    }

    async fn acquire(&self) -> Core {
        let permit = self.cores.clone().acquire_owned().await.expect("cores open");
        self.idle.acquire();
        Core {
            _permit: permit,
            idle: self.idle.clone(),
        }
    }
}

/// An occupied core. Dropping it parks the worker, which is what reopens admission.
struct Core {
    _permit: OwnedSemaphorePermit,
    idle: Arc<DebtSemaphore>,
}

impl Drop for Core {
    fn drop(&mut self) {
        self.idle.release();
    }
}

type Shared = Arc<Mutex<SimEngine>>;

/// A request as the stack carries it.
struct Job(SimReq);

impl Tenant for Job {
    fn tenant(&self) -> &str {
        self.0.tenant
    }
}

/// The leaf service, which walks a request's phases.
#[derive(Clone)]
struct App {
    engine: Shared,
    epoch: Epoch,
    machine: Machine,
    accept_in_phases: bool,
}

/// A request's place among the occupiers, released when its response future ends.
struct Occupancy {
    engine: Shared,
    id: u32,
}

impl Drop for Occupancy {
    // A cancelled request drops this mid-unwind, so it must not panic.
    fn drop(&mut self) {
        if let Ok(mut e) = self.engine.lock() {
            e.sim.vacate(self.id);
        }
    }
}

impl Service<Job> for App {
    type Response = ();
    type Error = Infallible;
    type Future = Pin<Box<dyn Future<Output = Result<(), Infallible>> + Send>>;

    fn poll_ready(&mut self, _: &mut Context<'_>) -> Poll<Result<(), Infallible>> {
        Poll::Ready(Ok(()))
    }

    fn call(&mut self, job: Job) -> Self::Future {
        let app = self.clone();
        let id = job.0.id;
        app.engine
            .lock()
            .unwrap()
            .sim
            .take_in(id, app.accept_in_phases, app.epoch.now());
        let occupancy = Occupancy {
            engine: app.engine.clone(),
            id,
        };
        Box::pin(async move {
            let _occupancy = occupancy;
            let mut handler = Handler::new(id, job.0.phases, app.accept_in_phases);
            let mut turn = Turn::Begin;
            let mut held: Option<Core> = None;
            loop {
                let need = {
                    let mut e = app.engine.lock().unwrap();
                    let now = app.epoch.now();
                    handler.turn(&mut e.sim, turn, now)
                };
                turn = match need {
                    Need::Core { release } => {
                        if release {
                            held = None;
                        }
                        held = Some(app.machine.acquire().await);
                        Turn::Core
                    }
                    Need::Sleep { release, span: d } => {
                        if release {
                            held = None;
                        }
                        sleep(span(d)).await;
                        Turn::Woke
                    }
                    Need::Finished { .. } => {
                        drop(held);
                        return Ok(());
                    }
                    Need::Nothing => unreachable!("every need is met with the turn it asked for"),
                };
            }
        })
    }
}

type Svc = BoxCloneService<Job, (), Refusal>;

type Worker = Pin<Box<dyn Future<Output = ()> + Send>>;

fn queue_refusal(e: QueueError) -> Refusal {
    Refusal::of_queue(match e {
        QueueError::Timeout { .. } => QueueFault::Timeout,
        _ => QueueFault::Lost,
    })
}

/// Where a finished request's fare is banked.
#[derive(Clone)]
struct Sink(Arc<Mutex<Ledger>>);

impl Report for Sink {
    fn report(&self, tenant: &str, blame: Duration) {
        self.0.lock().unwrap().bank(tenant, ticks(blame));
    }
}

/// The stack a composition names, the worker it needs driven, and the handle a controller
/// steers.
fn build(
    stack: Composition,
    app: App,
    limit: usize,
    timeout: Ticks,
    reporter: Option<&TenantReporter<Sink>>,
) -> (Svc, Option<Worker>, Option<ConcurrencyLimit>) {
    let instr = app.machine.instrumentation();
    let rt = app.epoch.rt.clone();
    let queue = QueueLayer::with_custom_queue_timeout(span(timeout));
    let limited = DynamicConcurrencyLimitLayer::new(limit);
    let cpu = CpuBackpressureLayer::new(&instr);
    match stack {
        Composition::Bare => (BoxCloneService::new(app.map_err(|e: Infallible| match e {})), None, None),
        Composition::Backpressure => (
            BoxCloneService::new(cpu.layer(app).map_err(|e: Infallible| match e {})),
            None,
            None,
        ),
        Composition::Reject => {
            let svc = RejectionLayer::new().layer(limited.layer(app));
            let front = svc.map_err(|e| {
                Refusal::of_reject(match e {
                    RejectError::Overloaded => LayerFault::Turned,
                    RejectError::Inner(never) => match never {},
                })
            });
            (BoxCloneService::new(front), None, None)
        }
        Composition::Wait | Composition::QueueNaive => {
            let (svc, worker) = queue.build(limited.layer(app), rt);
            (
                BoxCloneService::new(svc.map_err(queue_refusal)),
                Some(Box::pin(worker.serve())),
                None,
            )
        }
        Composition::Queue => {
            let (svc, worker) = queue.build(cpu.layer(app), rt);
            (
                BoxCloneService::new(svc.map_err(queue_refusal)),
                Some(Box::pin(worker.serve())),
                None,
            )
        }
        Composition::QueueTenant | Composition::QueueRateLimited => {
            let reporter = reporter.expect("a tenanted stack bills through a reporter");
            let (svc, worker) = queue.build(reporter.layer(cpu.layer(app)), rt);
            (
                BoxCloneService::new(svc.map_err(queue_refusal)),
                Some(Box::pin(worker.serve())),
                None,
            )
        }
        Composition::QueueOsCpu => {
            let handle = ConcurrencyLimit::new(OS_CPU_INITIAL_LIMIT);
            let layer = DynamicConcurrencyLimitLayer::from_handle(handle.clone());
            let (svc, worker) = queue.build(layer.layer(app), rt);
            (
                BoxCloneService::new(svc.map_err(queue_refusal)),
                Some(Box::pin(worker.serve())),
                Some(handle),
            )
        }
    }
}

/// What has been loaded behind the stable front.
struct Loaded {
    handle: HotSwapHandle<usize>,
    stacks: Vec<Svc>,
}

/// The stable front every client holds, over whichever stack is loaded.
struct Front {
    swap: HotSwap<usize>,
    loaded: Arc<Mutex<Loaded>>,
    held: Option<(usize, Svc)>,
}

impl Clone for Front {
    fn clone(&self) -> Front {
        Front {
            swap: self.swap.another(),
            loaded: self.loaded.clone(),
            held: None,
        }
    }
}

impl Service<Job> for Front {
    type Response = ();
    type Error = Refusal;
    type Future = Pin<Box<dyn Future<Output = Result<(), Refusal>> + Send>>;

    fn poll_ready(&mut self, cx: &mut Context<'_>) -> Poll<Result<(), Refusal>> {
        let loaded = self.loaded.lock().unwrap();
        let at = self.swap.ready(&loaded.handle);
        if self.held.as_ref().map(|(k, _)| *k) != Some(at) {
            self.held = Some((at, loaded.stacks[at].clone()));
        }
        drop(loaded);
        let (_, svc) = self.held.as_mut().expect("a stack was just adopted");
        svc.poll_ready(cx)
    }

    fn call(&mut self, job: Job) -> Self::Future {
        let (at, svc) = self.held.as_mut().expect("poll_ready before call");
        assert_eq!(*at, self.swap.call());
        svc.call(job)
    }
}

/// The gap before a stream's next send: exponential, by a draw in `0..UNIT`, at a rate per
/// thousand seconds.
fn gap(draw: u64, rate: u64) -> Ticks {
    let u = (draw as f64 / UNIT as f64).max(1e-12);
    let ms = -u.ln() / (rate as f64 / 1_000_000.0);
    (ms * MS as f64) as Ticks
}

/// One engine and the runtime it is driven by.
struct Rig {
    world: World,
    engine: Shared,
    machine: Machine,
    front: Front,
    concurrency: Option<ConcurrencyLimit>,
    steering: Option<CpuConcurrencyController>,
    reporter: Option<TenantReporter<Sink>>,
    fares: Arc<Mutex<Ledger>>,
}

impl Rig {
    fn of(engine: SimEngine) -> Rig {
        let world = World::new();
        let machine = Machine::new(ADMISSION_LIMIT as i64);
        let fares = Arc::new(Mutex::new(Ledger::default()));
        let reporter = engine.billing.map(|_| {
            let _rt = world.rt.enter();
            TenantReporter::builder()
                .report(Sink(fares.clone()))
                .build()
        });
        let stack = composition_for(
            engine.stage,
            engine.selected_gate(),
            engine.backpressure,
            engine.billing,
        );
        let engine: Shared = Arc::new(Mutex::new(engine));
        let (swap, handle) = HotSwap::new(0);
        let front = Front {
            swap,
            loaded: Arc::new(Mutex::new(Loaded {
                handle,
                stacks: Vec::new(),
            })),
            held: None,
        };
        let mut rig = Rig {
            world,
            engine,
            machine,
            front,
            concurrency: None,
            steering: None,
            reporter,
            fares,
        };
        rig.assemble(stack);
        rig.open_streams();
        rig
    }

    fn new(
        qps: f64,
        stage: PolicyStage,
        gate: Option<Gate>,
        cpu_only: bool,
        behavior: Behavior,
    ) -> Rig {
        Rig::of(SimEngine::new(
            (qps * 1000.0) as u64,
            stage,
            gate,
            cpu_only,
            behavior,
        ))
    }

    fn tenanted() -> Rig {
        Rig::of(SimEngine::tenanted(ENGINE_SEED, Billing::Measured))
    }

    /// Every stream's first gap.
    fn open_streams(&self) {
        let mut guard = self.engine.lock().unwrap();
        let e = &mut *guard;
        let now = self.world.epoch.now();
        let (draw, rate) = (e.draw(), e.arrivals.rate);
        if rate > 0 {
            e.release(now, gap(draw, rate));
        }
        if let Some(mix) = e.tenants.as_mut() {
            for k in 0..TENANT_COUNT {
                let (draw, rate) = (mix.draw(), mix.streams[k].clock.rate);
                if rate > 0 {
                    mix.release(k, now, gap(draw, rate));
                }
            }
        }
    }

    /// Build the stack a control asked for and load it behind the front.
    fn assemble(&mut self, stack: Composition) {
        let (accept_in_phases, limit, on, gate) = {
            let e = self.engine.lock().unwrap();
            (
                !e.obs.layers.queue,
                e.concurrency_limit,
                e.queue_timeout_on,
                e.selected_gate(),
            )
        };
        // A wait behind no deadline is one too long for anything to reach.
        let timeout = timeout_for(on && stack != Composition::Wait);
        let app = App {
            engine: self.engine.clone(),
            epoch: self.world.epoch.clone(),
            machine: self.machine.clone(),
            accept_in_phases,
        };
        let (svc, worker, concurrency) = build(stack, app, limit, timeout, self.reporter.as_ref());
        if let Some(worker) = worker {
            self.world.rt.spawn(worker);
        }
        let mut loaded = self.front.loaded.lock().unwrap();
        loaded.stacks.push(svc);
        let last = loaded.stacks.len() - 1;
        loaded.handle.load(last);
        drop(loaded);
        self.steering = concurrency
            .clone()
            .filter(|_| gate == Some(Gate::OsCpu))
            .map(|limit| {
                CpuConcurrencyController::new(
                    limit,
                    Config {
                        cpu_target: 0.75,
                        min_limit: 1,
                        max_limit: 1 << 20,
                        ..Config::default()
                    },
                )
            });
        self.concurrency = concurrency;
    }

    fn control(&mut self, change: impl FnOnce(&mut SimEngine, Ticks) -> Composition) {
        let now = self.world.epoch.now();
        let stack = change(&mut self.engine.lock().unwrap(), now);
        self.assemble(stack);
    }

    fn spawn(&self, req: SimReq) {
        let engine = self.engine.clone();
        let epoch = self.world.epoch.clone();
        let machine = self.machine.clone();
        let mut front = self.front.clone();
        let (behavior, queued) = {
            let e = engine.lock().unwrap();
            (e.behavior, e.obs.layers.queue)
        };
        self.world.rt.spawn(async move {
            let net = NetLegs {
                inbound: NET_MS * MS,
                outbound: NET_MS * MS,
            };
            let mut client = Client::new(req.id, req.enq_t, net, behavior, queued);
            let mut job = Some(Job(req));
            let mut held: Option<Core> = None;
            let mut event = Event::Begin;
            loop {
                let ask = {
                    let mut e = engine.lock().unwrap();
                    let now = epoch.now();
                    client.step(&mut e.sim, event, now)
                };
                event = match ask {
                    Ask::Until(t) => {
                        sleep_until(epoch.at(t)).await;
                        Event::Woke
                    }
                    Ask::Sleep(d) => {
                        sleep(span(d)).await;
                        Event::Woke
                    }
                    Ask::Core => {
                        held = Some(machine.acquire().await);
                        Event::Core
                    }
                    Ask::CoreBefore(t) => {
                        let mut core = Box::pin(machine.acquire());
                        let mut late = Box::pin(sleep_until(epoch.at(t)));
                        let won = poll_fn(|cx| match core.as_mut().poll(cx) {
                            Poll::Ready(core) => Poll::Ready(Some(core)),
                            Poll::Pending => late.as_mut().poll(cx).map(|_| None),
                        })
                        .await;
                        match won {
                            Some(core) => {
                                held = Some(core);
                                Event::Core
                            }
                            None => Event::GaveUp,
                        }
                    }
                    Ask::Call { release } => {
                        if release {
                            held = None;
                        }
                        let job = job.take().expect("a request is called once");
                        match front.ready().await {
                            Err(_) => Event::Unready,
                            Ok(svc) => match svc.call(job).await {
                                Ok(()) => Event::Served,
                                Err(refusal) => Event::Refused(refusal),
                            },
                        }
                    }
                    Ask::Finished(_) => break,
                    Ask::Nothing => unreachable!("every ask is met with the event it waits for"),
                };
            }
            drop(held);
        });
    }

    /// Run a frame of `wall` microseconds of the reader's time.
    fn tick(&mut self, wall: u64) {
        let now = self.world.epoch.now();
        let frame = self.engine.lock().unwrap().frame(now, wall);
        self.run(frame);
    }

    fn run_to(&mut self, t_end: Ticks) {
        self.run(Frame::to(t_end));
    }

    fn tell(engine: &Shared, frame: Frame, heard: Heard) -> (Frame, Act) {
        let mut e = engine.lock().unwrap();
        assert!(e.can_hear(&frame, heard));
        e.tick(frame, heard)
    }

    fn run(&mut self, mut frame: Frame) {
        let mut heard = Heard::Begin;
        let t_end = loop {
            let act;
            (frame, act) = Rig::tell(&self.engine, frame, heard);
            match act {
                Act::Send { req, draw, rate } => {
                    self.spawn(req);
                    heard = Heard::Gap {
                        gap: gap(draw, rate),
                    };
                }
                Act::Run { t_end } => break t_end,
                _ => unreachable!("a frame sends until it runs"),
            }
        };
        let (engine, reporter) = (self.engine.clone(), self.reporter.clone());
        let steering = &mut self.steering;
        let mut running = Some(frame);
        self.world.pump(t_end, |now| {
            let metered = reporter.as_ref().map(|r| {
                r.settle();
                Metered {
                    meter: ticks(r.meter()),
                    shut: r.shut(),
                }
            });
            let frame = running.take().expect("a frame is told one thing at a time");
            let (frame, act) = Rig::tell(&engine, frame, Heard::Settled { now, metered });
            running = Some(frame);
            if let (Act::Look { busy: Some(busy) }, Some(controller)) = (act, steering.as_mut()) {
                controller.observe(busy as f64 / (OS_CPU_WINDOW_MS * MS * CORES as u64) as f64);
            }
        });
        let accounts = self.reporter.as_ref().map(|r| Accounts {
            meter: ticks(r.meter()),
            accumulated: ticks(r.accumulated()),
            attributed: ticks(r.attributed()),
            unattributed: ticks(r.unattributed()),
            shut_now: r.shut(),
            inflight: r.inflight(),
        });
        let pct = self
            .steering
            .as_ref()
            .map(|c| (c.load() * 100.0).round() as u32);
        let ceiling = self.concurrency.as_ref().map(|c| c.get());
        let now = self.world.epoch.now();
        for (tenant, fare) in self.fares.lock().unwrap().drain() {
            self.engine.lock().unwrap().ledger.bank(tenant, fare);
        }
        let frame = running.take().expect("a frame runs until it is over");
        let over = Heard::Over {
            now,
            accounts,
            pct,
            ceiling,
        };
        let (frame, act) = Rig::tell(&self.engine, frame, over);
        assert!(matches!((frame, act), (Frame::Closed, Act::Done)));
    }

    /// Read the engine.
    fn read<T>(&self, read: impl FnOnce(&SimEngine) -> T) -> T {
        read(&self.engine.lock().unwrap())
    }

    fn set_tenant_qps(&self, tenant: &str, rate: u64) {
        let now = self.world.epoch.now();
        let mut e = self.engine.lock().unwrap();
        if let Some(k) = e.set_tenant_qps(tenant, rate) {
            let mix = e.tenants.as_mut().expect("a tenanted engine");
            let draw = mix.draw();
            mix.release(k, now, gap(draw, rate));
        }
    }

    fn inject(&self) {
        let now = self.world.epoch.now();
        let req = self.engine.lock().unwrap().inject(now);
        self.spawn(req);
    }
}

/// Run the engine for a span of **virtual** time. Speed is a display knob — how much virtual
/// time one real frame buys — so a test that asserts on the model pins it and says how long it
/// wants the world to run.
fn drive(rig: &mut Rig, virtual_ms: f64) {
    rig.engine.lock().unwrap().set_speed(REAL);
    for _ in 0..(virtual_ms / 16.0).ceil() as u32 {
        rig.tick(16_000);
    }
}

const REAL: u64 = 1_000_000;

fn stats(rig: &Rig) -> Stats {
    rig.read(|e| e.obs.stats)
}

fn in_flight(rig: &Rig) -> usize {
    rig.read(|e| e.obs.busy() + e.obs.io_sleeping + e.obs.ready.len())
}

/// The overload contrast the visualiser teaches, driven natively against the real stack.
#[test]
fn overload_behaviour_across_stages() {
    // Queue stage at a sustainable rate: nothing sheds.
    let mut calm = Rig::new(75.0, PolicyStage::Queue, None, false, Behavior::Good);
    drive(&mut calm, 1440.0);
    let s = stats(&calm);
    assert!(s.arrived > 0, "arrivals flow");
    assert_eq!(s.queue_timeout, 0, "75 qps keeps up: no queue timeouts");
    assert!(s.success > 0, "sustainable load succeeds");
    // Latency is client-perceived: it spans both network legs, so even the fastest reply cannot
    // beat the inbound + outbound travel time.
    let last = calm.read(|e| e.obs.last_latency);
    assert!(
        last.unwrap_or(0) >= RTT_MS * MS,
        "round-trip latency includes both network legs: {last:?}"
    );

    // Queue stage overloaded: the real queue deadline sheds work.
    let mut hot = Rig::new(300.0, PolicyStage::Queue, None, false, Behavior::Good);
    drive(&mut hot, 2880.0);
    let shed = stats(&hot).queue_timeout;
    assert!(
        shed > 20,
        "300 qps must shed via the real queue deadline, shed={shed}"
    );

    // Bare app at the same load: nothing sheds, the run queue explodes.
    let mut bare = Rig::new(300.0, PolicyStage::App, None, false, Behavior::Good);
    drive(&mut bare, 2880.0);
    assert_eq!(
        stats(&bare).queue_timeout,
        0,
        "no queue, no queue timeouts"
    );
    assert!(
        in_flight(&bare) > 50,
        "unprotected overload piles up in-flight work: {}",
        in_flight(&bare)
    );

    // Reject stage overloaded: the real rejection layer sheds immediately.
    let mut rej = Rig::new(300.0, PolicyStage::Reject, None, false, Behavior::Good);
    drive(&mut rej, 2880.0);
    let s = stats(&rej);
    assert!(
        s.rejected > 20,
        "the reject layer sheds, rejected={}",
        s.rejected
    );
    assert_eq!(s.queue_timeout, 0, "no queue in the reject stage");
}

/// Each admission signal gates the same queue, so overload always sheds via the real queue
/// deadline — never rejection — and the OS-CPU average visibly lags the load it summarises.
#[test]
fn gate_signals_gate_the_queue() {
    // Concurrency-limit gate: the real limit layer withholds readiness between the queue and the
    // app, so under overload the queue sheds on its deadline.
    let mut cc = Rig::new(
        300.0,
        PolicyStage::Queue,
        Some(Gate::ConcurrencyLimit),
        false,
        Behavior::Good,
    );
    drive(&mut cc, 2880.0);
    let s = stats(&cc);
    assert!(
        s.queue_timeout > 20,
        "limit gate sheds via the queue: {}",
        s.queue_timeout
    );
    assert_eq!(
        s.rejected, 0,
        "a gate never rejects; only the queue sheds"
    );
    let layers = cc.read(|e| e.obs.layers);
    assert!(
        layers.limit.is_some() && !layers.backpressure,
        "manifest shows the limit gate"
    );

    // The runtime-CPU gate is the real backpressure layer, so what it polls is the reserve the
    // cores keep parked.
    let machine = Machine::new(ADMISSION_LIMIT as i64);
    let instr = machine.instrumentation();
    let rt = tokio::runtime::Builder::new_current_thread()
        .build()
        .unwrap();
    let held: Vec<_> = rt.block_on(async {
        let mut held = Vec::new();
        for _ in 0..ADMISSION_LIMIT {
            held.push(machine.acquire().await);
        }
        held
    });
    assert_eq!(instr.available(), 0, "the reserve is spent; admission is shut");
    drop(held);
    assert_eq!(instr.available(), ADMISSION_LIMIT, "parked cores reopen it");

    // OS-CPU gate under sustained overload: the average reads hot and the queue sheds.
    let mut os = Rig::new(
        300.0,
        PolicyStage::Queue,
        Some(Gate::OsCpu),
        false,
        Behavior::Good,
    );
    drive(&mut os, 2880.0);
    let pct = os
        .read(|e| e.obs.os_cpu_pct)
        .expect("the OS-CPU gate reports its average");
    assert!(pct >= 50, "sustained overload reads hot: {pct}%");
    assert!(
        stats(&os).queue_timeout > 0,
        "a shut gate backs the queue up to its deadline"
    );

    // A gate switch is live: mid-incident, switching to runtime CPU keeps every counter and the
    // in-flight work — only the manifest and who withholds readiness change.
    let arrived_before = stats(&cc).arrived;
    assert!(in_flight(&cc) > 0, "work is in flight at the switch");
    cc.control(|e, now| e.set_gate(Gate::RuntimeCpu, now));
    let layers = cc.read(|e| e.obs.layers);
    assert!(
        layers.limit.is_none() && layers.backpressure,
        "manifest follows the switch"
    );
    drive(&mut cc, 288.0);
    assert!(stats(&cc).arrived > arrived_before, "the run carried on");
    assert!(in_flight(&cc) > 0, "work still flows after the switch");

    // The lag, at the burst's leading edge. The cores are already saturated, but the trailing
    // average still reads the calm past — so the controller opens up into a machine that is
    // already full, and only sheds once the average catches up.
    let mut burst = Rig::new(
        500.0,
        PolicyStage::Queue,
        Some(Gate::OsCpu),
        false,
        Behavior::Good,
    );
    drive(&mut burst, 720.0);
    let (busy, pct, limit) = burst.read(|e| (e.obs.busy(), e.obs.os_cpu_pct, e.obs.layers.limit));
    assert_eq!(busy, CORES, "the burst saturated the cores");
    let pct = pct.expect("the OS-CPU controller reports its average");
    assert!(pct < 75, "the average still reads the calm past: {pct}%");
    let overshoot = limit.expect("the controller's ceiling");
    assert!(
        overshoot > OS_CPU_INITIAL_LIMIT,
        "so it widens into a full machine: {overshoot}"
    );

    // Once the average catches up to the overload, it gives the ceiling back.
    drive(&mut burst, 5760.0);
    let limit = burst.read(|e| e.obs.layers.limit);
    assert!(
        limit.is_some_and(|n| n < overshoot),
        "the correction arrives late, but it arrives: {limit:?}"
    );
}

/// Determinism: the discrete-event clock plus the seeded draws make two identical runs identical
/// in outcome.
#[test]
fn identical_runs_produce_identical_stats() {
    let run = || {
        let mut e = Rig::new(225.0, PolicyStage::Queue, None, false, Behavior::Good);
        drive(&mut e, 1920.0);
        let s = stats(&e);
        (s.arrived, s.success, s.queue_timeout, s.response_timeout)
    };
    let (a, b) = (run(), run());
    assert_eq!(a, b, "identical runs must produce identical stats");
}

/// The quiescent pump fills the cores.
#[test]
fn saturated_pump_fills_cores() {
    let mut hot = Rig::new(375.0, PolicyStage::Queue, None, false, Behavior::Good);
    hot.engine.lock().unwrap().set_speed(REAL);
    let mut peak = 0usize;
    for _ in 0..180 {
        hot.tick(16_000);
        peak = peak.max(hot.read(|e| e.obs.busy_peak));
    }
    // Overload's un-gated IO-returns fill every core; the frame-peak catches it even when a
    // burst ends at the frame edge.
    assert_eq!(
        peak, CORES,
        "IO-bound overload fills every core, peak={peak}"
    );
}

/// Toggles lose no in-flight work.
#[test]
fn toggles_retune_live_handles() {
    let mut e = Rig::new(225.0, PolicyStage::Queue, None, false, Behavior::Good);
    drive(&mut e, 960.0);
    let (arrived0, t0) = e.read(|e| (e.obs.stats.arrived, e.obs.t));
    assert!(arrived0 > 0, "work flows before the toggles");

    e.control(|e, now| e.set_backpressure(false, now));
    e.control(|e, now| e.set_queue_timeout(false, now));
    drive(&mut e, 480.0);
    e.control(|e, now| e.set_backpressure(true, now));
    e.control(|e, now| e.set_queue_timeout(true, now));
    drive(&mut e, 480.0);

    let (arrived1, t1) = e.read(|e| (e.obs.stats.arrived, e.obs.t));
    assert!(
        arrived1 > arrived0,
        "arrivals keep flowing across toggles: {arrived0} -> {arrived1}"
    );
    assert!(
        t1 > t0,
        "the clock keeps advancing across toggles: {t0} -> {t1}"
    );

    // Queue-timeout off ⇒ an hour-long deadline ⇒ the radial stops; on restores it.
    e.control(|e, now| e.set_queue_timeout(false, now));
    assert!(
        e.read(|e| e.obs.queue_timeout).is_none(),
        "timeout off hides the shed deadline"
    );
    e.control(|e, now| e.set_queue_timeout(true, now));
    assert_eq!(
        e.read(|e| e.obs.queue_timeout),
        Some(TIMEOUT_MS * MS),
        "timeout on restores it"
    );
}

/// Leaf-server failure modes (bare app, user-driven load via inject).
#[test]
fn bad_servers_never_reply() {
    let mut never = Rig::new(0.0, PolicyStage::App, None, true, Behavior::NeverAccept);
    never.engine.lock().unwrap().set_speed(REAL);
    for i in 0..90 {
        if i % 6 == 0 {
            never.inject();
        }
        never.tick(16_000);
        assert_eq!(
            never.read(|e| e.obs.busy()),
            0,
            "never-accept spends no CPU"
        );
    }
    let s = stats(&never);
    assert_eq!(s.success, 0, "never-accept never replies");
    assert!(
        s.response_timeout > 0,
        "never-accept times the client out"
    );

    let mut hang = Rig::new(0.0, PolicyStage::App, None, true, Behavior::AcceptHang);
    hang.engine.lock().unwrap().set_speed(REAL);
    let mut hang_peak = 0;
    for i in 0..120 {
        if i % 3 == 0 {
            hang.inject();
        }
        hang.tick(16_000);
        hang_peak = hang_peak.max(hang.read(|e| e.obs.busy_peak));
    }
    let s = stats(&hang);
    assert_eq!(s.success, 0, "accept-hang never replies");
    assert!(
        s.response_timeout > 0,
        "accept-hang times the client out"
    );
    assert_eq!(
        hang_peak, CORES,
        "accept-hang fills every core with hung handlers"
    );
    // The zombies never free: every worker stays occupied long after the clients gave up — the
    // server is dead until it restarts.
    assert_eq!(
        hang.read(|e| e.obs.busy()),
        CORES,
        "hung workers are leaked, not recovered"
    );
}

/// The tuned per-sim defaults tell their chapter's story: a healthy bare app never times a client
/// out; pushed past capacity it collapses; the protection stages shed at admission and serve what
/// they admit.
#[test]
fn tuned_defaults_tell_their_chapters_story() {
    let tuned = |qps: f64, stage: PolicyStage, cpu_only: bool, rtmo_ms: u64| {
        let mut e = Rig::new(qps, stage, None, cpu_only, Behavior::Good);
        e.engine.lock().unwrap().set_response_timeout_ms(rtmo_ms);
        drive(&mut e, 60_000.0);
        (
            stats(&e),
            e.read(|e| e.obs.ready.len()),
            e.read(|e| e.obs.syn_backlog.len()),
        )
    };

    let (s, _, _) = tuned(150.0, PolicyStage::App, true, 2000);
    assert_eq!(s.response_timeout, 0, "healthy cpu app times nobody out");
    assert!(
        s.success > 3000,
        "healthy cpu app serves its load: {}",
        s.success
    );

    let (s, _, _) = tuned(62.5, PolicyStage::App, false, 2000);
    assert_eq!(
        s.response_timeout, 0,
        "healthy cpu_io app times nobody out (the mixed workload's honest tail fits 2 s)"
    );

    let (s, ready, _syn) = tuned(200.0, PolicyStage::App, false, 2000);
    assert!(
        s.response_timeout > s.success,
        "an overloaded bare app collapses: rtmo={} success={}",
        s.response_timeout,
        s.success
    );
    assert!(
        ready > 100,
        "unprotected overload piles up in the run queue: {ready}"
    );

    let (s, _, _) = tuned(75.0, PolicyStage::Reject, false, 2500);
    assert_eq!(
        s.response_timeout, 0,
        "behind a working limit, admitted work completes in time"
    );
    assert!(s.rejected > 0, "the limit visibly sheds the overflow");
    assert!(
        s.success > s.rejected,
        "the limit serves more than it sheds: {} vs {}",
        s.success,
        s.rejected
    );

    let (s, _, _) = tuned(375.0, PolicyStage::Queue, false, 2500);
    assert!(
        s.queue_timeout > s.success,
        "the queue sheds the spike at the door"
    );
    assert!(
        s.response_timeout * 50 <= s.success,
        "behind a working queue, response timeouts are a rare few: rtmo={} success={}",
        s.response_timeout,
        s.success
    );
    assert!(
        s.success > 2000,
        "the queue keeps serving at capacity through the spike: {}",
        s.success
    );
}

/// The station projection is a faithful partition, and hops are its continuous counterpart: every
/// station entry is reported, and an id's last hop always agrees with where `live` says it is now.
#[test]
fn stations_partition_and_hops_agree() {
    let kind = |s: &Station| std::mem::discriminant(s);
    let mut proj = Rig::new(300.0, PolicyStage::Queue, None, false, Behavior::Good);
    proj.engine.lock().unwrap().set_speed(REAL);
    let mut departed = 0u32;
    let mut queue_hops: HashSet<u32> = HashSet::new();
    let mut saw = [false; 7]; // netin, accept, appq, syn, runq, cpu/io, netout
    for _ in 0..150 {
        proj.tick(16_000);
        let guard = proj.engine.lock().unwrap();
        let o = &guard.obs;
        let mut last_hop: HashMap<u32, Station> = HashMap::new();
        for hop in &o.hops {
            last_hop.insert(hop.id, hop.station);
            if matches!(hop.station, Station::AppQueue { .. }) {
                queue_hops.insert(hop.id);
            }
            // Coverage is read off the itinerary, not `live`: a good server's SYN backlog is a
            // sub-frame transit point, so it appears in hops but rarely dwells in a snapshot.
            match hop.station {
                Station::NetworkIn { .. } => saw[0] = true,
                Station::Accept { .. } => saw[1] = true,
                Station::AppQueue { .. } => saw[2] = true,
                Station::SynBacklog { .. } => saw[3] = true,
                Station::RunQueue { .. } => saw[4] = true,
                Station::Cpu { .. } | Station::Io { .. } => saw[5] = true,
                Station::NetworkOut { .. } => saw[6] = true,
            }
        }
        for (id, st) in &o.live {
            if let Some(h) = last_hop.get(id) {
                assert_eq!(
                    kind(h),
                    kind(st),
                    "an id's last hop ends at its live station"
                );
            }
        }
        // Every live id appears exactly once.
        let ids: HashSet<u32> = o.live.iter().map(|(id, _)| *id).collect();
        assert_eq!(ids.len(), o.live.len(), "live ids are unique");
        assert!(o.live.iter().all(|(id, _)| o.is_live(*id)));
        // The station count matches the collections it is derived from.
        let expected = o.syn_backlog.len()
            + o.queue_stubs.len()
            + o.ready.len()
            + o.cpu.len()
            + o.io_sleeping
            + o.net_in
            + o.net_out;
        assert_eq!(o.live.len(), expected, "live partitions the collections");
        departed += o.departures.len() as u32;
    }
    // Departures account for every terminal outcome, no more, no less.
    let s = stats(&proj);
    let terminal =
        s.success + s.queue_timeout + s.rejected + s.response_timeout + s.processing_timeout;
    assert_eq!(
        departed, terminal,
        "departures == terminal outcomes: {departed} vs {terminal}"
    );
    assert!(
        saw.iter().all(|&b| b),
        "every station kind is exercised: {saw:?}"
    );
    // Every request that reached a queue verdict recorded an AppQueue hop — the itinerary reports
    // the queue even when its residence was sub-frame.
    assert!(
        queue_hops.len() as u32 >= s.success + s.queue_timeout,
        "queue hops cover every queued request: {} vs {}",
        queue_hops.len(),
        s.success + s.queue_timeout
    );
}

/// The reply home is real state: a verdict is live on the outbound leg for the whole of it, and
/// its departure — the client's receipt — lands only once the leg is travelled, never in the frame
/// it set off.
#[test]
fn a_verdict_travels_home_before_it_is_received() {
    let mut rig = Rig::new(300.0, PolicyStage::Queue, None, false, Behavior::Good);
    // Slow enough that a frame is shorter than the leg, so the travel is observable.
    rig.engine.lock().unwrap().set_speed(100_000);
    let mut flying: HashSet<u32> = HashSet::new();
    let mut received = 0u32;
    let mut seen_mid_leg = false;
    for _ in 0..900 {
        rig.tick(16_000);
        let guard = rig.engine.lock().unwrap();
        let o = &guard.obs;
        let set_off: Vec<u32> = o
            .hops
            .iter()
            .filter(|h| matches!(h.station, Station::NetworkOut { .. }))
            .map(|h| h.id)
            .collect();
        for &(id, outcome) in &o.departures {
            match outcome.reply() {
                Some(_) => {
                    assert!(
                        !set_off.contains(&id),
                        "a reply is not received in the frame it set off"
                    );
                    assert!(flying.remove(&id), "and it was seen flying home first");
                    received += 1;
                }
                // The client gave up: nothing was ever sent, so nothing was ever on a leg.
                None => assert!(
                    !set_off.contains(&id) && !flying.contains(&id),
                    "nothing rides home for a give-up",
                ),
            }
        }
        seen_mid_leg |= o
            .live
            .iter()
            .any(|(_, s)| matches!(s, Station::NetworkOut { .. }));
        flying.extend(set_off);
    }
    assert!(received > 0, "replies reach clients");
    assert!(seen_mid_leg, "and are on the leg home while they travel");
}

/// The cost knob reads in milliseconds, so its units have to be the phase plan's own.
#[test]
fn the_cost_knob_reads_the_cpu_the_phase_plan_draws() {
    let mut rng = Rng::new(0x0c05_7);
    for work in [WHOLE_WEIGHT, EQUAL_WEIGHT, 4 * WHOLE_WEIGHT] {
        const PLANS: usize = 20_000;
        let drawn: f64 = (0..PLANS)
            .map(|_| {
                make_phases(&mut rng, false, work)
                    .iter()
                    .filter_map(|p| match p {
                        Phase::Cpu(d) => Some(*d as f64 / MS as f64),
                        Phase::Io(_) => None,
                    })
                    .sum::<f64>()
            })
            .sum();
        let mean = drawn / PLANS as f64;
        let claimed = cpu_cost_ms(work) as f64 / MS as f64;
        assert!(
            (mean - claimed).abs() < claimed * 0.05,
            "at a weight of {work} the plan draws {mean:.1} ms of CPU, the knob says {claimed:.1}",
        );
        assert_eq!(
            work_for_cpu_cost(cpu_cost_ms(work)),
            work as u64,
            "and it converts back"
        );
    }
}

/// Weight is a live variable like the rate, and the meter sees it: raising one tenant's weight —
/// without touching a single rate — raises its share of the bill.
#[test]
fn weight_is_live_and_the_bill_follows_it() {
    let share_of_bill = |rig: &mut Rig, of: &str, frames: usize| {
        let mut per: HashMap<&'static str, Ticks> = HashMap::new();
        for _ in 0..frames {
            rig.tick(16_000);
            for (tenant, fare) in rig.engine.lock().unwrap().take_fares() {
                *per.entry(tenant).or_default() += fare;
            }
        }
        let all: Ticks = per.values().sum();
        per.get(of).copied().unwrap_or_default() as f64 / (all as f64).max(1e-9)
    };
    let heavy_sender = tenants()[1].id;

    // Level weights: what a tenant is billed for is what it sends.
    let mut rig = Rig::tenanted();
    rig.engine.lock().unwrap().set_speed(REAL);
    let level = share_of_bill(&mut rig, heavy_sender, 300);

    // The same tenant, sending at exactly the same rate, with heavier requests.
    rig.engine
        .lock()
        .unwrap()
        .set_tenant_work(heavy_sender, EQUAL_WEIGHT * 4);
    let heavy = share_of_bill(&mut rig, heavy_sender, 300);

    assert!(
        heavy > level * 1.5,
        "a heavier tenant is billed more without sending more: {level:.3} -> {heavy:.3}",
    );
}

/// The blame strip is the reporter's bill, not a second calculation of it.
#[test]
fn sampled_spans_are_the_librarys_own_accounting() {
    let mut rig = Rig::tenanted();
    rig.engine.lock().unwrap().set_speed(REAL);
    let mut per_id: HashMap<u32, Ticks> = HashMap::new();
    let mut fares: Vec<(&'static str, Ticks)> = Vec::new();
    let mut minted = false;
    for _ in 0..240 {
        rig.tick(16_000);
        let mut e = rig.engine.lock().unwrap();
        minted |= !e.obs.blame.shut.is_empty();
        for sp in &e.obs.blame.spans {
            *per_id.entry(sp.id).or_default() += sp.accrual;
            assert!(sp.pos < sp.n, "a cell sits inside the lattice it declares");
            assert!(!sp.minting() || sp.n > 0, "minting needs someone to bill");
        }
        fares.extend(e.take_fares());
    }
    assert!(minted, "three tenants on one server make admission shut");

    let e = rig.engine.lock().unwrap();
    let blame = &e.obs.blame;
    assert_eq!(
        blame.occupiers.len() as u64,
        blame.inflight,
        "the sampled membership is the one the reporter divides by"
    );
    assert!(
        blame.attributed <= blame.accumulated,
        "billing never exceeds the measured whole"
    );

    let strip: Ticks = per_id.values().sum();
    assert!(
        strip <= blame.accumulated,
        "the strip's area is inside the whole: {strip:?}"
    );
    assert!(
        strip >= blame.attributed,
        "and it covers everything billed: {strip:?}"
    );
    let banked: Ticks = fares.iter().map(|(_, fare)| *fare).sum();
    assert!(
        banked <= blame.attributed,
        "reported fares are drawn blame: {banked:?}"
    );
    for (tenant, _) in &fares {
        assert!(
            tenants().iter().any(|t| t.id == *tenant),
            "every fare names a tenant: {tenant}"
        );
    }
}

/// The opening still holds exactly one request, in flight along the inbound-network leg, and it is
/// real state: the clock advances it off the leg and the held arrival stream resumes.
#[test]
fn open_incoming_places_one_request_mid_network() {
    let mut rig = Rig::new(120.0, PolicyStage::Queue, None, false, Behavior::Good);
    rig.engine.lock().unwrap().set_speed(REAL);
    let now = rig.world.epoch.now();
    let (req, to) = rig.engine.lock().unwrap().open_incoming(now);
    rig.spawn(req);
    rig.run_to(to);
    {
        let now = rig.world.epoch.now();
        let mut e = rig.engine.lock().unwrap();
        let (draw, rate) = (e.draw(), e.arrivals.rate);
        e.release(now, gap(draw, rate));
    }

    rig.read(|e| {
        let o = &e.obs;
        assert_eq!(
            o.live.len(),
            1,
            "the opening still holds exactly one request"
        );
        assert_eq!(
            o.net_in, 1,
            "and it is the only request, still in the network leg"
        );
        assert!(
            matches!(o.live[0].1, Station::NetworkIn { .. }),
            "the one request is incoming toward SYN, not settled into a queue"
        );
    });

    // Not a painted still: run the clock and the opening request leaves the network leg toward the
    // server, and the stream that was held resumes (more than one request).
    let (mut advanced, mut refilled) = (false, false);
    for _ in 0..150 {
        rig.tick(16_000);
        rig.read(|e| {
            advanced |= e
                .obs
                .live
                .iter()
                .any(|(_, s)| !matches!(s, Station::NetworkIn { .. }));
            refilled |= e.obs.live.len() > 1;
        });
    }
    assert!(
        advanced,
        "the opening request advances past the network leg once the clock runs"
    );
    assert!(
        refilled,
        "the held arrival stream resumes so play fills the stage"
    );
}

/// Ten servers, ticked together from cold, all reach a healthy steady state.
#[test]
fn ten_servers_run_concurrently_to_a_healthy_steady_state() {
    let mut cluster: Vec<Rig> = Cluster::new().servers.into_iter().map(Rig::of).collect();
    // Well past fill, into steady state.
    for _ in 0..2000 {
        for server in cluster.iter_mut() {
            server.tick(33_000);
        }
    }

    let counts: Vec<ServerCounts> = cluster.iter().map(|s| s.read(|e| e.counts())).collect();
    assert_eq!(counts.len(), SERVERS);
    assert!(
        counts.iter().all(|c| c.success > 0),
        "every server serves its load"
    );
    for c in &counts {
        // Healthy: what it shed is a small fraction of what it served.
        assert!(c.retried * 5 <= c.success, "a healthy server sheds little");
    }
    let successes: Vec<usize> = counts.iter().map(|c| c.success).collect();
    assert!(
        successes.iter().any(|&s| s != successes[0]),
        "independent seeds make the fleet differ in the small",
    );
}

/// One frame of the panel's own pace.
const STEP_MS: f64 = 1000.0 / 30.0;

const STEP: u64 = 33_333;

/// Drive the panel exactly as the message loop does — the engine, the landings, the frame —
/// handing each frame's window to `watch` before the next.
fn drive_panel(frames: usize, mut watch: impl FnMut(&Panel)) -> (Panel, usize) {
    let mut rig = Rig::tenanted();
    rig.engine.lock().unwrap().set_speed(REAL);
    let mut desk = Desk::new();
    let mut samples = 0;
    for _ in 0..frames {
        desk.panel.tick_real(STEP as i64);
        rig.tick(STEP);
        let mut e = rig.engine.lock().unwrap();
        samples += usize::from(desk.fold(&mut e).is_some());
        assert!(e.ledger.fares.is_empty(), "every fare was banked");
        drop(e);
        watch(&desk.panel);
    }
    let panel = desk.panel;
    (panel, samples)
}

/// Area in the blame strip **is** blame. A cell is its share of the strip tall and spans
/// `t_b − t_a`, so its area over the strip's is `(t_b − t_a) / n` — and that is exactly what the
/// meter wound for its occupier, which is what the request was billed.
#[test]
fn a_cells_area_is_the_meters_own_wind() {
    let mut solid = 0usize;
    drive_panel(600, |panel| {
        for track in &panel.tracks {
            for cell in &track.cells {
                assert!(
                    cell.pos < cell.n,
                    "a cell sits inside the lattice it declares"
                );
                match cell.minting() {
                    false => assert_eq!(cell.accrual, 0, "free residency mints nothing"),
                    true => {
                        solid += 1;
                        let area = (cell.t_b - cell.t_a) as f64 / cell.n as f64 / MS as f64;
                        let wound = cell.accrual as f64 / MS as f64;
                        assert!(
                            (area - wound).abs() < 0.01,
                            "area {area} ms vs the meter's {wound} ms",
                        );
                    }
                }
            }
            // The bill runs from admission; the strip only keeps the window, so the cells still
            // drawn are a tail of it.
            assert!(
                track.cells.iter().map(|c| c.accrual).sum::<Ticks>() <= track.owed,
                "the drawn cells are part of the bill, never more than it",
            );
        }
    });
    assert!(
        solid > 1000,
        "the panel drew blame being minted: {solid} solid cells"
    );
}

/// The window is what it says it is, and everything drawn falls inside the plot.
#[test]
fn the_window_holds_its_geometry() {
    let (mut panel, samples) = drive_panel(600, |_| {});
    let frame = panel.build();
    // Everything drawn lives on the track, and the track is long enough that the re-base always
    // gets there first — an overrun would silently slide cells off the end.
    let on_track = |x: Fine, w: Fine| x + w <= TRACK;
    // ...and reads, through the window's offset, as a span that has happened and has not yet
    // scrolled away: nothing is drawn in the future, nothing wholly in the past is retained.
    let slack = LEAST_BAND;
    let visible = |x: Fine, w: Fine| {
        x + w >= frame.offset && x + w <= frame.offset + PLOT + slack && x <= frame.offset + PLOT
    };
    for band in &frame.bands {
        assert!(
            on_track(band.x, band.w),
            "a band on the track: {} + {}",
            band.x,
            band.w
        );
        assert!(visible(band.x, band.w), "a band inside the axis");
    }
    for cell in &frame.cells {
        assert!(cell.pos < cell.n, "a cell inside the strip");
        assert!(
            on_track(cell.x, cell.w),
            "a cell on the track: {} + {}",
            cell.x,
            cell.w
        );
        assert!(visible(cell.x, cell.w), "a cell inside the axis");
        assert!(cell_style(cell).starts_with("background:var(--stage-"));
    }
    assert!(
        !frame.meters.is_empty(),
        "the meters show a lane per occupier"
    );
    assert_eq!(
        frame.totals.len(),
        TENANT_COUNT,
        "one line per tenant, and no other"
    );
    assert!(samples > 0, "the chart has samples by now");
}

/// Lanes are recycled, not reassigned: a lane keeps its place in the meters until something else
/// takes it, so the rows do not shuffle under the reader.
#[test]
fn lanes_are_recycled_and_ordered() {
    let (panel, _) = drive_panel(600, |_| {});
    let mut seen = panel.seats.order.clone();
    seen.sort_unstable();
    seen.dedup();
    assert_eq!(
        seen.len(),
        panel.seats.lanes.len(),
        "every lane appears in the order exactly once"
    );
    let seated: Vec<u32> = panel.seats.lanes.iter().flatten().copied().collect();
    let mut unique = seated.clone();
    unique.sort_unstable();
    unique.dedup();
    assert_eq!(unique.len(), seated.len(), "no request holds two lanes");
    assert_eq!(
        panel.seats.lanes.len(),
        LANES,
        "the meter block is a fixed set of seats"
    );
    assert_eq!(
        seated.len(),
        panel.occupiers.len().min(LANES),
        "every occupier there is a seat for has one",
    );
}

/// The dashes on a wire *are* the requests on it, each at the place the engine computed for it. So
/// a still engine reports the same positions and the wire draws the same pattern, and a tenant
/// with nothing on the leg has a bare wire rather than a stalled one.
#[test]
fn a_wire_carries_the_requests_the_engine_has_on_it() {
    let mut rig = Rig::tenanted();
    rig.engine.lock().unwrap().set_speed(REAL);

    let mut carried = vec![0usize; TENANT_COUNT];
    for _ in 0..2000 {
        rig.tick(STEP);
        for (n, at) in carried.iter_mut().zip(rig.read(on_the_wire).out) {
            assert!(
                at.iter().all(|p| p.done <= p.of),
                "every dash is on the wire"
            );
            *n += at.len();
        }
    }
    assert!(
        carried.iter().all(|n| *n > 0),
        "every sending tenant sends: {carried:?}"
    );

    let held: Vec<String> = rig.read(on_the_wire).out.iter().map(marks).collect();
    let again: Vec<String> = rig.read(on_the_wire).out.iter().map(marks).collect();
    assert_eq!(held, again, "an engine that did not move moves no dash");

    rig.set_tenant_qps(tenants()[0].id, 0);
    for _ in 0..600 {
        rig.tick(STEP);
    }
    let quiet = rig.read(on_the_wire).out;
    assert!(
        quiet[0].is_empty(),
        "a silent tenant has nothing on its wire"
    );
    assert_eq!(
        marks(&quiet[0]),
        marks(&Vec::new()),
        "so its wire is drawn bare"
    );
}

/// The wire home carries what the engine has on it, in the lane of the verdict each reply wears.
/// A rejection is still a reply; a response timeout is not: the client stopped waiting, so there
/// is nobody to send it to.
#[test]
fn only_the_verdicts_someone_is_waiting_for_travel_home() {
    assert!(
        HOMEWARD.contains(&Outcome::Rejected),
        "a rejection is still a reply"
    );
    for verdict in HOMEWARD {
        assert!(
            verdict.reply().is_some(),
            "every lane drawn is a verdict that travels"
        );
    }
    assert!(
        Outcome::ResponseTimeout.reply().is_none() && !HOMEWARD.contains(&Outcome::ResponseTimeout),
        "nobody is waiting for this one, so nothing goes back down the wire",
    );

    let mut rig = Rig::tenanted();
    rig.engine.lock().unwrap().set_speed(REAL);
    let mut lanes = vec![0usize; HOMEWARD.len()];
    for _ in 0..2000 {
        rig.tick(STEP);
        for tenant in rig.read(on_the_wire).home {
            for (n, at) in lanes.iter_mut().zip(tenant) {
                assert!(
                    at.iter().all(|p| p.done <= p.of),
                    "every reply is on the wire"
                );
                *n += at.len();
            }
        }
    }
    assert!(lanes[0] > 0, "served replies ride home: {lanes:?}");
    assert!(
        lanes.iter().sum::<usize>() > lanes[0],
        "and so do the shed ones: {lanes:?}"
    );
}

/// The layer a wire is drawn in is read off what came back, never off the knob.
#[test]
fn a_wires_layer_is_read_from_what_came_back() {
    let mut rig = Rig::tenanted();
    rig.engine.lock().unwrap().set_speed(REAL);
    let hush = tenants()[0].id;

    let mut done: VecDeque<Record> = VecDeque::new();
    for _ in 0..500 {
        rig.tick(STEP);
        rig.read(|e| {
            for &(id, outcome) in &e.obs.departures {
                let tenant = e.whose(id).map_or(SOLO, |k| tenants()[k].id);
                done.push_back(Record { tenant, outcome });
            }
        });
    }

    // The layer is read off what came back, and nothing in it consults a rate.
    let traffic = Traffic::of_each(&done);
    assert_eq!(traffic.len(), TENANT_COUNT);
    assert!(
        done.iter().any(|r| r.tenant == hush),
        "the sample holds this tenant's traffic, so the layer is a reading and not a default",
    );
}

/// A tenant taken to zero leaves the schedule, and coming back draws a fresh gap rather than firing
/// the backlog its stale send instant would have owed.
#[test]
fn a_silenced_tenant_stops_arriving_and_returns_cleanly() {
    let mut rig = Rig::tenanted();
    rig.engine.lock().unwrap().set_speed(REAL);
    let hush = tenants()[0];
    let landed = |rig: &Rig| {
        rig.read(|e| {
            e.obs
                .hops
                .iter()
                .filter(|h| matches!(h.station, Station::SynBacklog { .. }))
                .filter(|h| e.whose(h.id) == Some(0))
                .count()
        })
    };
    for _ in 0..120 {
        rig.tick(STEP);
    }
    rig.set_tenant_qps(hush.id, 0);
    // Whatever it sent before the silence is still entitled to land: a request is on the wire for
    // the handshake plus the inbound leg, so let that window drain first.
    let drain = ((HANDSHAKE_MS + NET_MS) as f64 / STEP_MS).ceil();
    for _ in 0..drain as usize + 1 {
        rig.tick(STEP);
    }
    let mut after = 0usize;
    for _ in 0..400 {
        rig.tick(STEP);
        after += landed(&rig);
    }
    assert_eq!(after, 0, "a silenced tenant sends nothing");

    rig.set_tenant_qps(hush.id, hush.rate);
    rig.tick(STEP);
    let burst = landed(&rig);
    // One tick's worth of arrivals at the tenant's rate, with slack for the draw — the backlog this
    // guards against would be the whole silence at once, hundreds deep.
    let one_tick = hush.rate as f64 / 1000.0 * STEP_MS / 1000.0;
    assert!(
        (burst as f64) <= one_tick * 3.0,
        "waking redraws a gap rather than firing the silence as a backlog: {burst}"
    );
}

/// The depths still sum to the box's own counts: the same queue, read by occupant.
#[test]
fn a_shared_box_is_cut_by_who_stands_in_it() {
    let mut rig = Rig::tenanted();
    rig.engine.lock().unwrap().set_speed(REAL);
    let mut stood = 0;
    for _ in 0..200 {
        rig.tick(STEP);
        rig.read(|e| {
            let by = queues_by_tenant(e);
            assert_eq!(by.len(), TENANT_COUNT);
            assert_eq!(
                by.iter().map(|q| q.run).sum::<usize>(),
                e.obs.ready.len()
            );
            assert_eq!(
                by.iter().map(|q| q.app).sum::<usize>(),
                e.obs.queue_stubs.len()
            );
            assert_eq!(core_ink_of(e).len(), e.obs.busy());
            stood += by.iter().map(|q| q.app + q.run).sum::<usize>();
        });
    }
    assert!(stood > 0, "somebody waited");
}

/// A server of a fleet takes its share of what the tenants send it.
#[test]
fn a_rate_limited_engine_opens_with_its_share_of_the_load() {
    let whole = SimEngine::rate_limited(7, &Part { done: 1, of: 1 });
    let tenth = SimEngine::rate_limited(7, &Part { done: 1, of: 10 });
    for k in 0..TENANT_COUNT {
        let rate = |e: &SimEngine| e.tenants.as_ref().unwrap().streams[k].clock.rate;
        assert_eq!(rate(&tenth), rate(&whole) / 10);
    }
}
