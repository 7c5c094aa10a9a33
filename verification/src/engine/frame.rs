//! A frame, one exchange at a time: the engine says what it needs of the world, and is told what
//! came of it.

use vstd::prelude::*;

use crate::engine::arrivals::{is_earliest, none_due, Arrivals};
use crate::engine::clock::{Ticks, MS, OS_CPU_REFRESH_MS};
use crate::engine::machine::{
    closed, looks, opening_digest, settled, widened, Accounts, Digest, DigestView, EngineView,
    Metered, SimEngine,
};
use crate::engine::meters::busy_time;
use crate::engine::mix::{clocks, MixView, Stream, TenantMix};
use crate::engine::request::{
    spec_plan, spec_tenant, Phase, SimReq, SOLO, TENANT_COUNT, WHOLE_WEIGHT,
};
use crate::engine::rng::{drawn, next_state, Rng};
use crate::engine::stack::CORES;

verus! {

/// A stream that has sent and not yet drawn its gap: whose it is, where there are tenants, and when
/// what it sent lands.
#[derive(Clone, Copy, PartialEq, Eq, Structural, Debug)]
pub struct Owed {
    pub tenant: Option<usize>,
    pub at: Ticks,
}

/// Where a frame stands.
pub enum Frame {
    /// Every request whose send falls in the frame is sent before it runs.
    Sending { t_end: Ticks, owed: Option<Owed> },
    /// The world runs to the frame's end.
    Running { digest: Digest },
    Closed,
}

/// Where a frame stands.
pub enum FrameView {
    Sending { t_end: Ticks, owed: Option<Owed> },
    Running { digest: DigestView },
    Closed,
}

impl View for Frame {
    type V = FrameView;

    open spec fn view(&self) -> FrameView {
        match *self {
            Frame::Sending { t_end, owed } => FrameView::Sending { t_end, owed },
            Frame::Running { digest } => FrameView::Running { digest: digest@ },
            Frame::Closed => FrameView::Closed,
        }
    }
}

/// What a frame is told.
#[derive(Clone, Copy, PartialEq, Eq, Structural, Debug)]
pub enum Heard {
    Begin,
    /// The gap drawn for the stream that sent last.
    Gap { gap: Ticks },
    /// Nothing is left to run at `now`.
    Settled { now: Ticks, metered: Option<Metered> },
    /// The world has run to the frame's end.
    Over { now: Ticks, accounts: Option<Accounts>, pct: Option<u32>, ceiling: Option<usize> },
}

/// What a frame asks for.
pub enum Act {
    /// Send this request, and give its stream a gap: its draw, and the rate it sends at.
    Send { req: SimReq, draw: u64, rate: u64 },
    /// Run the world to the frame's end.
    Run { t_end: Ticks },
    /// Let the controller look, where it is due one: the busy core-time it reads.
    Look { busy: Option<u64> },
    /// The frame is read.
    Done,
    /// Not what the frame was waiting for.
    Nothing,
}

/// A request, as it is sent.
#[verifier::ext_equal]
pub struct ReqView {
    pub id: u32,
    pub enq_t: Ticks,
    pub tenant: &'static str,
    pub phases: Seq<Phase>,
}

impl View for SimReq {
    type V = ReqView;

    open spec fn view(&self) -> ReqView {
        ReqView { id: self.id, enq_t: self.enq_t, tenant: self.tenant, phases: self.phases@ }
    }
}

/// What a frame asks for.
pub enum ActView {
    Send { req: ReqView, draw: u64, rate: u64 },
    Run { t_end: Ticks },
    Look { busy: Option<u64> },
    Done,
    Nothing,
}

impl View for Act {
    type V = ActView;

    open spec fn view(&self) -> ActView {
        match *self {
            Act::Send { req, draw, rate } => ActView::Send { req: req@, draw, rate },
            Act::Run { t_end } => ActView::Run { t_end },
            Act::Look { busy } => ActView::Look { busy },
            Act::Done => ActView::Done,
            Act::Nothing => ActView::Nothing,
        }
    }
}

/// The stream with the earliest send due by `t_end`, and when what it sends lands.
pub open spec fn first_due(clocks: Seq<Arrivals>, t_end: Ticks) -> Option<(int, Ticks)> {
    if none_due(clocks, t_end) {
        None
    } else {
        Some(choose|first: (int, Ticks)| #[trigger] is_earliest(clocks, t_end, first.0, first.1))
    }
}

/// There is one earliest.
pub proof fn the_first_is_the_only_one(clocks: Seq<Arrivals>, t_end: Ticks, k: int, at: Ticks)
    requires
        is_earliest(clocks, t_end, k, at),
    ensures
        first_due(clocks, t_end) == Some((k, at)),
{
    assert(clocks[k].spec_due(t_end) is Some);
    let first = (k, at);
    assert(is_earliest(clocks, t_end, first.0, first.1));
    let (j, other) = choose|first: (int, Ticks)| #[trigger]
        is_earliest(clocks, t_end, first.0, first.1);
    assert(clocks[j].spec_due(t_end) == Some(other));
}

/// What goes out in a send: the request, and the draw and the rate its gap comes of.
pub struct Out {
    pub owed: Owed,
    pub req: ReqView,
    pub draw: u64,
    pub rate: u64,
}

/// The next send of the tenants' streams by `t_end`, where one is left, and the streams after it:
/// its work is drawn, and then its gap.
pub open spec fn mix_sends(mix: MixView, id: u32, cpu_only: bool, t_end: Ticks) -> Option<
    (MixView, Out),
> {
    match first_due(clocks(mix.streams), t_end) {
        Some((k, at)) => {
            let stream = mix.streams[k];
            let (phases, state) = spec_plan(mix.rng.state, cpu_only, stream.work);
            let rng = Rng { state: next_state(state) };
            let after = MixView { rng, whose: mix.whose.insert(id, k as usize), ..mix };
            let out = Out {
                owed: Owed { tenant: Some(k as usize), at },
                req: ReqView { id, enq_t: at, tenant: spec_tenant(k).id, phases },
                draw: drawn(rng.state),
                rate: stream.clock.rate,
            };
            Some((after, out))
        },
        None => None,
    }
}

/// The next send of a frame to `t_end`, where one is left, and the engine after it.
pub open spec fn sends(e: EngineView, t_end: Ticks) -> Option<(EngineView, Out)> {
    let next_id = (e.next_id + 1) as u32;
    match e.tenants {
        Some(mix) => match mix_sends(mix, e.next_id, e.cpu_only, t_end) {
            Some((after, out)) => Some((EngineView { next_id, tenants: Some(after), ..e }, out)),
            None => None,
        },
        None => match e.arrivals.spec_due(t_end) {
            Some(at) => {
                let (phases, state) = spec_plan(e.rng.state, e.cpu_only, WHOLE_WEIGHT);
                let rng = Rng { state: next_state(state) };
                let out = Out {
                    owed: Owed { tenant: None, at },
                    req: ReqView { id: e.next_id, enq_t: at, tenant: SOLO, phases },
                    draw: drawn(rng.state),
                    rate: e.arrivals.rate,
                };
                Some((EngineView { rng, next_id, ..e }, out))
            },
            None => None,
        },
    }
}

/// The engine once the stream that sent has its gap: its next send is that long after the last
/// one lands.
pub open spec fn paid(e: EngineView, owed: Owed, gap: Ticks) -> EngineView {
    let next = Some((owed.at + gap) as u64);
    match (owed.tenant, e.tenants) {
        (Some(k), Some(mix)) => {
            let stream = mix.streams[k as int];
            let clock = Arrivals { next, ..stream.clock };
            let streams = mix.streams.update(k as int, Stream { clock, ..stream });
            EngineView { tenants: Some(MixView { streams, ..mix }), ..e }
        },
        _ => EngineView { arrivals: Arrivals { next, ..e.arrivals }, ..e },
    }
}

/// A frame with the engine where it stands goes on sending, and once it has sent, runs.
pub open spec fn goes_on(e: EngineView, t_end: Ticks) -> (EngineView, FrameView, ActView) {
    match sends(e, t_end) {
        Some((after, out)) => (
            after,
            FrameView::Sending { t_end, owed: Some(out.owed) },
            ActView::Send { req: out.req, draw: out.draw, rate: out.rate },
        ),
        None => (
            e,
            FrameView::Running { digest: opening_digest() },
            ActView::Run { t_end },
        ),
    }
}

/// What the controller reads at `now`, where it is due a look.
pub open spec fn spec_look(e: EngineView, now: Ticks) -> Option<u64> {
    if looks(e, now) {
        let seen = settled(e, now, None).sim.util_samples;
        Some(busy_time(seen, seen.len() as int, now) as u64)
    } else {
        None
    }
}

/// One exchange: the engine and the frame after it, and what is asked for.
pub open spec fn ticked(e: EngineView, f: FrameView, heard: Heard) -> (
    EngineView,
    FrameView,
    ActView,
) {
    match (f, heard) {
        (FrameView::Sending { t_end, owed: None }, Heard::Begin) => goes_on(e, t_end),
        (FrameView::Sending { t_end, owed: Some(owed) }, Heard::Gap { gap }) => goes_on(
            paid(e, owed, gap),
            t_end,
        ),
        (FrameView::Running { digest }, Heard::Settled { now, metered }) => (
            settled(e, now, metered),
            FrameView::Running { digest: widened(digest, e, now, metered) },
            ActView::Look { busy: spec_look(e, now) },
        ),
        (FrameView::Running { digest }, Heard::Over { now, accounts, pct, ceiling }) => (
            closed(e, digest, now, accounts, pct, ceiling),
            FrameView::Closed,
            ActView::Done,
        ),
        _ => (e, f, ActView::Nothing),
    }
}

/// Whether the machine's limits leave room for an exchange.
pub open spec fn hearable(e: EngineView, f: FrameView, heard: Heard) -> bool {
    match (f, heard) {
        (FrameView::Sending { owed: None, .. }, Heard::Begin) => e.next_id < u32::MAX,
        (FrameView::Sending { owed: Some(owed), .. }, Heard::Gap { gap }) => {
            &&& e.next_id < u32::MAX
            &&& owed.at + gap <= u64::MAX
            &&& match owed.tenant {
                Some(k) => e.tenants is Some && k < TENANT_COUNT,
                None => e.tenants is None,
            }
        },
        (FrameView::Running { .. }, Heard::Settled { now, .. }) => {
            &&& e.at <= now
            &&& e.sim.cpu.len() <= CORES
            &&& e.sim.countable()
            &&& now + OS_CPU_REFRESH_MS * MS <= u64::MAX
        },
        (FrameView::Running { .. }, Heard::Over { .. }) => {
            &&& e.sim.countable()
            &&& e.sim.done_window.len() + e.sim.timeout_window.len() <= usize::MAX
        },
        _ => true,
    }
}

/// A send, on its way out.
pub struct Sent {
    pub owed: Owed,
    pub req: SimReq,
    pub draw: u64,
    pub rate: u64,
}

/// What goes out, where a send does.
pub open spec fn goes_out(sent: Option<Sent>) -> Option<Out> {
    match sent {
        Some(s) => Some(Out { owed: s.owed, req: s.req@, draw: s.draw, rate: s.rate }),
        None => None,
    }
}

/// The next send of the tenants' streams.
fn tenant_send(mix: &mut TenantMix, t_end: Ticks, cpu_only: bool, id: u32) -> (sent: Option<Sent>)
    requires
        old(mix).wf(),
        id < u32::MAX,
    ensures
        final(mix).wf(),
        goes_out(sent) == (match mix_sends(old(mix)@, id, cpu_only, t_end) {
            Some((_, out)) => Some(out),
            None => None,
        }),
        final(mix)@ == (match mix_sends(old(mix)@, id, cpu_only, t_end) {
            Some((after, _)) => after,
            None => old(mix)@,
        }),
{
    let mut next: u32 = id;
    match mix.arrival(t_end, cpu_only, &mut next) {
        Some((k, req)) => {
            proof {
                the_first_is_the_only_one(clocks(old(mix).streams@), t_end, k as int, req.enq_t);
            }
            let draw: u64 = mix.draw();
            let rate: u64 = mix.streams[k].clock.rate;
            let owed = Owed { tenant: Some(k), at: req.enq_t };
            proof {
                let (after, out) = mix_sends(old(mix)@, id, cpu_only, t_end)->0;
                assert(out.req =~= req@);
                assert(after =~= mix@);
            }
            Some(Sent { owed, req, draw, rate })
        },
        None => {
            assert(mix@ =~= old(mix)@);
            None
        },
    }
}

impl Frame {
    /// A frame that runs to `t_end`.
    pub fn to(t_end: Ticks) -> (f: Frame)
        ensures
            f@ == (FrameView::Sending { t_end, owed: None }),
    {
        Frame::Sending { t_end, owed: None }
    }
}

impl SimEngine {
    /// A frame of `wall` microseconds of the reader's time, from `now`.
    pub fn frame(&self, now: Ticks, wall: u64) -> (f: Frame)
        requires
            now + wall * self.speed <= u64::MAX,
        ensures
            f@ == (FrameView::Sending { t_end: (now + wall * self.speed) as u64, owed: None }),
    {
        assert(0 <= wall * self.speed) by (nonlinear_arith);
        Frame::to(now + self.runs(wall))
    }

    /// Whether the machine's limits leave room for an exchange.
    pub fn can_hear(&self, frame: &Frame, heard: Heard) -> (b: bool)
        ensures
            b == hearable(self@, frame@, heard),
    {
        match (frame, heard) {
            (Frame::Sending { owed: None, .. }, Heard::Begin) => self.next_id < u32::MAX,
            (Frame::Sending { owed: Some(owed), .. }, Heard::Gap { gap }) => {
                let known: bool = match owed.tenant {
                    Some(k) => self.tenants.is_some() && k < TENANT_COUNT,
                    None => self.tenants.is_none(),
                };
                self.next_id < u32::MAX && owed.at <= u64::MAX - gap && known
            },
            (Frame::Running { .. }, Heard::Settled { now, .. }) => self.can_settle(now),
            (Frame::Running { .. }, Heard::Over { .. }) => self.can_close(),
            _ => true,
        }
    }

    /// The next send of a frame to `t_end`, where one is left.
    fn send(&mut self, t_end: Ticks) -> (r: (Frame, Act))
        requires
            old(self).wf(),
            old(self).next_id < u32::MAX,
        ensures
            final(self).wf(),
            (final(self)@, r.0@, r.1@) == goes_on(old(self)@, t_end),
    {
        let sent: Option<Sent> = match self.tenants.take() {
            Some(mut mix) => {
                let sent = tenant_send(&mut mix, t_end, self.cpu_only, self.next_id);
                if sent.is_some() {
                    self.next_id = self.next_id + 1;
                }
                self.tenants = Some(mix);
                assert(self@ =~= (match sends(old(self)@, t_end) {
                    Some((after, _)) => after,
                    None => old(self)@,
                }));
                sent
            },
            None => self.lone_send(t_end),
        };
        match sent {
            Some(Sent { owed, req, draw, rate }) => (
                Frame::Sending { t_end, owed: Some(owed) },
                Act::Send { req, draw, rate },
            ),
            None => (Frame::Running { digest: self.open_frame() }, Act::Run { t_end }),
        }
    }

    /// The next send of the lone stream.
    fn lone_send(&mut self, t_end: Ticks) -> (sent: Option<Sent>)
        requires
            old(self).wf(),
            old(self).tenants is None,
            old(self).next_id < u32::MAX,
        ensures
            final(self).wf(),
            goes_out(sent) == (match sends(old(self)@, t_end) {
                Some((_, out)) => Some(out),
                None => None,
            }),
            final(self)@ == (match sends(old(self)@, t_end) {
                Some((after, _)) => after,
                None => old(self)@,
            }),
    {
        match self.arrival(t_end) {
            Some(req) => {
                let (draw, rate): (u64, u64) = (self.draw(), self.arrivals.rate);
                let owed = Owed { tenant: None, at: req.enq_t };
                let sent = Sent { owed, req, draw, rate };
                proof {
                    let (after, out) = sends(old(self)@, t_end)->0;
                    assert(out.req =~= req@);
                    assert(after =~= self@);
                }
                Some(sent)
            },
            None => None,
        }
    }

    /// The stream that sent has its gap.
    fn pay(&mut self, owed: Owed, gap: Ticks)
        requires
            old(self).wf(),
            owed.at + gap <= u64::MAX,
            match owed.tenant {
                Some(k) => old(self).tenants is Some && k < TENANT_COUNT,
                None => old(self).tenants is None,
            },
        ensures
            final(self).wf(),
            final(self)@ == paid(old(self)@, owed, gap),
    {
        match (owed.tenant, self.tenants.take()) {
            (Some(k), Some(mut mix)) => {
                let ghost was = mix@;
                mix.sent(k, owed.at, gap);
                self.tenants = Some(mix);
                assert(mix@ =~= paid(old(self)@, owed, gap).tenants->0);
            },
            _ => {
                self.sent(owed.at, gap);
            },
        }
        assert(self@ =~= paid(old(self)@, owed, gap));
    }

    /// One exchange of a frame. First every request whose send falls in it goes out, each stream's
    /// gap drawn after what it sent; then the world is run, and settles as often as it settles; and
    /// at its end the frame is read.
    pub fn tick(&mut self, frame: Frame, heard: Heard) -> (r: (Frame, Act))
        requires
            old(self).wf(),
            hearable(old(self)@, frame@, heard),
        ensures
            final(self).wf(),
            (final(self)@, r.0@, r.1@) == ticked(old(self)@, frame@, heard),
    {
        match (frame, heard) {
            (Frame::Sending { t_end, owed: None }, Heard::Begin) => self.send(t_end),
            (Frame::Sending { t_end, owed: Some(owed) }, Heard::Gap { gap }) => {
                self.pay(owed, gap);
                self.send(t_end)
            },
            (Frame::Running { digest }, Heard::Settled { now, metered }) => {
                let mut digest = digest;
                let busy: Option<u64> = self.settle(&mut digest, now, metered);
                (Frame::Running { digest }, Act::Look { busy })
            },
            (Frame::Running { digest }, Heard::Over { now, accounts, pct, ceiling }) => {
                self.close_frame(digest, now, accounts, pct, ceiling);
                (Frame::Closed, Act::Done)
            },
            (frame, _) => (frame, Act::Nothing),
        }
    }
}

/// A lone stream sends where it is due: the next number, at the instant it was due, with a plan
/// drawn from where the stream's draws had got to, and the gap to the next send drawn after it.
/// Nothing else moves.
pub proof fn a_lone_send_takes_the_next_draws(e: EngineView, t_end: Ticks)
    requires
        e.tenants is None,
        e.next_id < u32::MAX,
    ensures
        sends(e, t_end) is None <==> e.arrivals.spec_due(t_end) is None,
        sends(e, t_end) matches Some((after, out)) ==> {
            let (phases, state) = spec_plan(e.rng.state, e.cpu_only, 1_000_000);
            &&& e.arrivals.next == Some(out.owed.at) && out.owed.tenant is None
            &&& out.req.enq_t == out.owed.at && out.req.id == e.next_id && out.req.phases == phases
            &&& out.req.tenant == SOLO
            &&& after.next_id == e.next_id + 1
            &&& after.rng.state == next_state(state) && out.draw == drawn(after.rng.state)
            &&& out.rate == e.arrivals.rate
            &&& after == (EngineView { rng: after.rng, next_id: after.next_id, ..e })
        },
{
}

/// Of several tenants the one whose send is due first sends, and of those due together the first of
/// them: under its own name, with work of its own weight, remembered as its own. The other tenants'
/// streams, and the machine, are where they were.
pub proof fn the_tenant_due_first_sends(e: EngineView, t_end: Ticks, j: int)
    requires
        e.tenants is Some,
        e.next_id < u32::MAX,
        e.tenants->0.streams.len() == TENANT_COUNT,
        0 <= j < TENANT_COUNT,
    ensures
        ({
            let mix = e.tenants->0;
            &&& sends(e, t_end) is None ==> mix.streams[j].clock.spec_due(t_end) is None
            &&& sends(e, t_end) matches Some((after, out)) ==> (out.owed.tenant matches Some(k) && {
                let stream = mix.streams[k as int];
                let (phases, state) = spec_plan(mix.rng.state, e.cpu_only, stream.work);
                &&& k < TENANT_COUNT
                &&& stream.clock.spec_due(t_end) == Some(out.owed.at)
                &&& mix.streams[j].clock.spec_due(t_end) matches Some(at) ==> out.owed.at <= at
                    && (j < k ==> out.owed.at < at)
                &&& out.req.id == e.next_id && out.req.enq_t == out.owed.at
                &&& out.req.tenant == spec_tenant(k as int).id && out.req.phases == phases
                &&& out.rate == stream.clock.rate
                &&& after.next_id == e.next_id + 1
                &&& after.tenants matches Some(next) && next.streams == mix.streams
                    && next.whose == mix.whose.insert(e.next_id, k) && next.rng.state == next_state(
                    state,
                ) && out.draw == drawn(next.rng.state)
                &&& after == (EngineView {
                    tenants: after.tenants,
                    next_id: after.next_id,
                    ..e
                })
            })
        }),
{
    let mix = e.tenants->0;
    let all = clocks(mix.streams);
    assert(all[j] == mix.streams[j].clock);
    if none_due(all, t_end) {
        assert(all[j].spec_due(t_end) is None);
    } else {
        the_earliest_is_there(all, t_end);
        let (k, at) = first_due(all, t_end)->0;
        assert(is_earliest(all, t_end, k, at));
        assert(all[k] == mix.streams[k].clock);
    }
}

proof fn the_earliest_is_there(clocks: Seq<Arrivals>, t_end: Ticks)
    requires
        !none_due(clocks, t_end),
    ensures
        first_due(clocks, t_end) matches Some(first) && is_earliest(
            clocks,
            t_end,
            first.0,
            first.1,
        ),
{
    let j = choose|j: int| 0 <= j < clocks.len() && (#[trigger] clocks[j]).spec_due(t_end) is Some;
    let (k, at) = the_earliest_up_to(clocks, t_end, clocks.len() as int, j);
    assert(is_earliest(clocks, t_end, k, at));
    the_first_is_the_only_one(clocks, t_end, k, at);
}

proof fn the_earliest_up_to(clocks: Seq<Arrivals>, t_end: Ticks, n: int, j: int) -> (first: (
    int,
    Ticks,
))
    requires
        0 <= j < n <= clocks.len(),
        clocks[j].spec_due(t_end) is Some,
    ensures
        is_earliest(clocks.take(n), t_end, first.0, first.1),
        n == clocks.len() ==> is_earliest(clocks, t_end, first.0, first.1),
    decreases n,
{
    assert(clocks.take(clocks.len() as int) =~= clocks);
    let here = clocks[n - 1].spec_due(t_end);
    if exists|i: int| 0 <= i < n - 1 && (#[trigger] clocks[i]).spec_due(t_end) is Some {
        let i = choose|i: int| 0 <= i < n - 1 && (#[trigger] clocks[i]).spec_due(t_end) is Some;
        let (k, at) = the_earliest_up_to(clocks, t_end, n - 1, i);
        let before = clocks.take(n - 1);
        assert(before[k] == clocks[k]);
        assert forall|m: int| 0 <= m < n - 1 implies clocks.take(n)[m] == before[m] by {}
        if here is Some && here->0 < at {
            (n - 1, here->0)
        } else {
            (k, at)
        }
    } else {
        assert(j == n - 1);
        (n - 1, here->0)
    }
}

/// A gap, once drawn, puts its own stream's next send that far after the send it was drawn for, and
/// moves no other.
pub proof fn a_gap_is_its_own_streams(e: EngineView, owed: Owed, gap: Ticks, j: int)
    requires
        owed.at + gap <= u64::MAX,
        match owed.tenant {
            Some(k) => e.tenants matches Some(mix) && k < mix.streams.len(),
            None => e.tenants is None,
        },
    ensures
        owed.tenant is None ==> paid(e, owed, gap).arrivals.next == Some((owed.at + gap) as u64)
            && paid(e, owed, gap).arrivals.rate == e.arrivals.rate && paid(e, owed, gap).tenants
            is None,
        owed.tenant matches Some(k) ==> {
            let (was, now) = (e.tenants->0, paid(e, owed, gap).tenants->0);
            &&& paid(e, owed, gap).arrivals == e.arrivals
            &&& now.streams[k as int].clock.next == Some((owed.at + gap) as u64)
            &&& now.streams[k as int].clock.rate == was.streams[k as int].clock.rate
            &&& now.streams[k as int].work == was.streams[k as int].work
            &&& 0 <= j < was.streams.len() && j != k ==> now.streams[j] == was.streams[j]
            &&& now.whose == was.whose && now.rng == was.rng
        },
{
}

/// A frame sends while anything is due and runs once nothing is; while it runs it settles, over and
/// over, and it closes once it is over. Anything else it hears changes nothing.
pub proof fn a_frame_goes_through_in_order(e: EngineView, f: FrameView, heard: Heard)
    ensures
        ({
            let (after, next, act) = ticked(e, f, heard);
            let sending = match (f, heard) {
                (FrameView::Sending { owed: None, .. }, Heard::Begin) => true,
                (FrameView::Sending { owed: Some(_), .. }, Heard::Gap { .. }) => true,
                _ => false,
            };
            &&& sending ==> (act is Send && next is Sending) || (act is Run && next is Running)
            &&& sending && act is Run ==> act->Run_t_end == f->t_end
            &&& sending && act is Send ==> next->t_end == f->t_end && next->owed is Some
            &&& f is Running && heard is Settled ==> act is Look && next is Running && after.at
                == heard->Settled_now
            &&& f is Running && heard is Over ==> act is Done && next is Closed
            &&& !sending && !(f is Running && (heard is Settled || heard is Over)) ==> act is Nothing
                && after == e && next == f
        }),
{
}

} // verus!
