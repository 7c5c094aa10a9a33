//! The panel's desk: what the clock, the layout and the reader do to it, and what each asks of the
//! machine under it.

use std::collections::VecDeque;

use vstd::prelude::*;

use crate::atoms::stage::Paint;
use crate::atoms::tenant_stage::{Measured, Wire};
use crate::blame::controls::{any_shed, Controls, Record, Traffic, ORIENT};
use crate::blame::panel::{
    banked, fare_sum, folded, landing, moved_on, sample_due, struck, trimmed, LongSample,
    Panel, PanelView, Wall, LONG_SAMPLE,
};
use crate::blame::tracks::Landed;
use crate::engine::clock::Ticks;
use crate::engine::machine::{spec_whose, SimEngine};
use crate::engine::outcome::HOMEWARD;
use crate::engine::readers::{
    core_ink, core_ink_of, held_of, legs_placed, on_the_wire, riding, sent_by, Held, OnTheWire,
};
use crate::engine::request::{spec_tenant, spec_tenant_of, tenant_of, tenants, TENANT_COUNT};
use crate::engine::sim::{Hop, Station};
use crate::order::puts_in_order;
use crate::pace::{gathered, Pace, STEP};

verus! {

/// Where the speed knob stands as the panel opens: a hundredth of the reader's own pace.
pub const OPENING: u32 = 50;

/// What the clock, the layout or the reader does to the panel.
#[derive(Clone, Copy, PartialEq, Eq, Debug)]
pub enum BlameMsg {
    /// A rendered frame of this many microseconds.
    Tick(i64),
    /// The stage was measured to another width.
    Resize,
    /// Which view the diagram shows.
    View(usize),
    /// Flip the breakdown.
    Breakdown,
    /// Move one tenant's arrival rate.
    Rate(&'static str, u64),
    /// Run or pause.
    Toggle,
    /// Move the speed knob.
    Speed(u32),
    /// A fresh machine, with the knobs where the reader put them.
    Reset,
    /// Where something of the stage was laid out.
    Measured(Measured),
}

/// What a message asks of the machine under the panel, or of its picture.
#[derive(Clone, Copy, PartialEq, Eq, Debug)]
pub enum BlameAsk {
    Nothing,
    /// Advance the machine in whole steps, this many, each folded into the panel.
    Steps(u64),
    /// Start the picture's motion over.
    Redraw,
    /// Move a tenant's rate on the machine.
    Retune(&'static str, u64),
    /// Move the machine's clock.
    Pace(u32),
    /// Build the machine anew, at the desk's own speed and rates.
    Rebuild,
    /// Place what was measured.
    Place(Measured),
}

/// The panel, the reader's knobs and the switches over it.
pub struct Desk {
    pub controls: Controls,
    pub panel: Panel,
    pub pace: Pace,
    /// Where the speed knob stands.
    pub speed: u32,
    /// Where each tenant's rate knob stands.
    pub rates: Vec<u64>,
    /// Whether each tenant's traffic is coming back shed.
    pub shed: Vec<bool>,
}

#[verifier::ext_equal]
pub struct DeskView {
    pub controls: Controls,
    pub panel: PanelView,
    pub held: u64,
    pub speed: u32,
    pub rates: Seq<u64>,
    pub shed: Seq<bool>,
}

impl View for Desk {
    type V = DeskView;

    open spec fn view(&self) -> DeskView {
        DeskView {
            controls: self.controls,
            panel: self.panel@,
            held: self.pace.held,
            speed: self.speed,
            rates: self.rates@,
            shed: self.shed@,
        }
    }
}

/// The wall clock once a frame is in: a clock that steps back is one that stands still.
pub open spec fn ticked(real_t: Wall, dt: i64) -> int {
    if dt > 0 {
        real_t + dt
    } else {
        real_t as int
    }
}

/// The switches once a frame is in: the speed knob is offered once, to a reader who has been there
/// long enough and is done with the invitation already standing.
pub open spec fn offered(c: Controls, real_t: int) -> Controls {
    if !c.offered && !c.taken && !c.untouched && real_t >= ORIENT {
        Controls { offered: true, invited: true, ..c }
    } else {
        c
    }
}

/// A panel nothing has been folded into.
pub open spec fn is_blank(p: PanelView) -> bool {
    &&& p.t == 0 && p.real_t == 0 && p.epoch == 0
    &&& p.landed.len() == 0 && p.tracks.len() == 0 && p.shut.len() == 0 && p.ghosts.len() == 0
    &&& p.billed == seq![0u64, 0, 0] && p.fares == seq![0u64, 0, 0] && p.gathered == 0
    &&& p.meter == 0 && p.unattributed == 0 && !p.shut_now && p.inflight == 0 && p.charge == 0
    &&& p.occupiers.len() == 0
    &&& forall|i: int| 0 <= i < p.lanes.len() ==> (#[trigger] p.lanes[i]) is None
    &&& forall|i: int| 0 <= i < p.order.len() ==> #[trigger] p.order[i] == i
}

/// The desk once a message is in. A fresh machine's panel is a blank one.
pub open spec fn turned(d: DeskView, msg: BlameMsg, blank: PanelView) -> DeskView {
    match msg {
        BlameMsg::Tick(dt) => DeskView {
            panel: PanelView { real_t: ticked(d.panel.real_t, dt) as Wall, ..d.panel },
            controls: offered(d.controls, ticked(d.panel.real_t, dt)),
            held: (gathered(d.held, dt) % (STEP as int)) as u64,
            ..d
        },
        BlameMsg::View(view) => DeskView { controls: Controls { view, ..d.controls }, ..d },
        BlameMsg::Breakdown => DeskView {
            controls: Controls {
                by_tenant: !d.controls.by_tenant,
                untouched: false,
                summed: None,
                ..d.controls
            },
            ..d
        },
        BlameMsg::Rate(tenant, rate) => match spec_tenant_of(Some(tenant@)) {
            Some(k) => DeskView { rates: d.rates.update(k, rate), ..d },
            None => d,
        },
        BlameMsg::Toggle => DeskView {
            controls: Controls { running: !d.controls.running, ..d.controls },
            ..d
        },
        BlameMsg::Speed(raw) => DeskView {
            speed: raw,
            controls: if raw > OPENING {
                Controls { taken: true, invited: false, ..d.controls }
            } else {
                d.controls
            },
            ..d
        },
        BlameMsg::Reset => DeskView {
            panel: blank,
            held: 0,
            controls: Controls { summed: None, ..d.controls },
            ..d
        },
        BlameMsg::Resize | BlameMsg::Measured(_) => d,
    }
}

/// What a message asks for.
pub open spec fn asked(d: DeskView, msg: BlameMsg) -> BlameAsk {
    match msg {
        BlameMsg::Tick(dt) => BlameAsk::Steps((gathered(d.held, dt) / (STEP as int)) as u64),
        BlameMsg::Resize => BlameAsk::Redraw,
        BlameMsg::Rate(tenant, rate) => BlameAsk::Retune(tenant, rate),
        BlameMsg::Speed(raw) => BlameAsk::Pace(raw),
        BlameMsg::Reset => BlameAsk::Rebuild,
        BlameMsg::Measured(at) => BlameAsk::Place(at),
        BlameMsg::View(_) | BlameMsg::Breakdown | BlameMsg::Toggle => BlameAsk::Nothing,
    }
}

/// A request landing on the server: one that has already landed keeps its first landing.
pub open spec fn land_one(p: PanelView, id: u32, at: Ticks, tenant: Option<usize>) -> PanelView {
    PanelView {
        landed: if landing(p.landed, id) is Some {
            p.landed
        } else {
            p.landed.push(Landed { id, at, tenant })
        },
        ..p
    }
}

/// The panel once everyone the first `n` hops brought onto the server has landed, each under the
/// tenant the engine knows it by.
pub open spec fn land_all(p: PanelView, hops: Seq<Hop>, e: SimEngine, n: int) -> PanelView
    decreases n,
{
    if n <= 0 {
        p
    } else {
        let before = land_all(p, hops, e, n - 1);
        let hop = hops[n - 1];
        if hop.station is SynBacklog {
            land_one(before, hop.id, hop.t, spec_whose(e, hop.id))
        } else {
            before
        }
    }
}

/// Landing touches nobody but who is waiting to be let in.
proof fn landing_moves_nothing_else(p: PanelView, hops: Seq<Hop>, e: SimEngine, n: int)
    ensures
        land_all(p, hops, e, n) == (PanelView { landed: land_all(p, hops, e, n).landed, ..p }),
    decreases n,
{
    if n > 0 {
        landing_moves_nothing_else(p, hops, e, n - 1);
    }
}

/// The panel once a step of the engine is folded in: who landed, what was billed, what was banked.
pub open spec fn stepped(p: PanelView, e: SimEngine) -> PanelView {
    let landed = land_all(p, e.obs.hops@, e, e.obs.hops@.len() as int);
    let billed = folded(landed, e.obs);
    let after = trimmed(struck(billed, moved_on(p.t, e.obs.t)));
    PanelView {
        fares: banked(after.fares, e.ledger.fares@, e.ledger.fares@.len() as int),
        ..after
    }
}

/// A tenant's wire to the one server, as it stands.
pub open spec fn is_wire(w: Wire, e: SimEngine, shed: Seq<bool>, k: int) -> bool {
    let (live, n) = (e.obs.live@, e.obs.live@.len() as int);
    &&& w.tenant == k && w.server == 0
    &&& w.shed == shed[k]
    &&& w.sent@ == sent_by(live, n, e, k)
    &&& w.home@.len() == HOMEWARD@.len()
    &&& forall|lane: int|
        0 <= lane < HOMEWARD@.len() ==> (#[trigger] w.home@[lane])@ == riding(live, n, e, k, lane)
}

impl Desk {
    pub open spec fn wf(self) -> bool {
        &&& self.panel.wf()
        &&& self.controls.asks_for_one_thing()
        &&& self.rates@.len() == TENANT_COUNT
        &&& self.shed@.len() == TENANT_COUNT
    }

    /// The panel as it opens: at rest, every knob where its tenant starts, and nobody shedding.
    pub fn new() -> (d: Desk)
        ensures
            d.wf(),
            is_blank(d@.panel),
            d@ == (DeskView {
                controls: Controls {
                    running: false,
                    view: 0,
                    by_tenant: false,
                    untouched: true,
                    invited: false,
                    offered: false,
                    taken: false,
                    summed: None,
                },
                panel: d@.panel,
                held: 0,
                speed: OPENING,
                rates: Seq::new(TENANT_COUNT as nat, |k: int| spec_tenant(k).rate),
                shed: Seq::new(TENANT_COUNT as nat, |k: int| false),
            }),
    {
        let table = tenants();
        assert(table@[0] == spec_tenant(0) && table@[1] == spec_tenant(1) && table@[2]
            == spec_tenant(2));
        let rates: Vec<u64> = vec![table[0].rate, table[1].rate, table[2].rate];
        let shed: Vec<bool> = vec![false, false, false];
        assert(rates@ =~= Seq::new(TENANT_COUNT as nat, |k: int| spec_tenant(k).rate));
        assert(shed@ =~= Seq::new(TENANT_COUNT as nat, |k: int| false));
        let panel = Panel::new();
        assert(panel@.billed =~= seq![0u64, 0, 0]);
        assert(panel@.fares =~= seq![0u64, 0, 0]);
        Desk {
            controls: Controls::new(),
            panel,
            pace: Pace::new(),
            speed: OPENING,
            rates,
            shed,
        }
    }

    /// Take a message, and say what it asks for.
    pub fn turn(&mut self, msg: BlameMsg) -> (ask: BlameAsk)
        requires
            old(self).wf(),
            msg matches BlameMsg::Tick(dt) ==> ticked(old(self).panel.real_t, dt) <= u64::MAX,
        ensures
            final(self).wf(),
            exists|blank: PanelView| #[trigger]
                is_blank(blank) && final(self)@ == turned(old(self)@, msg, blank),
            ask == asked(old(self)@, msg),
    {
        let ghost before = self@;
        let opening = Panel::new();
        let ghost blank = opening@;
        proof {
            assert(blank.billed =~= seq![0u64, 0, 0]);
            assert(blank.fares =~= seq![0u64, 0, 0]);
            assert(is_blank(blank));
        }
        let ask = match msg {
            BlameMsg::Tick(dt) => {
                self.panel.tick_real(dt);
                self.controls.tick(self.panel.real_t);
                BlameAsk::Steps(self.pace.frame(dt))
            },
            BlameMsg::Resize => BlameAsk::Redraw,
            BlameMsg::View(view) => {
                self.controls.show(view);
                BlameAsk::Nothing
            },
            BlameMsg::Breakdown => {
                self.controls.breakdown();
                BlameAsk::Nothing
            },
            BlameMsg::Rate(tenant, rate) => {
                if let Some(k) = tenant_of(Some(tenant)) {
                    self.rates.set(k, rate);
                }
                BlameAsk::Retune(tenant, rate)
            },
            BlameMsg::Toggle => {
                self.controls.toggle();
                BlameAsk::Nothing
            },
            BlameMsg::Speed(raw) => {
                self.speed = raw;
                self.controls.speed(raw, OPENING);
                BlameAsk::Pace(raw)
            },
            BlameMsg::Reset => {
                self.panel = opening;
                self.pace = Pace::new();
                self.controls.reset();
                BlameAsk::Rebuild
            },
            BlameMsg::Measured(at) => BlameAsk::Place(at),
        };
        assert(self@ =~= turned(before, msg, blank));
        ask
    }

    /// Fold one step of the engine in. A request enters the window when it lands on the server,
    /// under the tenant the engine knows it by; then the frame is billed, and what was banked since
    /// the last one goes to the tenants it names.
    pub fn fold(&mut self, engine: &mut SimEngine) -> (sample: Option<LongSample>)
        requires
            old(self).wf(),
            old(engine).wf(),
            old(self)@.panel.room_for(old(engine).obs.blame.spans@),
            old(engine).obs.t + LONG_SAMPLE <= u64::MAX,
            forall|k: int|
                0 <= k < TENANT_COUNT ==> (#[trigger] old(self).panel.fares@[k]) + fare_sum(
                    old(engine).ledger.fares@,
                    old(engine).ledger.fares@.len() as int,
                ) <= u64::MAX,
        ensures
            final(self).wf(),
            final(self)@ == (DeskView {
                panel: stepped(old(self)@.panel, *old(engine)),
                ..old(self)@
            }),
            ({
                let p = land_all(
                    old(self)@.panel,
                    old(engine).obs.hops@,
                    *old(engine),
                    old(engine).obs.hops@.len() as int,
                );
                let dt = moved_on(old(self).panel.t, old(engine).obs.t);
                let billed = folded(p, old(engine).obs);
                &&& sample is Some <==> sample_due(billed, dt)
                &&& sample matches Some(s) ==> s.billed@ == billed.billed && s.over
                    == billed.gathered + dt
            }),
            final(engine).ledger.fares@.len() == 0,
            *final(engine) == (SimEngine { ledger: final(engine).ledger, ..*old(engine) }),
    {
        let ghost before = self@;
        let ghost e = *engine;
        let mut i: usize = 0;
        while i < engine.obs.hops.len()
            invariant
                i <= engine.obs.hops@.len(),
                *engine == e,
                e.wf(),
                self.wf(),
                self@ == (DeskView {
                    panel: land_all(before.panel, e.obs.hops@, e, i as int),
                    ..before
                }),
            decreases engine.obs.hops@.len() - i,
        {
            let hop: Hop = engine.obs.hops[i];
            if let Station::SynBacklog { .. } = hop.station {
                let tenant: Option<usize> = engine.whose(hop.id);
                self.panel.land(hop.id, hop.t, tenant);
            }
            i += 1;
        }
        proof {
            landing_moves_nothing_else(before.panel, e.obs.hops@, e, e.obs.hops@.len() as int);
        }
        let sample = self.panel.absorb(&engine.obs);
        let fares = engine.take_fares();
        self.panel.bank(&fares);
        sample
    }

    /// Sum the tables up where they are due, and with them how each tenant's traffic has been
    /// going, which the next frame's wires wear.
    pub fn sum_up(&mut self, now: Ticks, every: Ticks, done: &VecDeque<Record>) -> (due: bool)
        requires
            old(self).wf(),
        ensures
            final(self).wf(),
            due == (match old(self).controls.summed {
                Some(at) => now - at >= every,
                None => true,
            }),
            final(self)@ == (if due {
                DeskView {
                    controls: Controls { summed: Some(now), ..old(self).controls },
                    shed: Seq::new(TENANT_COUNT as nat, |k: int| any_shed(done@, k)),
                    ..old(self)@
                }
            } else {
                old(self)@
            }),
    {
        if !self.controls.summary_due(now, every) {
            return false;
        }
        let each = Traffic::of_each(done);
        let mut shed: Vec<bool> = Vec::new();
        let mut k: usize = 0;
        while k < TENANT_COUNT
            invariant
                k <= TENANT_COUNT,
                each@.len() == TENANT_COUNT,
                forall|j: int|
                    0 <= j < TENANT_COUNT ==> #[trigger] each@[j] == if any_shed(done@, j) {
                        Traffic::Shed
                    } else {
                        Traffic::Served
                    },
                shed@.len() == k,
                forall|j: int| 0 <= j < k ==> #[trigger] shed@[j] == any_shed(done@, j),
            decreases TENANT_COUNT - k,
        {
            shed.push(each[k] == Traffic::Shed);
            k += 1;
        }
        self.shed = shed;
        assert(self.shed@ =~= Seq::new(TENANT_COUNT as nat, |k: int| any_shed(done@, k)));
        true
    }

    /// The tenants' wires to the one server, each carrying the requests the engine has on it.
    pub fn wires(&self, engine: &SimEngine) -> (wires: Vec<Wire>)
        requires
            self.wf(),
            engine.wf(),
            legs_placed(engine.obs.live@),
        ensures
            wires@.len() == TENANT_COUNT,
            forall|k: int|
                0 <= k < TENANT_COUNT ==> is_wire(#[trigger] wires@[k], *engine, self.shed@, k),
    {
        let OnTheWire { mut out, mut home } = on_the_wire(engine);
        let ghost (outs, homes) = (out@, home@);
        let mut wires: Vec<Wire> = Vec::new();
        let mut k: usize = 0;
        while k < TENANT_COUNT
            invariant
                k <= TENANT_COUNT,
                self.wf(),
                outs.len() == TENANT_COUNT,
                homes.len() == TENANT_COUNT,
                out@ == outs.skip(k as int),
                home@ == homes.skip(k as int),
                forall|j: int|
                    0 <= j < TENANT_COUNT ==> (#[trigger] outs[j])@ == sent_by(
                        engine.obs.live@,
                        engine.obs.live@.len() as int,
                        *engine,
                        j,
                    ),
                forall|j: int|
                    0 <= j < TENANT_COUNT ==> (#[trigger] homes[j])@.len() == HOMEWARD@.len(),
                forall|j: int, lane: int|
                    0 <= j < TENANT_COUNT && 0 <= lane < HOMEWARD@.len() ==> (
                    #[trigger] homes[j]@[lane])@ == riding(
                        engine.obs.live@,
                        engine.obs.live@.len() as int,
                        *engine,
                        j,
                        lane,
                    ),
                wires@.len() == k,
                forall|j: int|
                    0 <= j < k ==> is_wire(#[trigger] wires@[j], *engine, self.shed@, j),
            decreases TENANT_COUNT - k,
        {
            let sent = out.remove(0);
            let lanes = home.remove(0);
            assert(sent == outs[k as int] && lanes == homes[k as int]);
            assert(out@ =~= outs.skip(k + 1));
            assert(home@ =~= homes.skip(k + 1));
            let wire = Wire { tenant: k, server: 0, shed: self.shed[k], sent, home: lanes };
            assert(is_wire(wire, *engine, self.shed@, k as int));
            wires.push(wire);
            k += 1;
        }
        wires
    }

    /// Who is on each busy core, as the pips wear it: nobody unless the picture is broken down by
    /// tenant.
    pub fn core_ink(&self, engine: &SimEngine) -> (ink: Vec<Paint>)
        requires
            engine.wf(),
        ensures
            !self.controls.by_tenant ==> ink@.len() == 0,
            self.controls.by_tenant ==> exists|order: Seq<Held>|
                #![trigger puts_in_order(held_of(engine.obs.cpu@, engine.obs.cpu@.len() as int), order)]
                puts_in_order(held_of(engine.obs.cpu@, engine.obs.cpu@.len() as int), order)
                    && ink@.len() == order.len() && (forall|i: int|
                    0 <= i < order.len() ==> #[trigger] ink@[i] == core_ink(*engine, order[i].id)),
    {
        if self.controls.by_tenant {
            core_ink_of(engine)
        } else {
            Vec::new()
        }
    }
}

/// A fresh machine leaves the knobs where the reader put them: the rates they set are theirs, the
/// run they were watching is not.
pub proof fn a_reset_keeps_the_knobs(d: DeskView, blank: PanelView)
    ensures
        turned(d, BlameMsg::Reset, blank).rates == d.rates,
        turned(d, BlameMsg::Reset, blank).speed == d.speed,
        turned(d, BlameMsg::Reset, blank).controls.running == d.controls.running,
        turned(d, BlameMsg::Reset, blank).panel == blank,
{
}

/// Each message turns what it names and nothing else. Time goes forward with the clock and never
/// back; a knob is its own tenant's; the two switches, thrown twice, are where they were; and a
/// speed over the one it opened at takes the invitation up.
pub proof fn a_message_turns_what_it_names(
    d: DeskView,
    blank: PanelView,
    dt: i64,
    view: usize,
    raw: u32,
    tenant: &'static str,
    rate: u64,
    k: int,
)
    requires
        d.rates.len() == TENANT_COUNT,
        0 <= k < TENANT_COUNT,
        dt > 0 ==> d.panel.real_t + dt <= u64::MAX,
    ensures
        ({
            let after = turned(d, BlameMsg::Tick(dt), blank);
            &&& dt >= 0 ==> after.panel.real_t == d.panel.real_t + dt
            &&& dt < 0 ==> after.panel.real_t == d.panel.real_t
            &&& after.panel == (PanelView { real_t: after.panel.real_t, ..d.panel })
            &&& after.speed == d.speed && after.rates == d.rates && after.shed == d.shed
            &&& after.controls.invited != d.controls.invited ==> after.panel.real_t >= 20_000_000
                && !d.controls.untouched && !d.controls.taken && !d.controls.offered
        }),
        turned(d, BlameMsg::View(view), blank) == (DeskView {
            controls: Controls { view, ..d.controls },
            ..d
        }),
        turned(turned(d, BlameMsg::Toggle, blank), BlameMsg::Toggle, blank) == d,
        turned(d, BlameMsg::Toggle, blank).controls.running != d.controls.running,
        turned(
            turned(d, BlameMsg::Breakdown, blank),
            BlameMsg::Breakdown,
            blank,
        ).controls.by_tenant == d.controls.by_tenant,
        turned(d, BlameMsg::Breakdown, blank).controls.by_tenant != d.controls.by_tenant,
        !turned(d, BlameMsg::Breakdown, blank).controls.untouched,
        turned(d, BlameMsg::Breakdown, blank).controls.summed is None,
        turned(d, BlameMsg::Rate(tenant, rate), blank).rates[k] == if spec_tenant_of(Some(tenant@))
            == Some(k) {
            rate
        } else {
            d.rates[k]
        },
        turned(d, BlameMsg::Speed(raw), blank).speed == raw,
        raw > 50 ==> turned(d, BlameMsg::Speed(raw), blank).controls.taken && !turned(
            d,
            BlameMsg::Speed(raw),
            blank,
        ).controls.invited,
        raw <= 50 ==> turned(d, BlameMsg::Speed(raw), blank).controls == d.controls,
        turned(d, BlameMsg::Resize, blank) == d,
        turned(d, BlameMsg::Reset, blank).held == 0 && turned(
            d,
            BlameMsg::Reset,
            blank,
        ).controls.summed is None,
{
}

/// What is asked of the engine is what was turned: the time that passed, in whole steps, with the
/// rest held over; the rate to the tenant named; the speed; a fresh engine on a reset.
pub proof fn what_is_asked_is_what_was_turned(
    d: DeskView,
    blank: PanelView,
    dt: i64,
    tenant: &'static str,
    rate: u64,
    raw: u32,
    view: usize,
)
    requires
        d.held < STEP,
    ensures
        0 <= dt && d.held + 3 * dt <= 300_000 ==> (asked(d, BlameMsg::Tick(dt)) matches BlameAsk::Steps(
            n,
        ) && 100_000 * n + turned(d, BlameMsg::Tick(dt), blank).held == d.held + 3 * dt),
        asked(d, BlameMsg::Rate(tenant, rate)) == BlameAsk::Retune(tenant, rate),
        asked(d, BlameMsg::Speed(raw)) == BlameAsk::Pace(raw),
        asked(d, BlameMsg::Reset) is Rebuild && asked(d, BlameMsg::Resize) is Redraw,
        asked(d, BlameMsg::View(view)) is Nothing && asked(d, BlameMsg::Breakdown) is Nothing
            && asked(d, BlameMsg::Toggle) is Nothing,
{
}

/// A landing is found by its request, and none only where that request has not landed.
pub proof fn a_landing_is_found_by_its_request(landed: Seq<Landed>, id: u32)
    ensures
        landing(landed, id) matches Some(who) ==> who.id == id && landed.contains(who),
        landing(landed, id) is None <==> forall|i: int|
            0 <= i < landed.len() ==> (#[trigger] landed[i]).id != id,
    decreases landed.len(),
{
    if landed.len() > 0 {
        a_landing_is_found_by_its_request(landed.drop_last(), id);
        let front = landed.drop_last();
        if landed.last().id == id {
            assert(landed[landed.len() - 1] == landed.last());
        } else if landing(landed, id) is Some {
            let who = landing(front, id)->0;
            let i = choose|i: int| 0 <= i < front.len() && front[i] == who;
            assert(landed[i] == who);
        } else {
            assert forall|i: int| 0 <= i < landed.len() implies (#[trigger] landed[i]).id != id by {
                if i < front.len() {
                    assert(front[i] == landed[i]);
                }
            }
        }
        if forall|i: int| 0 <= i < landed.len() ==> (#[trigger] landed[i]).id != id {
            assert(landed[landed.len() - 1].id != id);
            assert forall|i: int| 0 <= i < front.len() implies (#[trigger] front[i]).id != id by {
                assert(landed[i].id != id);
            }
        }
    }
}

/// A request lands once: when it first comes to stand in the kernel's queue, under its own tenant,
/// and at that instant. Nothing else it does is a landing, and nothing lands in its place.
pub proof fn a_request_lands_once(p: PanelView, hops: Seq<Hop>, e: SimEngine, n: int)
    requires
        0 < n <= hops.len(),
    ensures
        ({
            let (before, after) = (land_all(p, hops, e, n - 1), land_all(p, hops, e, n));
            let hop = hops[n - 1];
            let fresh = hop.station is SynBacklog && forall|i: int|
                0 <= i < before.landed.len() ==> (#[trigger] before.landed[i]).id != hop.id;
            &&& fresh ==> after.landed == before.landed.push(
                Landed { id: hop.id, at: hop.t, tenant: spec_whose(e, hop.id) },
            )
            &&& !fresh ==> after.landed == before.landed
            &&& after == (PanelView { landed: after.landed, ..before })
        }),
{
    a_landing_is_found_by_its_request(land_all(p, hops, e, n - 1).landed, hops[n - 1].id);
}

/// A step takes a frame in whole: its landings before its bills, its bills before its tallies are
/// struck, and its fares banked on top of what was banked.
pub proof fn a_step_takes_a_frame_in_whole(p: PanelView, e: SimEngine)
    ensures
        ({
            let after = stepped(p, e);
            let n = e.ledger.fares@.len() as int;
            &&& after.t == e.obs.t && after.meter == e.obs.blame.meter && after.occupiers
                == e.obs.blame.occupiers@
            &&& after.fares == banked(p.fares, e.ledger.fares@, n)
            &&& after.real_t == p.real_t && after.epoch == p.epoch
        }),
{
    a_landing_moves_nothing_else(p, e.obs.hops@, e, e.obs.hops@.len() as int);
}

proof fn a_landing_moves_nothing_else(p: PanelView, hops: Seq<Hop>, e: SimEngine, n: int)
    requires
        0 <= n <= hops.len(),
    ensures
        land_all(p, hops, e, n) == (PanelView { landed: land_all(p, hops, e, n).landed, ..p }),
    decreases n,
{
    if n > 0 {
        a_landing_moves_nothing_else(p, hops, e, n - 1);
    }
}

/// A tenant's wire carries its own sends out and its own verdicts home, each verdict on its own
/// lane, and is marked shed where the tenant has been.
pub proof fn a_wire_carries_its_own_tenants(
    w: Wire,
    e: SimEngine,
    shed: Seq<bool>,
    k: int,
    lane: int,
)
    requires
        is_wire(w, e, shed, k),
        0 <= lane < HOMEWARD@.len(),
    ensures
        ({
            let (live, n) = (e.obs.live@, e.obs.live@.len() as int);
            &&& w.tenant == k && w.server == 0 && w.shed == shed[k]
            &&& w.sent@ == sent_by(live, n, e, k)
            &&& w.home@.len() == HOMEWARD@.len() && w.home@[lane]@ == riding(live, n, e, k, lane)
        }),
{
}

} // verus!
