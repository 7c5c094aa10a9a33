//! The cluster's zoom: the fleet, or one server of it drawn in full.

use vstd::prelude::*;

use crate::cluster::{HEALTHY_RATE, SERVERS};
use crate::pace::{gathered, Pace, STEP};

verus! {

/// The zoom and what it shows: which server is drawn in full, what each is running at, whether the
/// way up still glows, and whether the still has been released.
pub struct Zoom {
    /// The server drawn in full, or nothing where the fleet is.
    pub focus: Option<usize>,
    pub rates: Vec<u64>,
    /// Whether the reader has still to climb out and meet the rest.
    pub invited: bool,
    pub running: bool,
    /// What has been gathered toward the focused picture's next step.
    pub pace: Pace,
    /// How many times the focused picture's motion has started over.
    pub restarts: u64,
}

#[verifier::ext_equal]
pub struct ZoomView {
    pub focus: Option<usize>,
    pub rates: Seq<u64>,
    pub invited: bool,
    pub running: bool,
    pub held: u64,
    pub restarts: u64,
}

impl View for Zoom {
    type V = ZoomView;

    open spec fn view(&self) -> ZoomView {
        ZoomView {
            focus: self.focus,
            rates: self.rates@,
            invited: self.invited,
            running: self.running,
            held: self.pace.held,
            restarts: self.restarts,
        }
    }
}

/// What the clock, the layout or the reader does to the cluster.
#[derive(Clone, Copy, PartialEq, Eq, Structural, Debug)]
pub enum FleetMsg {
    /// A rendered frame of this many microseconds.
    Tick(i64),
    /// The stage was measured to another width: a focused picture's motion starts over.
    Resize,
    /// Drill into a server: the knob shows the load it is running, and its dots start in the new
    /// picture rather than where the last one's were.
    Focus(usize),
    /// Climb out to the fleet. The invitation is answered, and never glows again.
    Up,
    /// Move the focused server's rate, and nobody else's; with the fleet drawn there is no knob to
    /// move.
    Qps(u64),
    /// Release the still. Clicking the machine only ever starts it.
    Start,
    /// Run or pause.
    Toggle,
}

/// What a message asks of the cluster.
#[derive(Clone, Copy, PartialEq, Eq, Structural, Debug)]
pub enum FleetAsk {
    Nothing,
    /// Advance every server in whole steps, this many of them, each folded into the focused
    /// picture, so that its motion is even.
    Steps(u64),
    /// Advance every server by the frame itself.
    Whole,
    /// Show the load a server is running.
    Show(u64),
    /// Move a server's rate.
    Retune(usize, u64),
}

/// The zoom once a message is in.
pub open spec fn zoomed(z: ZoomView, msg: FleetMsg) -> ZoomView {
    match msg {
        FleetMsg::Tick(dt) => if z.focus is Some {
            ZoomView { held: (gathered(z.held, dt) % (STEP as int)) as u64, ..z }
        } else {
            z
        },
        FleetMsg::Resize => if z.focus is Some {
            ZoomView { held: 0, restarts: (z.restarts + 1) as u64, ..z }
        } else {
            z
        },
        FleetMsg::Focus(k) => ZoomView {
            focus: Some(k),
            held: 0,
            restarts: (z.restarts + 1) as u64,
            ..z
        },
        FleetMsg::Up => ZoomView { focus: None, invited: false, ..z },
        FleetMsg::Qps(rate) => match z.focus {
            Some(k) => ZoomView { rates: z.rates.update(k as int, rate), ..z },
            None => z,
        },
        FleetMsg::Start => ZoomView { running: true, ..z },
        FleetMsg::Toggle => ZoomView { running: !z.running, ..z },
    }
}

/// What a message asks of the cluster.
pub open spec fn asked(z: ZoomView, msg: FleetMsg) -> FleetAsk {
    match msg {
        FleetMsg::Tick(dt) => if z.focus is Some {
            FleetAsk::Steps((gathered(z.held, dt) / (STEP as int)) as u64)
        } else {
            FleetAsk::Whole
        },
        FleetMsg::Focus(k) => FleetAsk::Show(z.rates[k as int]),
        FleetMsg::Qps(rate) => match z.focus {
            Some(k) => FleetAsk::Retune(k, rate),
            None => FleetAsk::Nothing,
        },
        _ => FleetAsk::Nothing,
    }
}

impl Zoom {
    pub open spec fn wf(self) -> bool {
        &&& self.rates@.len() == SERVERS
        &&& self.focus matches Some(k) ==> k < SERVERS
    }

    /// The reader opens on the first server, at rest.
    pub fn new() -> (z: Zoom)
        ensures
            z.wf(),
            z@ == (ZoomView {
                focus: Some(0),
                rates: Seq::new(SERVERS as nat, |k: int| HEALTHY_RATE),
                invited: true,
                running: false,
                held: 0,
                restarts: 0,
            }),
    {
        let mut rates: Vec<u64> = Vec::new();
        let mut k: usize = 0;
        while k < SERVERS
            invariant
                k <= SERVERS,
                rates@.len() == k,
                forall|j: int| 0 <= j < k ==> #[trigger] rates@[j] == HEALTHY_RATE,
            decreases SERVERS - k,
        {
            rates.push(HEALTHY_RATE);
            k += 1;
        }
        assert(rates@ =~= Seq::new(SERVERS as nat, |k: int| HEALTHY_RATE));
        Zoom {
            focus: Some(0),
            rates,
            invited: true,
            running: false,
            pace: Pace::new(),
            restarts: 0,
        }
    }

    /// Take a message, and say what it asks of the cluster.
    pub fn turn(&mut self, msg: FleetMsg) -> (ask: FleetAsk)
        requires
            old(self).wf(),
            msg matches FleetMsg::Focus(k) ==> k < SERVERS,
            old(self).restarts < u64::MAX,
        ensures
            final(self).wf(),
            final(self)@ == zoomed(old(self)@, msg),
            ask == asked(old(self)@, msg),
    {
        match msg {
            FleetMsg::Tick(dt) => {
                if self.focus.is_some() {
                    FleetAsk::Steps(self.pace.frame(dt))
                } else {
                    FleetAsk::Whole
                }
            },
            FleetMsg::Resize => {
                if self.focus.is_some() {
                    self.pace = Pace::new();
                    self.restarts = self.restarts + 1;
                }
                FleetAsk::Nothing
            },
            FleetMsg::Focus(k) => {
                self.focus = Some(k);
                self.pace = Pace::new();
                self.restarts = self.restarts + 1;
                FleetAsk::Show(self.rates[k])
            },
            FleetMsg::Up => {
                self.focus = None;
                self.invited = false;
                FleetAsk::Nothing
            },
            FleetMsg::Qps(rate) => {
                match self.focus {
                    Some(k) => {
                        self.rates.set(k, rate);
                        FleetAsk::Retune(k, rate)
                    },
                    None => FleetAsk::Nothing,
                }
            },
            FleetMsg::Start => {
                self.running = true;
                FleetAsk::Nothing
            },
            FleetMsg::Toggle => {
                self.running = !self.running;
                FleetAsk::Nothing
            },
        }
    }
}

/// Once the reader has climbed out, the invitation never glows again, whatever they do next.
pub proof fn the_way_up_is_asked_once(z: ZoomView, msg: FleetMsg)
    ensures
        !z.invited ==> !zoomed(z, msg).invited,
        !zoomed(z, FleetMsg::Up).invited,
{
}

/// Only the knob moves a rate, and only the focused server's.
pub proof fn a_knob_moves_one_server(z: ZoomView, msg: FleetMsg, k: int)
    requires
        0 <= k < z.rates.len(),
        z.focus matches Some(f) ==> f < z.rates.len(),
    ensures
        zoomed(z, msg).rates[k] != z.rates[k] ==> msg is Qps && z.focus == Some(k as usize),
{
}

/// Each message turns what it names: looking into a server and out again, its own rate and no
/// other's, running over and back; and whoever looks in, or is redrawn looking, starts the picture
/// over.
pub proof fn a_message_turns_what_it_names(z: ZoomView, k: usize, rate: u64, dt: i64)
    requires
        k < z.rates.len(),
        z.restarts < u64::MAX,
    ensures
        zoomed(z, FleetMsg::Focus(k)).focus == Some(k),
        zoomed(z, FleetMsg::Focus(k)).held == 0 && zoomed(z, FleetMsg::Focus(k)).restarts
            == z.restarts + 1,
        zoomed(z, FleetMsg::Focus(k)).rates == z.rates && zoomed(z, FleetMsg::Focus(k)).running
            == z.running && zoomed(z, FleetMsg::Focus(k)).invited == z.invited,
        zoomed(z, FleetMsg::Up).focus is None,
        zoomed(z, FleetMsg::Up).rates == z.rates && zoomed(z, FleetMsg::Up).running == z.running,
        zoomed(zoomed(z, FleetMsg::Toggle), FleetMsg::Toggle) == z,
        zoomed(z, FleetMsg::Toggle).running != z.running,
        zoomed(z, FleetMsg::Start) == (ZoomView { running: true, ..z }),
        z.focus == Some(k) ==> zoomed(z, FleetMsg::Qps(rate)).rates[k as int] == rate,
        z.focus is None ==> zoomed(z, FleetMsg::Qps(rate)) == z && zoomed(z, FleetMsg::Tick(dt))
            == z && zoomed(z, FleetMsg::Resize) == z,
        z.focus is Some ==> zoomed(z, FleetMsg::Resize).held == 0 && zoomed(
            z,
            FleetMsg::Resize,
        ).restarts == z.restarts + 1 && zoomed(z, FleetMsg::Resize).focus == z.focus,
        zoomed(z, FleetMsg::Tick(dt)) == (ZoomView {
            held: zoomed(z, FleetMsg::Tick(dt)).held,
            ..z
        }),
{
}

/// What is asked of the engines is what was turned: the server looked into is shown at its own rate,
/// its rate is handed to it alone, and the time that passed is played, to the whole fleet where
/// nobody looks into one of it.
pub proof fn what_is_asked_is_what_was_turned(z: ZoomView, k: usize, rate: u64, dt: i64)
    requires
        k < z.rates.len(),
        z.held < STEP,
        z.restarts < u64::MAX,
    ensures
        asked(z, FleetMsg::Focus(k)) == FleetAsk::Show(z.rates[k as int]),
        z.focus == Some(k) ==> asked(z, FleetMsg::Qps(rate)) == FleetAsk::Retune(k, rate),
        z.focus is None ==> asked(z, FleetMsg::Qps(rate)) is Nothing && asked(
            z,
            FleetMsg::Tick(dt),
        ) is Whole,
        z.focus is Some && 0 <= dt && z.held + 3 * dt <= 300_000 ==> (asked(z, FleetMsg::Tick(dt))
            matches FleetAsk::Steps(n) && 100_000 * n + zoomed(z, FleetMsg::Tick(dt)).held == z.held
            + 3 * dt),
        asked(z, FleetMsg::Up) is Nothing && asked(z, FleetMsg::Toggle) is Nothing && asked(
            z,
            FleetMsg::Start,
        ) is Nothing && asked(z, FleetMsg::Resize) is Nothing,
{
}

} // verus!
