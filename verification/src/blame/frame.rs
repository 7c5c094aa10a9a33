//! The panel as geometry and readings: everything that is drawn of it.
//!
//! A settled cell never changes; only the window moves. So what is drawn is laid out in
//! virtual-time coordinates on a track that does not move, and the window slides across it. The
//! track is finite, so the instant it is measured from is re-based when the window nears its end.

use vstd::prelude::*;

use crate::atoms::stage::Paint;
use crate::blame::panel::{
    has_track, in_order, known, slot_of, Echo, Panel, PanelView, Wall, GHOST_FADE, WINDOW,
};
use crate::blame::tracks::{sum_is_no_debt, Track, TrackView};
use crate::engine::clock::{Part, Ticks};
use crate::engine::request::{spec_tenant, tenants, TENANT_COUNT};
use crate::engine::spans::BlameSpan;
use crate::order::{order_keeps_the_readings, ordered, put_in_order, puts_in_order, Keyed};
use crate::text::{
    decimal, digits, grouped, grouped_text, nearest_even, nearest_up, push_text, tenths,
    tenths_text, to_nearest_even, to_nearest_up,
};

verus! {

/// A place along the track, in thirteenths of a tick: fine enough that every share of the plot
/// used here is a whole number of them.
pub type Fine = u128;

/// Thirteenths of a tick in one tick.
pub const FINE: u64 = 13;

/// How long the track is: eight windows.
pub const TRACK: Fine = 83_200_000_000_000;

/// How long the window is, along the track.
pub const PLOT: Fine = 10_400_000_000_000;

/// The least a band is drawn wide.
pub const LEAST_BAND: Fine = 16_000_000_000;

/// The least a cell or a bar is drawn wide.
pub const LEAST_CELL: Fine = 12_800_000_000;

/// How far past its bar a label stands.
pub const LABEL_GAP: Fine = 64_000_000_000;

/// How far into the window a bar's end may be for its label still to have room before now.
pub const LABEL_ROOM: Fine = 7_200_000_000_000;

/// How far a ghost's echo reaches along the strip, in virtual time.
pub const GHOST_REACH: Ticks = 69_333_333_333;

/// Where the taximeter bar reads full.
pub const METER_FULL: Ticks = 60_000_000_000;

/// Ticks in a microsecond, and in a tenth of a millisecond.
pub const MICRO: Ticks = 1_000_000;

pub const TENTH: Ticks = 100_000_000;

/// One shut interval.
#[derive(Clone, Copy, PartialEq, Eq, Structural, Debug)]
pub struct Band {
    pub key: usize,
    pub x: Fine,
    pub w: Fine,
}

/// One occupier's share of one interval, or the echo of the last of them.
#[derive(Clone, Copy, PartialEq, Eq, Structural, Debug)]
pub struct Cell {
    pub key: u64,
    pub paint: Paint,
    /// Whether the meter was winding across it.
    pub solid: bool,
    /// How far an echo has faded.
    pub fade: Option<Part>,
    pub x: Fine,
    pub w: Fine,
    /// Its place in the lattice, and how many share it.
    pub pos: usize,
    pub n: usize,
}

/// One request's row on the conveyor.
pub struct Row {
    pub key: u32,
    /// How many rows up from the foot it belongs.
    pub up: usize,
    pub finished: bool,
    /// Whether any of it is still inside the window.
    pub showing: bool,
    pub paint: Paint,
    /// Where it arrived, where it was let in, where it ends, and how wide it is drawn.
    pub x: Fine,
    pub since: Fine,
    pub end: Fine,
    pub w: Fine,
    pub label: String,
    pub label_left: Fine,
}

/// One lane's taximeter.
pub struct Meter {
    pub key: usize,
    pub taken: bool,
    pub paint: Paint,
    pub name: String,
    pub filled: Part,
    pub tick: String,
    pub accrued: String,
}

/// One tenant's total.
pub struct Total {
    pub key: usize,
    pub paint: Paint,
    pub id: &'static str,
    pub total: String,
}

/// Everything the view binds to.
pub struct PanelFrame {
    /// Where the window sits on the track.
    pub offset: Fine,
    pub bands: Vec<Band>,
    pub cells: Vec<Cell>,
    pub rows: Vec<Row>,
    pub meters: Vec<Meter>,
    pub totals: Vec<Total>,
}

/// The instant the track measures from, re-based before the window runs off its end.
pub open spec fn based(p: PanelView) -> Ticks {
    if p.t - p.epoch > 7 * WINDOW {
        (p.t - WINDOW) as Ticks
    } else {
        p.epoch
    }
}

/// An instant's place on the track. One older than the track can hold stands at its start.
pub open spec fn at(epoch: Ticks, t: int) -> int {
    if t > epoch {
        FINE * (t - epoch)
    } else {
        0
    }
}

/// How wide a span is drawn: its own width, or the least there is.
pub open spec fn wide(from: int, to: int, least: int) -> int {
    if to - from > least {
        to - from
    } else {
        least
    }
}

/// A tenant's colour, or the machine's where there is none.
pub open spec fn tint(tenant: Option<usize>) -> Paint {
    match tenant {
        Some(k) => spec_tenant(k as int).tint,
        None => Paint::Core,
    }
}

pub open spec fn spec_band(epoch: Ticks, key: int, s: (Ticks, Ticks)) -> Band {
    Band {
        key: key as usize,
        x: at(epoch, s.0 as int) as Fine,
        w: wide(at(epoch, s.0 as int), at(epoch, s.1 as int), LEAST_BAND as int) as Fine,
    }
}

/// At least one shares the lattice.
pub open spec fn at_least_one(n: usize) -> usize {
    if n == 0 {
        1
    } else {
        n
    }
}

pub open spec fn spec_cell(epoch: Ticks, track: TrackView, i: int) -> Cell {
    let c = track.cells[i];
    Cell {
        key: (track.id as u64) << 16 | i as u64,
        paint: tint(track.tenant),
        solid: c.accrual > 0,
        fade: None,
        x: at(epoch, c.t_a as int) as Fine,
        w: wide(at(epoch, c.t_a as int), at(epoch, c.t_b as int), LEAST_CELL as int) as Fine,
        pos: c.pos,
        n: at_least_one(c.n),
    }
}

/// The drawn cells among a request's first `n`.
pub open spec fn cells_of(epoch: Ticks, t: Ticks, track: TrackView, n: int) -> Seq<Cell>
    decreases n,
{
    if n <= 0 {
        Seq::empty()
    } else {
        let before = cells_of(epoch, t, track, n - 1);
        if track.cells[n - 1].t_b + WINDOW > t {
            before.push(spec_cell(epoch, track, n - 1))
        } else {
            before
        }
    }
}

/// The drawn cells of the first `m` requests.
pub open spec fn live_cells(epoch: Ticks, t: Ticks, tracks: Seq<TrackView>, m: int) -> Seq<Cell>
    decreases m,
{
    if m <= 0 {
        Seq::empty()
    } else {
        live_cells(epoch, t, tracks, m - 1) + cells_of(
            epoch,
            t,
            tracks[m - 1],
            tracks[m - 1].cells.len() as int,
        )
    }
}

/// The echo at place `i`, keyed past every live cell.
pub open spec fn spec_echo(epoch: Ticks, t: Ticks, real_t: Wall, g: Echo, i: int) -> Cell {
    let to = if g.out + GHOST_REACH < t {
        g.out + GHOST_REACH
    } else {
        t as int
    };
    Cell {
        key: (u64::MAX - i) as u64,
        paint: tint(g.tenant),
        solid: true,
        fade: Some(Part::spec_of(g.born, GHOST_FADE, real_t)),
        x: at(epoch, g.out as int) as Fine,
        w: wide(at(epoch, g.out as int), at(epoch, to), LEAST_CELL as int) as Fine,
        pos: g.pos,
        n: at_least_one(g.n),
    }
}

/// Every drawn cell: the live ones, and the echoes of the last.
pub open spec fn spec_cells(p: PanelView, epoch: Ticks) -> Seq<Cell> {
    live_cells(epoch, p.t, p.tracks, p.tracks.len() as int) + Seq::new(
        p.ghosts.len(),
        |i: int| spec_echo(epoch, p.t, p.real_t, p.ghosts[i], i),
    )
}

/// A track's place on the conveyor: finished requests first, in the order they left, and live
/// ones after them in entry order.
#[derive(Clone, Copy, PartialEq, Eq, Structural, Debug)]
pub struct Slot {
    pub out: Option<Ticks>,
    pub id: u32,
    pub index: usize,
}

impl Keyed for Slot {
    open spec fn key(self) -> int {
        match self.out {
            Some(out) => out * 0x1_0000_0000 + self.id,
            None => 0x1_0000_0000_0000_0000 * 0x1_0000_0000 + self.id,
        }
    }

    fn no_later(&self, other: &Self) -> (b: bool) {
        match (self.out, other.out) {
            (Some(a), Some(b)) => a < b || a == b && self.id <= other.id,
            (Some(_), None) => true,
            (None, Some(_)) => false,
            (None, None) => self.id <= other.id,
        }
    }
}

/// The tracks' places, in track order.
pub open spec fn slots(tracks: Seq<TrackView>) -> Seq<Slot> {
    Seq::new(
        tracks.len(),
        |i: int| Slot { out: tracks[i].out, id: tracks[i].id, index: i as usize },
    )
}

/// A stretch of time in milliseconds, to a tenth.
pub open spec fn ms_text(from: Ticks, to: Ticks) -> Seq<char> {
    if to >= from {
        tenths_text(nearest_even((to - from) as nat, TENTH as nat))
    } else {
        "-"@ + tenths_text(nearest_even((from - to) as nat, TENTH as nat))
    }
}

/// A bill, in microseconds.
pub open spec fn micros_text(owed: int) -> Seq<char> {
    grouped_text(nearest_up(owed as nat, MICRO as nat))
}

/// What a finished row reads.
pub open spec fn label_text(track: TrackView, end: Ticks) -> Seq<char> {
    ms_text(track.at, track.since) + " ms queue + "@ + ms_text(track.since, end)
        + " ms processing = "@ + ms_text(track.at, end) + " ms ("@ + micros_text(track.owed)
        + " µs blame)"@
}

/// When a request's row ends: when it left, or now.
pub open spec fn ends(track: TrackView, t: Ticks) -> Ticks {
    match track.out {
        Some(out) => out,
        None => t,
    }
}

/// Whether a bar has cleared now by the room its label needs.
pub open spec fn cleared(end: int, offset: int) -> bool {
    end < offset + LABEL_ROOM
}

/// Whether `row` is this request's, `up` rows from the foot.
pub open spec fn shows(row: Row, p: PanelView, epoch: Ticks, track: TrackView, up: int) -> bool {
    let end = ends(track, p.t);
    let (x, since, x1) = (
        at(epoch, track.at as int),
        at(epoch, track.since as int),
        at(epoch, end as int),
    );
    &&& row.key == track.id
    &&& row.up == up
    &&& row.finished == track.out is Some
    &&& row.showing == (end + WINDOW > p.t)
    &&& row.paint == tint(track.tenant)
    &&& row.x == x
    &&& row.since == since
    &&& row.end == x1
    &&& row.w == wide(x, x1, LEAST_CELL as int)
    &&& row.label@ == if cleared(x1, at(epoch, p.t - WINDOW)) {
        label_text(track, end)
    } else {
        Seq::empty()
    }
    &&& row.label_left == x1 + LABEL_GAP
}

/// Whether the rows are the requests', stacked as `stack` has them.
pub open spec fn stacked(rows: Seq<Row>, stack: Seq<Slot>, p: PanelView, epoch: Ticks) -> bool {
    &&& puts_in_order(slots(p.tracks), stack)
    &&& rows.len() == stack.len()
    &&& forall|i: int|
        0 <= i < rows.len() ==> shows(
            #[trigger] rows[i],
            p,
            epoch,
            p.tracks[stack[i].index as int],
            rows.len() - i,
        )
}

/// The conveyor: every request's row, finished ones above in the order they left and live ones
/// below in entry order.
pub open spec fn conveyor(rows: Seq<Row>, p: PanelView, epoch: Ticks) -> bool {
    exists|stack: Seq<Slot>| #[trigger] stacked(rows, stack, p, epoch)
}

/// What a taken lane's meter reads of the last frame.
pub open spec fn tick_text(p: PanelView) -> Seq<char> {
    if p.shut_now {
        "+"@ + digits(nearest_even(p.charge as nat, MICRO as nat)) + "µs (1/"@ + digits(
            if p.inflight == 0 {
                1
            } else {
                p.inflight as nat
            },
        ) + ")"@
    } else {
        "no queue — paused"@
    }
}

/// Who a lane's meter names.
pub open spec fn name_text(track: TrackView) -> Seq<char> {
    "#"@ + digits(track.id as nat) + " "@ + match track.tenant {
        Some(k) => spec_tenant(k as int).id@,
        None => Seq::empty(),
    }
}

/// Whether `m` is the lane's meter.
pub open spec fn meters_lane(m: Meter, p: PanelView, lane: usize) -> bool {
    let free = match p.lanes[lane as int] {
        Some(id) => !has_track(p.tracks, id),
        None => true,
    };
    &&& m.key == lane
    &&& m.taken == !free
    &&& free ==> {
        &&& m.paint == Paint::Core
        &&& m.name@ == "free lane"@
        &&& m.filled == (Part { done: 0, of: METER_FULL })
        &&& m.tick@ == "no occupier"@
        &&& m.accrued@ == "—"@
    }
    &&& !free ==> {
        let track = p.tracks[slot_of(p.tracks, p.lanes[lane as int]->0)];
        &&& m.paint == tint(track.tenant)
        &&& m.name@ == name_text(track)
        &&& m.filled == (Part {
            done: if track.owed < METER_FULL {
                track.owed as Ticks
            } else {
                METER_FULL
            },
            of: METER_FULL,
        })
        &&& m.tick@ == tick_text(p)
        &&& m.accrued@ == micros_text(track.owed)
    }
}

/// Whether `total` is the tenant's.
pub open spec fn totals_tenant(total: Total, p: PanelView, k: int) -> bool {
    &&& total.key == k
    &&& total.paint == spec_tenant(k).tint
    &&& total.id@ == spec_tenant(k).id@
    &&& total.total@ == micros_text(p.fares[k] as int) + " µs"@
}

/// An instant's place on the track.
fn place(epoch: Ticks, t: Ticks) -> (x: Fine)
    ensures
        x == at(epoch, t as int),
{
    if t > epoch {
        let past: u64 = t - epoch;
        13u128 * past as u128
    } else {
        0
    }
}

/// How wide a span is drawn.
fn width(from: Fine, to: Fine, least: Fine) -> (w: Fine)
    ensures
        w == wide(from as int, to as int, least as int),
{
    if to > from && to - from > least {
        to - from
    } else {
        least
    }
}

/// A tenant's colour.
fn paint_of(tenant: Option<usize>) -> (paint: Paint)
    requires
        known(tenant),
    ensures
        paint == tint(tenant),
{
    match tenant {
        Some(k) => {
            let table = tenants();
            table[k].tint
        },
        None => Paint::Core,
    }
}

/// A stretch of time in milliseconds, to a tenth.
fn ms(from: Ticks, to: Ticks) -> (s: String)
    ensures
        s@ == ms_text(from, to),
{
    if to >= from {
        tenths(to_nearest_even(to - from, TENTH))
    } else {
        let mut s = "-".to_owned();
        push_text(&mut s, &tenths(to_nearest_even(from - to, TENTH)));
        s
    }
}

/// A bill, in microseconds.
fn micros(owed: Ticks) -> (s: String)
    ensures
        s@ == micros_text(owed as int),
{
    grouped(to_nearest_up(owed, MICRO))
}

impl Panel {
    fn bands(&self, epoch: Ticks) -> (bands: Vec<Band>)
        ensures
            bands@ == Seq::new(
                self.shut@.len(),
                |i: int| spec_band(epoch, i, self.shut@[i]),
            ),
    {
        let mut bands: Vec<Band> = Vec::new();
        let mut i: usize = 0;
        while i < self.shut.len()
            invariant
                i <= self.shut@.len(),
                bands@ == Seq::new(i as nat, |i: int| spec_band(epoch, i, self.shut@[i])),
            decreases self.shut@.len() - i,
        {
            let (a, b): (Ticks, Ticks) = self.shut[i];
            let x: Fine = place(epoch, a);
            let to: Fine = place(epoch, b);
            bands.push(Band { key: i, x, w: width(x, to, LEAST_BAND) });
            i += 1;
            assert(bands@ =~= Seq::new(i as nat, |i: int| spec_band(epoch, i, self.shut@[i])));
        }
        bands
    }

    fn cells(&self, epoch: Ticks) -> (cells: Vec<Cell>)
        requires
            self.wf(),
        ensures
            cells@ == spec_cells(self@, epoch),
    {
        let ghost p = self@;
        let mut cells: Vec<Cell> = Vec::new();
        let mut m: usize = 0;
        while m < self.tracks.len()
            invariant
                p == self@,
                self.wf(),
                m <= self.tracks@.len(),
                cells@ == live_cells(epoch, p.t, p.tracks, m as int),
            decreases self.tracks@.len() - m,
        {
            let track: &Track = &self.tracks[m];
            assert(p.tracks[m as int] == track@);
            let ghost before = cells@;
            let mut i: usize = 0;
            assert(before + cells_of(epoch, p.t, track@, 0) =~= before);
            while i < track.cells.len()
                invariant
                    p == self@,
                    known(track.tenant),
                    i <= track.cells@.len(),
                    cells@ == before + cells_of(epoch, p.t, track@, i as int),
                decreases track.cells@.len() - i,
            {
                let c: BlameSpan = track.cells[i];
                if c.t_b as u128 + WINDOW as u128 > self.t as u128 {
                    let x: Fine = place(epoch, c.t_a);
                    let to: Fine = place(epoch, c.t_b);
                    let one = Cell {
                        key: (track.id as u64) << 16 | i as u64,
                        paint: paint_of(track.tenant),
                        solid: c.minting(),
                        fade: None,
                        x,
                        w: width(x, to, LEAST_CELL),
                        pos: c.pos,
                        n: if c.n == 0 {
                            1
                        } else {
                            c.n
                        },
                    };
                    assert(one == spec_cell(epoch, track@, i as int));
                    cells.push(one);
                }
                i += 1;
                assert(cells@ =~= before + cells_of(epoch, p.t, track@, i as int));
            }
            m += 1;
        }
        let ghost live = cells@;
        let mut i: usize = 0;
        assert(live + Seq::new(0, |i: int| spec_echo(epoch, p.t, p.real_t, p.ghosts[i], i))
            =~= live);
        while i < self.ghosts.len()
            invariant
                p == self@,
                i <= self.ghosts@.len(),
                forall|i: int|
                    0 <= i < self.ghosts@.len() ==> known((#[trigger] self.ghosts@[i]).tenant),
                cells@ == live + Seq::new(
                    i as nat,
                    |i: int| spec_echo(epoch, p.t, p.real_t, p.ghosts[i], i),
                ),
            decreases self.ghosts@.len() - i,
        {
            let g: Echo = self.ghosts[i];
            assert(known(self.ghosts@[i as int].tenant));
            let x: Fine = place(epoch, g.out);
            let reach: Ticks = if self.t > g.out && self.t - g.out > GHOST_REACH {
                g.out + GHOST_REACH
            } else {
                self.t
            };
            let to: Fine = place(epoch, reach);
            cells.push(
                Cell {
                    key: u64::MAX - i as u64,
                    paint: paint_of(g.tenant),
                    solid: true,
                    fade: Some(Part::of(g.born, GHOST_FADE, self.real_t)),
                    x,
                    w: width(x, to, LEAST_CELL),
                    pos: g.pos,
                    n: if g.n == 0 {
                        1
                    } else {
                        g.n
                    },
                },
            );
            i += 1;
            assert(cells@ =~= live + Seq::new(
                i as nat,
                |i: int| spec_echo(epoch, p.t, p.real_t, p.ghosts[i], i),
            ));
        }
        cells
    }

    fn row(&self, epoch: Ticks, offset: Fine, track: &Track, up: usize) -> (row: Row)
        requires
            known(track.tenant),
            offset == at(epoch, self.t - WINDOW),
        ensures
            shows(row, self@, epoch, track@, up as int),
    {
        let (end, finished): (Ticks, bool) = match track.out {
            Some(out) => (out, true),
            None => (self.t, false),
        };
        let x: Fine = place(epoch, track.at);
        let since: Fine = place(epoch, track.since);
        let x1: Fine = place(epoch, end);
        let mut label = String::new();
        if x1 < offset + LABEL_ROOM {
            push_text(&mut label, &ms(track.at, track.since));
            push_text(&mut label, " ms queue + ");
            push_text(&mut label, &ms(track.since, end));
            push_text(&mut label, " ms processing = ");
            push_text(&mut label, &ms(track.at, end));
            push_text(&mut label, " ms (");
            push_text(&mut label, &micros(track.owed));
            push_text(&mut label, " µs blame)");
            assert(label@ =~= label_text(track@, end));
        } else {
            assert(label@ =~= Seq::empty());
        }
        Row {
            key: track.id,
            up,
            finished,
            showing: end as u128 + WINDOW as u128 > self.t as u128,
            paint: paint_of(track.tenant),
            x,
            since,
            end: x1,
            w: width(x, x1, LEAST_CELL),
            label,
            label_left: x1 + LABEL_GAP,
        }
    }

    fn meter(&self, lane: usize) -> (m: Meter)
        requires
            self.wf(),
            lane < self.seats.lanes@.len(),
        ensures
            meters_lane(m, self@, lane),
    {
        let found: Option<usize> = match self.seats.lanes[lane] {
            Some(id) => self.track_of(id),
            None => None,
        };
        match found {
            None => Meter {
                key: lane,
                taken: false,
                paint: Paint::Core,
                name: "free lane".to_owned(),
                filled: Part { done: 0, of: METER_FULL },
                tick: "no occupier".to_owned(),
                accrued: "—".to_owned(),
            },
            Some(i) => {
                let track: &Track = &self.tracks[i];
                assert(self@.tracks[i as int] == track@);
                let mut name = "#".to_owned();
                push_text(&mut name, &decimal(track.id as u64));
                push_text(&mut name, " ");
                match track.tenant {
                    Some(k) => {
                        let table = tenants();
                        push_text(&mut name, table[k].id);
                    },
                    None => {},
                }
                assert(name@ =~= name_text(track@));
                let mut tick = String::new();
                if self.shut_now {
                    push_text(&mut tick, "+");
                    push_text(&mut tick, &decimal(to_nearest_even(self.charge, MICRO)));
                    push_text(&mut tick, "µs (1/");
                    let n: u64 = if self.inflight == 0 {
                        1
                    } else {
                        self.inflight
                    };
                    push_text(&mut tick, &decimal(n));
                    push_text(&mut tick, ")");
                } else {
                    push_text(&mut tick, "no queue — paused");
                }
                assert(tick@ =~= tick_text(self@));
                Meter {
                    key: lane,
                    taken: true,
                    paint: paint_of(track.tenant),
                    name,
                    filled: Part {
                        done: if track.owed < METER_FULL {
                            track.owed
                        } else {
                            METER_FULL
                        },
                        of: METER_FULL,
                    },
                    tick,
                    accrued: micros(track.owed),
                }
            },
        }
    }

    /// The tracks as the conveyor stacks them.
    fn stack(&self) -> (stack: Vec<Slot>)
        ensures
            puts_in_order(slots(self@.tracks), stack@),
            stack@.len() == self.tracks@.len(),
    {
        let ghost p = self@;
        let mut places: Vec<Slot> = Vec::new();
        let mut i: usize = 0;
        while i < self.tracks.len()
            invariant
                p == self@,
                i <= self.tracks@.len(),
                places@.len() == i,
                forall|j: int| 0 <= j < i ==> #[trigger] places@[j] == slots(p.tracks)[j],
            decreases self.tracks@.len() - i,
        {
            let track: &Track = &self.tracks[i];
            assert(p.tracks[i as int] == track@);
            places.push(Slot { out: track.out, id: track.id, index: i });
            i += 1;
        }
        assert(places@ =~= slots(p.tracks));
        put_in_order(&places)
    }

    /// The panel as it stands: everything the view draws of it.
    pub fn build(&mut self) -> (frame: PanelFrame)
        requires
            old(self).wf(),
        ensures
            final(self).wf(),
            final(self)@ == (PanelView { epoch: based(old(self)@), ..old(self)@ }),
            ({
                let (p, epoch) = (old(self)@, based(old(self)@));
                &&& frame.offset == at(epoch, p.t - WINDOW)
                &&& frame.bands@ == Seq::new(
                    p.shut.len(),
                    |i: int| spec_band(epoch, i, p.shut[i]),
                )
                &&& frame.cells@ == spec_cells(p, epoch)
                &&& conveyor(frame.rows@, p, epoch)
                &&& frame.meters@.len() == p.order.len()
                &&& forall|i: int|
                    0 <= i < frame.meters@.len() ==> meters_lane(
                        #[trigger] frame.meters@[i],
                        p,
                        p.order[i],
                    )
                &&& frame.totals@.len() == TENANT_COUNT
                &&& forall|k: int|
                    0 <= k < TENANT_COUNT ==> totals_tenant(#[trigger] frame.totals@[k], p, k)
            }),
    {
        let ghost p = self@;
        if self.t > self.epoch && self.t - self.epoch > 5_600_000_000_000 {
            self.epoch = self.t - WINDOW;
        }
        let epoch: Ticks = self.epoch;
        assert(epoch == based(p));
        let offset: Fine = if self.t > WINDOW {
            place(epoch, self.t - WINDOW)
        } else {
            0
        };
        let bands = self.bands(epoch);
        let cells = self.cells(epoch);
        assert(bands@ =~= Seq::new(p.shut.len(), |i: int| spec_band(epoch, i, p.shut[i])));
        assert(cells@ =~= spec_cells(p, epoch));
        let stack = self.stack();
        let depth: usize = stack.len();
        let mut rows: Vec<Row> = Vec::new();
        let mut i: usize = 0;
        while i < depth
            invariant
                self@ == (PanelView { epoch, ..p }),
                self.wf(),
                i <= depth,
                depth == stack@.len(),
                puts_in_order(slots(p.tracks), stack@),
                offset == at(epoch, p.t - WINDOW),
                rows@.len() == i,
                forall|j: int|
                    0 <= j < i ==> shows(
                        #[trigger] rows@[j],
                        p,
                        epoch,
                        p.tracks[stack@[j].index as int],
                        depth - j,
                    ),
            decreases depth - i,
        {
            proof {
                order_keeps_the_readings(slots(p.tracks), stack@);
                assert(stack@.contains(stack@[i as int]));
                assert(slots(p.tracks).contains(stack@[i as int]));
            }
            let k: usize = stack[i].index;
            assert(p.tracks[k as int] == self.tracks@[k as int]@);
            rows.push(self.row(epoch, offset, &self.tracks[k], depth - i));
            i += 1;
        }
        assert(stacked(rows@, stack@, p, epoch));
        assert(conveyor(rows@, p, epoch));
        let mut meters: Vec<Meter> = Vec::new();
        let mut i: usize = 0;
        while i < self.seats.order.len()
            invariant
                self@ == (PanelView { epoch, ..p }),
                self.wf(),
                i <= self.seats.order@.len(),
                meters@.len() == i,
                forall|j: int|
                    0 <= j < i ==> meters_lane(#[trigger] meters@[j], p, p.order[j]),
            decreases self.seats.order@.len() - i,
        {
            assert(self.seats.order@[i as int] < crate::blame::seats::LANES);
            meters.push(self.meter(self.seats.order[i]));
            i += 1;
        }
        let mut totals: Vec<Total> = Vec::new();
        let table = tenants();
        let mut k: usize = 0;
        while k < TENANT_COUNT
            invariant
                self@ == (PanelView { epoch, ..p }),
                self.wf(),
                k <= TENANT_COUNT,
                totals@.len() == k,
                forall|k: int| 0 <= k < TENANT_COUNT ==> #[trigger] table@[k] == spec_tenant(k),
                forall|j: int| 0 <= j < k ==> totals_tenant(#[trigger] totals@[j], p, j),
            decreases TENANT_COUNT - k,
        {
            let mut total = micros(self.fares[k]);
            push_text(&mut total, " µs");
            totals.push(Total { key: k, paint: table[k].tint, id: table[k].id, total });
            k += 1;
        }
        PanelFrame { offset, bands, cells, rows, meters, totals }
    }
}

/// Whatever has happened is on the track: the re-base always gets there before the window runs off
/// its end.
pub proof fn the_track_holds_whatever_has_happened(p: PanelView, from: Ticks, to: Ticks)
    requires
        p.epoch <= p.t,
        from <= to <= p.t,
    ensures
        ({
            let epoch = based(p);
            let x = at(epoch, from as int);
            &&& epoch <= p.t
            &&& 0 <= x
            &&& x + wide(x, at(epoch, to as int), LEAST_BAND as int) <= TRACK
        }),
{
}

/// Whatever ends inside the window reads, through the window's offset, as a span that has
/// happened and has not scrolled away: it ends on the plot, no further past now than the least
/// width carries it.
pub proof fn the_window_shows_what_ends_inside_it(p: PanelView, from: Ticks, to: Ticks)
    requires
        p.epoch <= p.t,
        from <= to <= p.t,
        to + WINDOW >= p.t,
    ensures
        ({
            let epoch = based(p);
            let (x, offset) = (at(epoch, from as int), at(epoch, p.t - WINDOW));
            let right = x + wide(x, at(epoch, to as int), LEAST_BAND as int);
            &&& offset <= right <= offset + PLOT + LEAST_BAND
            &&& x <= offset + PLOT
        }),
{
}

/// A cell's place on the track is its own for as long as the track is measured from one instant:
/// however the window moves, nothing settled is redrawn.
pub proof fn a_settled_cell_never_moves(p: PanelView, q: PanelView, track: TrackView, i: int)
    requires
        q.epoch == based(p),
        based(q) == q.epoch,
    ensures
        spec_cell(based(p), track, i) == spec_cell(based(q), track, i),
{
}

/// The fade is the reader's, not the machine's: whatever virtual time has passed, an echo has
/// faded as far as the wall clock says.
pub proof fn the_fade_ignores_the_virtual_clock(
    epoch: Ticks,
    t: Ticks,
    other: Ticks,
    real_t: Wall,
    g: Echo,
    i: int,
)
    ensures
        spec_echo(epoch, t, real_t, g, i).fade == spec_echo(epoch, other, real_t, g, i).fade,
{
}

/// No two live cells share a key, and no echo shares one with a live cell, while no request has
/// more cells in the window than a key has room for.
pub proof fn every_cell_has_its_own_key(a: u32, i: u64, b: u32, j: u64, echo: u64)
    requires
        i < 0x1_0000,
        j < 0x1_0000,
        echo < 0x1_0000_0000_0000,
    ensures
        ((a as u64) << 16 | i) == ((b as u64) << 16 | j) ==> a == b && i == j,
        ((a as u64) << 16 | i) != u64::MAX - echo,
{
    assert(((a as u64) << 16 | i) == ((b as u64) << 16 | j) ==> a == b && i == j) by (bit_vector)
        requires
            i < 0x1_0000,
            j < 0x1_0000,
    ;
    assert(((a as u64) << 16 | i) < 0x1_0000_0000_0000) by (bit_vector)
        requires
            i < 0x1_0000,
    ;
}

/// The track is even: as much time is as much track wherever it is on it, thirteen units a tick, and
/// nothing lies before its beginning.
pub proof fn the_track_is_even(epoch: Ticks, t: Ticks, later: Ticks)
    requires
        t <= later,
    ensures
        epoch <= t ==> at(epoch, later as int) - at(epoch, t as int) == 13 * (later - t),
        t <= epoch ==> at(epoch, t as int) == 0,
        at(epoch, t as int) <= at(epoch, later as int),
{
}

/// What is drawn reaches from its beginning to its end, and is never too thin to see.
pub proof fn a_span_is_drawn_to_scale(from: int, to: int, least: int)
    ensures
        to - from >= least ==> from + wide(from, to, least) == to,
        to - from <= least ==> wide(from, to, least) == least,
{
}

/// The track is laid anew once seven windows have passed since it was laid, one window back, and
/// never before.
pub proof fn the_track_is_laid_anew_when_it_is_full(p: PanelView)
    requires
        p.epoch <= p.t,
    ensures
        p.t - p.epoch <= 5_600_000_000_000 ==> based(p) == p.epoch,
        p.t - p.epoch > 5_600_000_000_000 ==> p.t - based(p) == 800_000_000_000,
{
}

/// A cell is drawn where it was minted: from the start of its interval to the end of it, in its own
/// tenant's colour, in its place among as many as shared the time; and solid where it minted
/// anything at all.
pub proof fn a_cell_is_drawn_where_it_was_minted(epoch: Ticks, track: TrackView, i: int)
    requires
        0 <= i < track.cells.len(),
        epoch <= track.cells[i].t_a <= track.cells[i].t_b,
    ensures
        ({
            let (c, span) = (spec_cell(epoch, track, i), track.cells[i]);
            &&& c.x == 13 * (span.t_a - epoch)
            &&& 13 * (span.t_b - span.t_a) >= LEAST_CELL ==> c.w == 13 * (span.t_b - span.t_a)
            &&& 13 * (span.t_b - span.t_a) < LEAST_CELL ==> c.w == LEAST_CELL
            &&& c.pos == span.pos && (span.n > 0 ==> c.n == span.n) && c.n >= 1
            &&& c.solid <==> span.accrual != 0
            &&& c.fade is None
            &&& track.tenant matches Some(k) ==> c.paint == spec_tenant(k as int).tint
            &&& track.tenant is None ==> c.paint == Paint::Core
        }),
{
}

/// The shut time is drawn from when it shut to when it opened.
pub proof fn a_band_covers_the_shut_time(epoch: Ticks, key: int, s: (Ticks, Ticks))
    requires
        epoch <= s.0 <= s.1,
        0 <= key <= usize::MAX,
    ensures
        ({
            let b = spec_band(epoch, key, s);
            &&& b.key == key
            &&& b.x == 13 * (s.0 - epoch)
            &&& b.x + b.w >= 13 * (s.1 - epoch)
            &&& b.w == 13 * (s.1 - s.0) || b.w == LEAST_BAND
        }),
{
}

/// An echo starts where its request left off, goes no further than now nor than its reach, wears
/// its tenant's colour, and is always solid.
pub proof fn an_echo_trails_its_request(epoch: Ticks, t: Ticks, real_t: Wall, g: Echo, i: int)
    requires
        epoch <= g.out <= t,
        0 <= i <= u64::MAX,
    ensures
        ({
            let c = spec_echo(epoch, t, real_t, g, i);
            let reach = if t - g.out < GHOST_REACH {
                t - g.out
            } else {
                GHOST_REACH as int
            };
            &&& c.x == 13 * (g.out - epoch)
            &&& c.w == if 13 * reach > LEAST_CELL {
                13 * reach
            } else {
                LEAST_CELL as int
            }
            &&& c.solid && c.pos == g.pos
            &&& g.tenant matches Some(k) ==> c.paint == spec_tenant(k as int).tint
            &&& c.fade matches Some(p) && p.of == GHOST_FADE && (real_t <= g.born ==> p.done == 0)
                && (g.born <= real_t && real_t - g.born <= GHOST_FADE ==> p.done == real_t - g.born)
        }),
{
}

proof fn a_cell_inside_is_among_them(epoch: Ticks, t: Ticks, track: TrackView, n: int, i: int)
    requires
        0 <= i < n <= track.cells.len(),
        t - track.cells[i].t_b < WINDOW,
    ensures
        cells_of(epoch, t, track, n).contains(spec_cell(epoch, track, i)),
    decreases n,
{
    let all = cells_of(epoch, t, track, n);
    let before = cells_of(epoch, t, track, n - 1);
    if i == n - 1 {
        assert(all[all.len() - 1] == spec_cell(epoch, track, i));
    } else {
        a_cell_inside_is_among_them(epoch, t, track, n - 1, i);
        let j = choose|j: int| 0 <= j < before.len() && before[j] == spec_cell(epoch, track, i);
        assert(all[j] == before[j]);
    }
}

proof fn each_of_them_is_inside(epoch: Ticks, t: Ticks, track: TrackView, n: int, j: int)
    requires
        0 <= n <= track.cells.len(),
        0 <= j < cells_of(epoch, t, track, n).len(),
    ensures
        exists|i: int|
            0 <= i < n && t - track.cells[i].t_b < WINDOW && cells_of(epoch, t, track, n)[j]
                == #[trigger] spec_cell(epoch, track, i),
    decreases n,
{
    if n > 0 {
        let before = cells_of(epoch, t, track, n - 1);
        if j < before.len() {
            each_of_them_is_inside(epoch, t, track, n - 1, j);
            let i = choose|i: int|
                0 <= i < n - 1 && t - track.cells[i].t_b < WINDOW && before[j]
                    == #[trigger] spec_cell(epoch, track, i);
            assert(cells_of(epoch, t, track, n)[j] == spec_cell(epoch, track, i));
        } else {
            assert(cells_of(epoch, t, track, n)[j] == spec_cell(epoch, track, n - 1));
        }
    }
}

/// The live cells drawn are the ones that ended inside the window, and all of them.
pub proof fn the_cells_inside_are_drawn(
    epoch: Ticks,
    t: Ticks,
    tracks: Seq<TrackView>,
    m: int,
    k: int,
    i: int,
)
    requires
        0 <= k < m <= tracks.len(),
        0 <= i < tracks[k].cells.len(),
        t - tracks[k].cells[i].t_b < 800_000_000_000,
    ensures
        live_cells(epoch, t, tracks, m).contains(spec_cell(epoch, tracks[k], i)),
    decreases m,
{
    let last = cells_of(epoch, t, tracks[m - 1], tracks[m - 1].cells.len() as int);
    let before = live_cells(epoch, t, tracks, m - 1);
    let c = spec_cell(epoch, tracks[k], i);
    if k == m - 1 {
        a_cell_inside_is_among_them(epoch, t, tracks[k], tracks[k].cells.len() as int, i);
        let j = choose|j: int| 0 <= j < last.len() && last[j] == c;
        assert((before + last)[before.len() + j] == c);
    } else {
        the_cells_inside_are_drawn(epoch, t, tracks, m - 1, k, i);
        let j = choose|j: int| 0 <= j < before.len() && before[j] == c;
        assert((before + last)[j] == c);
    }
}

/// And nothing else is: each live cell drawn is some request's, and ended inside the window.
pub proof fn no_cell_outside_is_drawn(
    epoch: Ticks,
    t: Ticks,
    tracks: Seq<TrackView>,
    m: int,
    j: int,
) -> (at: (int, int))
    requires
        0 <= m <= tracks.len(),
        0 <= j < live_cells(epoch, t, tracks, m).len(),
    ensures
        0 <= at.0 < m,
        0 <= at.1 < tracks[at.0].cells.len(),
        t - tracks[at.0].cells[at.1].t_b < 800_000_000_000,
        live_cells(epoch, t, tracks, m)[j] == spec_cell(epoch, tracks[at.0], at.1),
    decreases m,
{
    if m <= 0 {
        (0, 0)
    } else {
        let n = tracks[m - 1].cells.len() as int;
        let last = cells_of(epoch, t, tracks[m - 1], n);
        let before = live_cells(epoch, t, tracks, m - 1);
        if j < before.len() {
            no_cell_outside_is_drawn(epoch, t, tracks, m - 1, j)
        } else {
            each_of_them_is_inside(epoch, t, tracks[m - 1], n, j - before.len());
            let i = choose|i: int|
                0 <= i < n && t - tracks[m - 1].cells[i].t_b < WINDOW && last[j - before.len()]
                    == #[trigger] spec_cell(epoch, tracks[m - 1], i);
            (m - 1, i)
        }
    }
}

proof fn slots_run_in_order(a: Slot, b: Slot)
    requires
        a.key() <= b.key(),
    ensures
        b.out is Some ==> a.out is Some,
        a.out is Some && b.out is Some ==> a.out->0 <= b.out->0,
        a.out is None && b.out is None ==> a.id <= b.id,
{
}

proof fn a_stack_is_the_tracks(
    rows: Seq<Row>,
    stack: Seq<Slot>,
    p: PanelView,
    epoch: Ticks,
    i: int,
)
    requires
        stacked(rows, stack, p, epoch),
        p.tracks.len() <= usize::MAX,
        0 <= i < rows.len(),
    ensures
        rows.len() == p.tracks.len(),
        rows.len() == stack.len(),
        rows[i].up == rows.len() - i,
        rows[i].key == stack[i].id,
        rows[i].finished == stack[i].out is Some,
        stack[i].out matches Some(out) ==> rows[i].end == at(epoch, out as int),
        ordered(stack),
{
    order_keeps_the_readings(slots(p.tracks), stack);
    let a = stack[i];
    assert(stack.contains(a));
    assert(slots(p.tracks).contains(a));
    let k = choose|k: int| 0 <= k < p.tracks.len() && slots(p.tracks)[k] == a;
    assert(a == Slot { out: p.tracks[k].out, id: p.tracks[k].id, index: k as usize });
    assert(shows(rows[i], p, epoch, p.tracks[a.index as int], rows.len() - i));
}

/// The conveyor: a row for each request, numbered up from the foot; finished ones above live ones,
/// finished ones in the order they left, and live ones in the order they came.
pub proof fn the_conveyor_runs_in_order(
    rows: Seq<Row>,
    p: PanelView,
    epoch: Ticks,
    i: int,
    j: int,
)
    requires
        conveyor(rows, p, epoch),
        p.tracks.len() <= usize::MAX,
        0 <= i < j < rows.len(),
    ensures
        rows.len() == p.tracks.len(),
        rows[i].up == rows[j].up + (j - i),
        rows[rows.len() - 1].up == 1,
        rows[j].finished ==> rows[i].finished,
        rows[i].finished && rows[j].finished ==> rows[i].end <= rows[j].end,
        !rows[i].finished && !rows[j].finished ==> rows[i].key <= rows[j].key,
{
    let stack = choose|stack: Seq<Slot>| #[trigger] stacked(rows, stack, p, epoch);
    a_stack_is_the_tracks(rows, stack, p, epoch, i);
    a_stack_is_the_tracks(rows, stack, p, epoch, j);
    a_stack_is_the_tracks(rows, stack, p, epoch, rows.len() - 1);
    assert(stack[i].key() <= stack[j].key());
    slots_run_in_order(stack[i], stack[j]);
}

/// A row is its request's own: it runs from when the request landed, past when it was let in, to
/// when it left or to now, and is shown while it ended inside the window.
pub proof fn a_row_is_its_requests_own(
    row: Row,
    p: PanelView,
    epoch: Ticks,
    track: TrackView,
    up: int,
)
    requires
        shows(row, p, epoch, track, up),
        epoch <= track.at <= track.since,
        track.since <= p.t,
        track.out matches Some(out) ==> track.since <= out,
    ensures
        row.key == track.id,
        row.finished <==> track.out is Some,
        row.since - row.x == 13 * (track.since - track.at),
        track.out matches Some(out) ==> row.end - row.since == 13 * (out - track.since),
        track.out is None ==> row.end - row.since == 13 * (p.t - track.since) && row.showing,
        track.out matches Some(out) ==> (row.showing <==> p.t - out < 800_000_000_000),
        row.end - row.x >= LEAST_CELL ==> row.x + row.w == row.end,
        row.label_left > row.end,
{
}

/// A finished row reads its queueing, its processing and its whole time, and its bill, once the
/// last of the window has room for it beside the bar; until then it reads nothing.
pub proof fn a_label_waits_for_its_room(
    row: Row,
    p: PanelView,
    epoch: Ticks,
    track: TrackView,
    up: int,
)
    requires
        shows(row, p, epoch, track, up),
    ensures
        ({
            let offset = at(epoch, p.t - 800_000_000_000);
            &&& row.end >= offset + LABEL_ROOM ==> row.label@.len() == 0
            &&& row.end < offset + LABEL_ROOM ==> row.label@ == ms_text(track.at, track.since)
                + " ms queue + "@ + ms_text(track.since, ends(track, p.t)) + " ms processing = "@
                + ms_text(track.at, ends(track, p.t)) + " ms ("@ + micros_text(track.owed)
                + " µs blame)"@
        }),
{
}

/// A lane's meter is its holder's: as full as what they owe, up to the meter's brim, in their
/// colour; and a lane nobody holds is empty.
pub proof fn a_meter_is_its_holders(m: Meter, p: PanelView, lane: usize, i: int)
    requires
        meters_lane(m, p, lane),
        lane < p.lanes.len(),
        in_order(p.tracks),
    ensures
        p.lanes[lane as int] is None ==> !m.taken && m.filled.done == 0,
        p.lanes[lane as int] is Some && 0 <= i < p.tracks.len() && p.tracks[i].id
            == p.lanes[lane as int]->0 ==> {
            &&& m.taken
            &&& p.tracks[i].owed <= 60_000_000_000 ==> m.filled.done == p.tracks[i].owed
            &&& p.tracks[i].owed >= 60_000_000_000 ==> m.filled.done == m.filled.of
            &&& p.tracks[i].tenant matches Some(k) ==> m.paint == spec_tenant(k as int).tint
        },
        p.lanes[lane as int] is Some && (forall|k: int|
            0 <= k < p.tracks.len() ==> (#[trigger] p.tracks[k]).id != p.lanes[lane as int]->0)
            ==> !m.taken,
        m.filled.of == 60_000_000_000,
{
    if p.lanes[lane as int] is Some && 0 <= i < p.tracks.len() && p.tracks[i].id
        == p.lanes[lane as int]->0 {
        a_track_is_at_its_slot(p.tracks, i);
        assert(p.tracks[i].wf());
        sum_is_no_debt(p.tracks[i].cells);
    }
    if p.lanes[lane as int] is Some {
        a_slot_is_a_place(p.tracks, p.lanes[lane as int]->0);
    }
}

proof fn a_slot_is_a_place(tracks: Seq<TrackView>, id: u32)
    ensures
        0 <= slot_of(tracks, id) <= tracks.len(),
    decreases tracks.len(),
{
    if tracks.len() > 0 {
        a_slot_is_a_place(tracks.drop_last(), id);
    }
}

proof fn a_track_is_at_its_slot(tracks: Seq<TrackView>, i: int)
    requires
        in_order(tracks),
        0 <= i < tracks.len(),
    ensures
        slot_of(tracks, tracks[i].id) == i,
    decreases tracks.len(),
{
    let front = tracks.drop_last();
    assert forall|a: int, b: int| 0 <= a < b < front.len() implies (#[trigger] front[a]).id < (
    #[trigger] front[b]).id by {
        assert(tracks[a].id < tracks[b].id);
    }
    if i < tracks.len() - 1 {
        assert(tracks[i].id < tracks[tracks.len() - 1].id);
        assert forall|a: int| 0 <= a < front.len() implies (#[trigger] front[a]).wf() && known(
            front[a].tenant,
        ) by {
            assert(tracks[a].wf());
        }
        a_track_is_at_its_slot(front, i);
    } else {
        an_id_above_all_goes_last(front, tracks[i].id);
    }
}

proof fn an_id_above_all_goes_last(tracks: Seq<TrackView>, id: u32)
    requires
        forall|a: int| 0 <= a < tracks.len() ==> (#[trigger] tracks[a]).id < id,
    ensures
        slot_of(tracks, id) == tracks.len(),
{
    if tracks.len() > 0 {
        assert(tracks[tracks.len() - 1].id < id);
    }
}

/// A stretch of time reads with a minus only where it runs backwards.
pub proof fn a_time_reads_with_a_minus_only_backwards(from: Ticks, to: Ticks)
    ensures
        to >= from ==> ms_text(from, to)[0] != '-',
        to < from ==> ms_text(from, to) == "-"@ + ms_text(to, from),
        ms_text(from, from) == ms_text(to, to),
{
    crate::text::digits_read_back(
        nearest_even(
            if to >= from {
                (to - from) as nat
            } else {
                0
            },
            TENTH as nat,
        ) / 10,
    );
}

/// A tenant's total is its own fares', under its own name and colour.
pub proof fn a_total_is_its_tenants(total: Total, p: PanelView, k: int)
    requires
        totals_tenant(total, p, k),
    ensures
        total.key == k && total.paint == spec_tenant(k).tint && total.id@ == spec_tenant(k).id@,
        total.total@ == micros_text(p.fares[k] as int) + " µs"@,
{
}

/// A bill reads in whole microseconds, to the nearest, a half going up.
pub proof fn a_bill_reads_in_microseconds(owed: nat)
    ensures
        exists|n: nat|
            micros_text(owed as int) == #[trigger] grouped_text(n) && 2_000_000 * n <= 2 * owed
                + 1_000_000 && 2 * owed < 2_000_000 * n + 1_000_000,
{
    crate::text::a_rounding_is_the_nearest(owed, 1_000_000);
    let n = nearest_up(owed, 1_000_000);
    assert(micros_text(owed as int) == grouped_text(n));
}

/// What a taken lane's meter reads of the last frame is its even share while the door is shut: what
/// was charged, of as many as were inside; and that it is paused while the door is open.
pub proof fn a_meter_reads_its_share_while_shut(p: PanelView)
    ensures
        !p.shut_now ==> tick_text(p) == "no queue — paused"@,
        p.shut_now && p.inflight > 0 ==> tick_text(p) == "+"@ + digits(
            nearest_even(p.charge as nat, 1_000_000),
        ) + "µs (1/"@ + digits(p.inflight as nat) + ")"@,
        p.shut_now && p.inflight == 0 ==> tick_text(p) == "+"@ + digits(
            nearest_even(p.charge as nat, 1_000_000),
        ) + "µs (1/"@ + digits(1) + ")"@,
{
}

/// The live cells are drawn before the echoes, and every echo is drawn.
pub proof fn echoes_are_drawn_after_the_live(p: PanelView, epoch: Ticks, i: int)
    requires
        0 <= i < p.ghosts.len(),
    ensures
        ({
            let live = live_cells(epoch, p.t, p.tracks, p.tracks.len() as int);
            let all = spec_cells(p, epoch);
            &&& all.len() == live.len() + p.ghosts.len()
            &&& all.take(live.len() as int) == live
            &&& all[live.len() + i] == spec_echo(epoch, p.t, p.real_t, p.ghosts[i], i)
        }),
{
    let live = live_cells(epoch, p.t, p.tracks, p.tracks.len() as int);
    assert(spec_cells(p, epoch).take(live.len() as int) =~= live);
}

} // verus!
