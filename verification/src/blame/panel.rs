//! Everything the panel remembers between frames. The engine reports one frame at a time; the
//! window, the lanes and the long chart are the reading of them.

use std::collections::VecDeque;

use vstd::prelude::*;

use crate::blame::seats::{holds, Seats};
use crate::blame::seats::{leavers, recycled, released, seated, LANES};
use crate::blame::tracks::{sum_is_no_debt, sum_of, Landed, Track, TrackView};
use crate::engine::clock::Ticks;
use crate::engine::obs::Obs;
use crate::engine::request::{
    a_tenant_is_found_by_its_name, spec_tenant, spec_tenant_of, tenant_of, TENANT_COUNT,
};
use crate::engine::spans::BlameSpan;
use crate::engine::tagged::{copy_all, drop_id, without};
use crate::kept::{kept, kept_further};

verus! {

/// Wall-clock microseconds: what the reader's eye is paced by.
pub type Wall = u64;

/// The short window: how much virtual time the fine rows show.
pub const WINDOW: Ticks = 800_000_000_000;

/// How long a ghost takes to fade, on the wall clock: the departure is the fact, and the
/// ghost is the eye being given a moment to see the survivors thicken underneath.
pub const GHOST_FADE: Wall = 400_000;

/// The long chart takes one sample per this much virtual time.
pub const LONG_SAMPLE: Ticks = 40_000_000_000;

/// A finished occupier's last cell, fading where it stood.
#[derive(Clone, Copy, PartialEq, Eq, Structural, Debug)]
pub struct Echo {
    pub tenant: Option<usize>,
    pub pos: usize,
    pub n: usize,
    /// The virtual instant its request stopped occupying.
    pub out: Ticks,
    /// When the fade started, on the wall clock that paces it.
    pub born: Wall,
}

/// What the long chart is handed: each tenant's bill over a stretch of virtual time.
pub struct LongSample {
    pub billed: Vec<Ticks>,
    pub over: Ticks,
}

pub struct Panel {
    pub t: Ticks,
    /// Wall time since the panel opened.
    pub real_t: Wall,
    /// The instant the track measures from.
    pub epoch: Ticks,
    /// Requests that have landed and not yet been let in. One the queue sheds never occupied the
    /// server, so it never becomes a track at all.
    pub landed: Vec<Landed>,
    /// The requests inside the window, by id.
    pub tracks: Vec<Track>,
    pub shut: Vec<(Ticks, Ticks)>,
    pub ghosts: VecDeque<Echo>,
    pub seats: Seats,
    /// Each tenant's bill since the last long sample, and how long ago that was.
    pub billed: Vec<Ticks>,
    pub gathered: Ticks,
    /// Per tenant, every fare banked.
    pub fares: Vec<Ticks>,
    pub meter: Ticks,
    pub unattributed: Ticks,
    pub shut_now: bool,
    pub inflight: u64,
    pub occupiers: Vec<u32>,
    /// What the meter wound over the last frame: the share each occupier took for it.
    pub charge: Ticks,
}

#[verifier::ext_equal]
pub struct PanelView {
    pub t: Ticks,
    pub real_t: Wall,
    pub epoch: Ticks,
    pub landed: Seq<Landed>,
    pub tracks: Seq<TrackView>,
    pub shut: Seq<(Ticks, Ticks)>,
    pub ghosts: Seq<Echo>,
    pub lanes: Seq<Option<u32>>,
    pub order: Seq<usize>,
    pub billed: Seq<Ticks>,
    pub gathered: Ticks,
    pub fares: Seq<Ticks>,
    pub meter: Ticks,
    pub unattributed: Ticks,
    pub shut_now: bool,
    pub inflight: u64,
    pub occupiers: Seq<u32>,
    pub charge: Ticks,
}

/// The tracks as they read.
pub open spec fn tracks_view(tracks: Seq<Track>) -> Seq<TrackView> {
    tracks.map_values(|t: Track| t@)
}

impl View for Panel {
    type V = PanelView;

    open spec fn view(&self) -> PanelView {
        PanelView {
            t: self.t,
            real_t: self.real_t,
            epoch: self.epoch,
            landed: self.landed@,
            tracks: tracks_view(self.tracks@),
            shut: self.shut@,
            ghosts: self.ghosts@,
            lanes: self.seats.lanes@,
            order: self.seats.order@,
            billed: self.billed@,
            gathered: self.gathered,
            fares: self.fares@,
            meter: self.meter,
            unattributed: self.unattributed,
            shut_now: self.shut_now,
            inflight: self.inflight,
            occupiers: self.occupiers@,
            charge: self.charge,
        }
    }
}

/// A tenant's index names a tenant.
pub open spec fn known(tenant: Option<usize>) -> bool {
    tenant matches Some(k) ==> k < TENANT_COUNT
}

/// The tracks stand in id order, one to a request, and no bill is short of its cells.
pub open spec fn in_order(tracks: Seq<TrackView>) -> bool {
    &&& forall|i: int, j: int|
        0 <= i < j < tracks.len() ==> (#[trigger] tracks[i]).id < (#[trigger] tracks[j]).id
    &&& forall|i: int|
        0 <= i < tracks.len() ==> (#[trigger] tracks[i]).wf() && known(tracks[i].tenant)
}

/// Where a request's track stands, or would stand: past every smaller id.
pub open spec fn slot_of(tracks: Seq<TrackView>, id: u32) -> int
    decreases tracks.len(),
{
    if tracks.len() == 0 {
        0
    } else if tracks.last().id < id {
        tracks.len() as int
    } else {
        slot_of(tracks.drop_last(), id)
    }
}

/// Whether a request has a track.
pub open spec fn has_track(tracks: Seq<TrackView>, id: u32) -> bool {
    slot_of(tracks, id) < tracks.len() && tracks[slot_of(tracks, id)].id == id
}

/// The landing of a request that has one, the latest first.
pub open spec fn landing(landed: Seq<Landed>, id: u32) -> Option<Landed>
    decreases landed.len(),
{
    if landed.len() == 0 {
        None
    } else if landed.last().id == id {
        Some(landed.last())
    } else {
        landing(landed.drop_last(), id)
    }
}

/// The shut intervals with one more: the last of them continued, or a new one.
pub open spec fn with_shut(shut: Seq<(Ticks, Ticks)>, next: (Ticks, Ticks)) -> Seq<
    (Ticks, Ticks),
> {
    if shut.len() > 0 && shut.last().1 == next.0 {
        shut.update(shut.len() - 1, (shut.last().0, next.1))
    } else {
        shut.push(next)
    }
}

/// The shut intervals with the first `n` of `more`.
pub open spec fn with_shuts(
    shut: Seq<(Ticks, Ticks)>,
    more: Seq<(Ticks, Ticks)>,
    n: int,
) -> Seq<(Ticks, Ticks)>
    decreases n,
{
    if n <= 0 {
        shut
    } else {
        with_shut(with_shuts(shut, more, n - 1), more[n - 1])
    }
}

/// A tenant's tally with one accrual more.
pub open spec fn tallied(billed: Seq<Ticks>, tenant: Option<usize>, accrual: Ticks) -> Seq<Ticks> {
    match tenant {
        Some(k) => billed.update(k as int, (billed[k as int] + accrual) as Ticks),
        None => billed,
    }
}

/// What billing touches: who is waiting to be let in, the tracks, and the tenants' tallies.
#[verifier::ext_equal]
pub struct Books {
    pub landed: Seq<Landed>,
    pub tracks: Seq<TrackView>,
    pub billed: Seq<Ticks>,
}

/// One interval billed. The first a request occupies lets it in; one for a request that never
/// landed is nobody's.
pub open spec fn bill_one(b: Books, span: BlameSpan) -> Books {
    let i = slot_of(b.tracks, span.id);
    if has_track(b.tracks, span.id) {
        Books {
            tracks: b.tracks.update(i, b.tracks[i].charged(span)),
            billed: tallied(b.billed, b.tracks[i].tenant, span.accrual),
            ..b
        }
    } else {
        match landing(b.landed, span.id) {
            Some(who) => Books {
                landed: without(b.landed, span.id),
                tracks: b.tracks.insert(i, TrackView::opened(who, span).charged(span)),
                billed: tallied(b.billed, who.tenant, span.accrual),
            },
            None => b,
        }
    }
}

/// The first `n` intervals billed.
pub open spec fn bill_all(b: Books, spans: Seq<BlameSpan>, n: int) -> Books
    decreases n,
{
    if n <= 0 {
        b
    } else {
        bill_one(bill_all(b, spans, n - 1), spans[n - 1])
    }
}

/// The tracks once everyone no longer occupying has left: a row ends when its request stops
/// occupying the server, not when the client gets its answer a leg later.
pub open spec fn departed(tracks: Seq<TrackView>, occupiers: Seq<u32>, t: Ticks) -> Seq<TrackView> {
    tracks.map_values(
        |track: TrackView|
            if track.out is None && !occupiers.contains(track.id) {
                TrackView { out: Some(t), ..track }
            } else {
                track
            },
    )
}

/// The ghosts with the last cell of each of the first `n` who left a lane.
pub open spec fn haunted(
    ghosts: Seq<Echo>,
    tracks: Seq<TrackView>,
    left: Seq<u32>,
    n: int,
    t: Ticks,
    born: Wall,
) -> Seq<Echo>
    decreases n,
{
    if n <= 0 {
        ghosts
    } else {
        let before = haunted(ghosts, tracks, left, n - 1, t, born);
        let i = slot_of(tracks, left[n - 1]);
        if has_track(tracks, left[n - 1]) && tracks[i].cells.len() > 0 {
            let last = tracks[i].cells.last();
            before.push(
                Echo { tenant: tracks[i].tenant, pos: last.pos, n: last.n, out: t, born },
            )
        } else {
            before
        }
    }
}

/// The ghosts still to be seen: the oldest go first, each once its fade is over.
pub open spec fn unfaded(ghosts: Seq<Echo>, real_t: Wall) -> Seq<Echo>
    decreases ghosts.len(),
{
    if ghosts.len() > 0 && real_t - ghosts[0].born > GHOST_FADE {
        unfaded(ghosts.drop_first(), real_t)
    } else {
        ghosts
    }
}

/// Whether an instant is still inside the window.
pub open spec fn inside(at: Ticks, t: Ticks) -> bool {
    at + WINDOW >= t
}

/// The tracks still inside the window, each with the cells still inside it.
pub open spec fn windowed(tracks: Seq<TrackView>, t: Ticks) -> Seq<TrackView> {
    kept(
        tracks.map_values(|track: TrackView| track.windowed(t, WINDOW)),
        |track: TrackView| track.out matches Some(out) ==> inside(out, t),
    )
}

/// Everything the window has left behind, forgotten.
pub open spec fn trimmed(p: PanelView) -> PanelView {
    PanelView {
        shut: kept(p.shut, |s: (Ticks, Ticks)| inside(s.1, p.t)),
        landed: kept(p.landed, |l: Landed| inside(l.at, p.t)),
        ghosts: unfaded(p.ghosts, p.real_t),
        tracks: windowed(p.tracks, p.t),
        ..p
    }
}

/// The lanes recycled, and a ghost for each cell left standing.
pub open spec fn reseated(p: PanelView) -> PanelView {
    let left = leavers(p.lanes, p.occupiers, LANES as int);
    let order = recycled(p.order, p.lanes, p.occupiers, LANES as int);
    PanelView {
        lanes: seated(
            order,
            released(p.lanes, p.occupiers),
            p.occupiers,
            p.occupiers.len() as int,
        ),
        order,
        ghosts: haunted(p.ghosts, p.tracks, left, left.len() as int, p.t, p.real_t),
        ..p
    }
}

/// How much virtual time a frame moved on.
pub open spec fn moved_on(from: Ticks, to: Ticks) -> Ticks {
    if to >= from {
        (to - from) as Ticks
    } else {
        0
    }
}

/// The frame folded in, before the long chart and the window take their share.
pub open spec fn folded(p: PanelView, obs: Obs) -> PanelView {
    let books = bill_all(
        Books { landed: p.landed, tracks: p.tracks, billed: p.billed },
        obs.blame.spans@,
        obs.blame.spans@.len() as int,
    );
    reseated(
        PanelView {
            t: obs.t,
            shut: with_shuts(p.shut, obs.blame.shut@, obs.blame.shut@.len() as int),
            landed: books.landed,
            tracks: departed(books.tracks, obs.blame.occupiers@, obs.t),
            billed: books.billed,
            charge: if obs.blame.meter >= p.meter {
                (obs.blame.meter - p.meter) as Ticks
            } else {
                0
            },
            meter: obs.blame.meter,
            unattributed: obs.blame.unattributed,
            shut_now: obs.blame.shut_now,
            inflight: obs.blame.inflight,
            occupiers: obs.blame.occupiers@,
            ..p
        },
    )
}

/// Whether a long sample is due after `dt` more.
pub open spec fn sample_due(p: PanelView, dt: Ticks) -> bool {
    p.gathered + dt >= LONG_SAMPLE
}

/// The long chart's books after `dt` more: struck when a sample is due, or carried.
pub open spec fn struck(p: PanelView, dt: Ticks) -> PanelView {
    if sample_due(p, dt) {
        PanelView { billed: Seq::new(TENANT_COUNT as nat, |k: int| 0), gathered: 0, ..p }
    } else {
        PanelView { gathered: (p.gathered + dt) as Ticks, ..p }
    }
}

impl PanelView {
    /// The tracks in order, the lanes whole, and one tally to a tenant.
    pub open spec fn wf(self) -> bool {
        &&& in_order(self.tracks)
        &&& self.lanes.len() == LANES
        &&& self.billed.len() == TENANT_COUNT
        &&& self.fares.len() == TENANT_COUNT
        &&& self.gathered < LONG_SAMPLE
        &&& forall|i: int| 0 <= i < self.landed.len() ==> known((#[trigger] self.landed[i]).tenant)
        &&& forall|i: int| 0 <= i < self.ghosts.len() ==> known((#[trigger] self.ghosts[i]).tenant)
    }

    /// Whether the frame's intervals can be billed: every tally they may land on has the room.
    pub open spec fn room_for(self, spans: Seq<BlameSpan>) -> bool {
        &&& sum_of(spans) <= u64::MAX
        &&& forall|i: int|
            0 <= i < self.tracks.len() ==> (#[trigger] self.tracks[i]).owed + sum_of(spans)
                <= u64::MAX
        &&& forall|k: int|
            0 <= k < self.billed.len() ==> (#[trigger] self.billed[k]) + sum_of(spans) <= u64::MAX
    }
}

/// The fares with the first `n` of `more` banked, each to the tenant it names.
pub open spec fn banked(fares: Seq<Ticks>, more: Seq<(&'static str, Ticks)>, n: int) -> Seq<Ticks>
    decreases n,
{
    if n <= 0 {
        fares
    } else {
        let before = banked(fares, more, n - 1);
        match spec_tenant_of(Some(more[n - 1].0@)) {
            Some(k) => before.update(k, (before[k] + more[n - 1].1) as Ticks),
            None => before,
        }
    }
}

/// What the first `n` fares come to.
pub open spec fn fare_sum(more: Seq<(&'static str, Ticks)>, n: int) -> int
    decreases n,
{
    if n <= 0 {
        0
    } else {
        fare_sum(more, n - 1) + more[n - 1].1
    }
}

/// Where a request's track stands splits the tracks at its id.
proof fn slot_splits(tracks: Seq<TrackView>, id: u32)
    requires
        in_order(tracks),
    ensures
        0 <= slot_of(tracks, id) <= tracks.len(),
        forall|i: int| 0 <= i < slot_of(tracks, id) ==> (#[trigger] tracks[i]).id < id,
        forall|i: int| slot_of(tracks, id) <= i < tracks.len() ==> (#[trigger] tracks[i]).id >= id,
    decreases tracks.len(),
{
    if tracks.len() > 0 {
        let front = tracks.drop_last();
        let n = tracks.len();
        if tracks.last().id < id {
            assert forall|i: int| 0 <= i < n implies (#[trigger] tracks[i]).id < id by {
                if i < n - 1 {
                    assert(tracks[i].id < tracks[n - 1].id);
                }
            }
        } else {
            assert forall|i: int, j: int| 0 <= i < j < front.len() implies (
            #[trigger] front[i]).id < (#[trigger] front[j]).id by {
                assert(tracks[i].id < tracks[j].id);
            }
            assert forall|i: int| 0 <= i < front.len() implies (#[trigger] front[i]).wf() && known(
                front[i].tenant,
            ) by {
                assert(tracks[i].wf());
            }
            slot_splits(front, id);
            assert forall|i: int| 0 <= i < slot_of(tracks, id) implies (#[trigger] tracks[i]).id
                < id by {
                assert(front[i].id < id);
            }
            assert forall|i: int| slot_of(tracks, id) <= i < n implies (#[trigger] tracks[i]).id
                >= id by {
                if i < n - 1 {
                    assert(front[i].id >= id);
                }
            }
        }
    }
}

/// Whatever landing is found is among them, and is the request's own.
proof fn landing_is_there(landed: Seq<Landed>, id: u32)
    ensures
        landing(landed, id) matches Some(who) ==> landed.contains(who) && who.id == id,
    decreases landed.len(),
{
    if landed.len() > 0 && landed.last().id != id {
        landing_is_there(landed.drop_last(), id);
        if landing(landed, id) is Some {
            let who = landing(landed, id)->0;
            let i = choose|i: int|
                0 <= i < landed.drop_last().len() && landed.drop_last()[i] == who;
            assert(landed[i] == who);
        }
    } else if landed.len() > 0 {
        assert(landed[landed.len() - 1] == landed.last());
    }
}

/// The books are in order, and have room for `left` more.
spec fn open_books(b: Books, left: int) -> bool {
    &&& in_order(b.tracks)
    &&& b.billed.len() == TENANT_COUNT
    &&& forall|i: int| 0 <= i < b.landed.len() ==> known((#[trigger] b.landed[i]).tenant)
    &&& 0 <= left <= u64::MAX
    &&& forall|i: int| 0 <= i < b.tracks.len() ==> (#[trigger] b.tracks[i]).owed + left <= u64::MAX
    &&& forall|k: int| 0 <= k < b.billed.len() ==> (#[trigger] b.billed[k]) + left <= u64::MAX
}

/// A bill with room grows by what it is charged, and stays no shorter than its cells.
proof fn charging_keeps(track: TrackView, span: BlameSpan)
    requires
        track.wf(),
        track.owed + span.accrual <= u64::MAX,
    ensures
        track.charged(span).wf(),
{
    if track.cells.len() > 0 {
        sum_is_no_debt(track.cells.drop_last());
    }
    crate::blame::tracks::billing_adds_the_accrual(track.cells, span);
}

/// Billing one interval keeps the books in order.
proof fn billing_keeps(b: Books, span: BlameSpan, left: int)
    requires
        open_books(b, left),
        span.accrual <= left,
    ensures
        open_books(bill_one(b, span), left - span.accrual),
{
    broadcast use crate::engine::tagged::without_contains;

    let i = slot_of(b.tracks, span.id);
    let after = bill_one(b, span);
    slot_splits(b.tracks, span.id);
    landing_is_there(b.landed, span.id);
    assert forall|j: int| 0 <= j < after.landed.len() implies known(
        (#[trigger] after.landed[j]).tenant,
    ) by {
        assert(after.landed.contains(after.landed[j]));
        let k = choose|k: int| 0 <= k < b.landed.len() && b.landed[k] == after.landed[j];
        assert(known(b.landed[k].tenant));
    }
    if has_track(b.tracks, span.id) {
        charging_keeps(b.tracks[i], span);
    } else if landing(b.landed, span.id) is Some {
        let who = landing(b.landed, span.id)->0;
        let k = choose|k: int| 0 <= k < b.landed.len() && b.landed[k] == who;
        assert(known(b.landed[k].tenant));
        let fresh = TrackView::opened(who, span);
        assert(sum_of(fresh.cells) == 0);
        charging_keeps(fresh, span);
        assert(after.tracks =~= b.tracks.subrange(0, i).push(fresh.charged(span)).add(
            b.tracks.subrange(i, b.tracks.len() as int),
        ));
        assert forall|x: int, y: int| 0 <= x < y < after.tracks.len() implies (
        #[trigger] after.tracks[x]).id < (#[trigger] after.tracks[y]).id by {
            if x < i && y == i {
                assert(b.tracks[x].id < span.id);
            } else if x < i && y > i {
                assert(b.tracks[x].id < b.tracks[y - 1].id);
            } else if x == i {
                assert(b.tracks[y - 1].id >= span.id);
                assert(b.tracks[i].id != span.id);
                if y - 1 > i {
                    assert(b.tracks[i].id < b.tracks[y - 1].id);
                }
            } else if x > i {
                assert(b.tracks[x - 1].id < b.tracks[y - 1].id);
            }
        }
        assert forall|x: int| 0 <= x < after.tracks.len() implies (#[trigger] after.tracks[x]).wf()
            && known(after.tracks[x].tenant) && after.tracks[x].owed + (left - span.accrual)
            <= u64::MAX by {
            if x < i {
                assert(b.tracks[x].wf() && b.tracks[x].owed + left <= u64::MAX);
            } else if x > i {
                assert(b.tracks[x - 1].wf() && b.tracks[x - 1].owed + left <= u64::MAX);
            }
        }
    }
}

impl Panel {
    pub open spec fn wf(self) -> bool {
        &&& self@.wf()
        &&& self.seats.wf()
    }

    /// Nothing seen yet.
    pub fn new() -> (p: Panel)
        ensures
            p.wf(),
            p@ == (PanelView {
                t: 0,
                real_t: 0,
                epoch: 0,
                landed: Seq::empty(),
                tracks: Seq::empty(),
                shut: Seq::empty(),
                ghosts: Seq::empty(),
                lanes: Seq::new(LANES as nat, |i: int| None),
                order: Seq::new(LANES as nat, |i: int| i as usize),
                billed: Seq::new(TENANT_COUNT as nat, |k: int| 0),
                gathered: 0,
                fares: Seq::new(TENANT_COUNT as nat, |k: int| 0),
                meter: 0,
                unattributed: 0,
                shut_now: false,
                inflight: 0,
                occupiers: Seq::empty(),
                charge: 0,
            }),
    {
        let p = Panel {
            t: 0,
            real_t: 0,
            epoch: 0,
            landed: Vec::new(),
            tracks: Vec::new(),
            shut: Vec::new(),
            ghosts: VecDeque::new(),
            seats: Seats::new(),
            billed: vec![0, 0, 0],
            gathered: 0,
            fares: vec![0, 0, 0],
            meter: 0,
            unattributed: 0,
            shut_now: false,
            inflight: 0,
            occupiers: Vec::new(),
            charge: 0,
        };
        assert(p@.tracks =~= Seq::empty());
        assert(p@.lanes =~= Seq::new(LANES as nat, |i: int| None));
        assert(p@.order =~= Seq::new(LANES as nat, |i: int| i as usize));
        assert(p@.billed =~= Seq::new(TENANT_COUNT as nat, |k: int| 0));
        assert(p@.fares =~= Seq::new(TENANT_COUNT as nat, |k: int| 0));
        p
    }

    /// A request lands on the server. One that has already landed keeps its first landing.
    pub fn land(&mut self, id: u32, at: Ticks, tenant: Option<usize>)
        requires
            old(self).wf(),
            known(tenant),
        ensures
            final(self).wf(),
            final(self)@ == (PanelView {
                landed: if landing(old(self)@.landed, id) is Some {
                    old(self)@.landed
                } else {
                    old(self)@.landed.push(Landed { id, at, tenant })
                },
                ..old(self)@
            }),
    {
        if self.landing(id).is_none() {
            self.landed.push(Landed { id, at, tenant });
        }
    }

    /// The landing of a request that has one.
    fn landing(&self, id: u32) -> (who: Option<Landed>)
        ensures
            who == landing(self.landed@, id),
    {
        let mut n: usize = self.landed.len();
        assert(self.landed@.take(n as int) =~= self.landed@);
        while n > 0
            invariant
                n <= self.landed@.len(),
                landing(self.landed@.take(n as int), id) == landing(self.landed@, id),
            decreases n,
        {
            assert(self.landed@.take(n as int).drop_last() =~= self.landed@.take(n - 1));
            let who: Landed = self.landed[n - 1];
            if who.id == id {
                return Some(who);
            }
            n -= 1;
        }
        None
    }

    /// Advance the wall clock, once per rendered frame: a frame is what a reader sees, whatever
    /// the speed knob bought. A clock that steps back is one that stands still.
    pub fn tick_real(&mut self, dt: i64)
        requires
            old(self).wf(),
            dt > 0 ==> old(self).real_t + dt <= u64::MAX,
        ensures
            final(self).wf(),
            final(self)@ == (PanelView {
                real_t: if dt > 0 {
                    (old(self).real_t + dt) as Wall
                } else {
                    old(self).real_t
                },
                ..old(self)@
            }),
    {
        if dt > 0 {
            self.real_t = self.real_t + dt as u64;
        }
    }

    /// Bank the fares reported since the last frame, each to the tenant it names.
    pub fn bank(&mut self, fares: &Vec<(&'static str, Ticks)>)
        requires
            old(self).wf(),
            forall|k: int|
                0 <= k < TENANT_COUNT ==> (#[trigger] old(self).fares@[k]) + fare_sum(
                    fares@,
                    fares@.len() as int,
                ) <= u64::MAX,
        ensures
            final(self).wf(),
            final(self)@ == (PanelView {
                fares: banked(old(self)@.fares, fares@, fares@.len() as int),
                ..old(self)@
            }),
    {
        let mut i: usize = 0;
        while i < fares.len()
            invariant
                i <= fares@.len(),
                self.wf(),
                self@ == (PanelView {
                    fares: banked(old(self)@.fares, fares@, i as int),
                    ..old(self)@
                }),
                forall|k: int|
                    0 <= k < TENANT_COUNT ==> (#[trigger] self.fares@[k]) + fare_sum(
                        fares@,
                        fares@.len() as int,
                    ) - fare_sum(fares@, i as int) <= u64::MAX,
            decreases fares@.len() - i,
        {
            proof {
                fares_only_add(fares@, i + 1, fares@.len() as int);
            }
            if let Some(k) = tenant_of(Some(fares[i].0)) {
                let sum: Ticks = self.fares[k] + fares[i].1;
                self.fares.set(k, sum);
            }
            i += 1;
        }
    }

    /// Where a request's track stands, or would stand.
    pub fn slot(&self, id: u32) -> (i: usize)
        ensures
            i == slot_of(self@.tracks, id),
            i <= self.tracks@.len(),
    {
        let ghost tracks = self@.tracks;
        let mut n: usize = self.tracks.len();
        assert(tracks.take(n as int) =~= tracks);
        while n > 0
            invariant
                tracks == self@.tracks,
                n <= tracks.len(),
                slot_of(tracks.take(n as int), id) == slot_of(tracks, id),
            decreases n,
        {
            assert(tracks.take(n as int).drop_last() =~= tracks.take(n - 1));
            assert(tracks[n - 1] == self.tracks@[n - 1]@);
            if self.tracks[n - 1].id < id {
                return n;
            }
            n -= 1;
        }
        n
    }

    /// The index of a request's track, where it has one.
    pub fn track_of(&self, id: u32) -> (i: Option<usize>)
        ensures
            i == (if has_track(self@.tracks, id) {
                Some(slot_of(self@.tracks, id) as usize)
            } else {
                None
            }),
            i matches Some(i) ==> i < self.tracks@.len() && i == slot_of(self@.tracks, id),
    {
        let i: usize = self.slot(id);
        if i < self.tracks.len() {
            assert(self@.tracks[i as int] == self.tracks@[i as int]@);
            if self.tracks[i].id == id {
                return Some(i);
            }
        }
        None
    }

    spec fn books(self) -> Books {
        Books { landed: self@.landed, tracks: self@.tracks, billed: self@.billed }
    }

    /// Bill one interval.
    fn bill(&mut self, span: &BlameSpan, Ghost(left): Ghost<int>)
        requires
            old(self).wf(),
            open_books(old(self).books(), left),
            span.accrual <= left,
        ensures
            final(self).wf(),
            open_books(final(self).books(), left - span.accrual),
            ({
                let after = bill_one(old(self).books(), *span);
                final(self)@ == (PanelView {
                    landed: after.landed,
                    tracks: after.tracks,
                    billed: after.billed,
                    ..old(self)@
                })
            }),
    {
        let ghost before = self.books();
        proof {
            billing_keeps(before, *span, left);
            slot_splits(before.tracks, span.id);
            landing_is_there(before.landed, span.id);
        }
        let tenant: Option<usize>;
        match self.track_of(span.id) {
            Some(i) => {
                assert(before.tracks[i as int] == self.tracks@[i as int]@);
                let ghost whole = self.tracks@;
                let mut track = self.tracks.remove(i);
                track.charge(span);
                tenant = track.tenant;
                self.tracks.insert(i, track);
                assert(self.tracks@ =~= whole.update(i as int, track));
                assert(self@.tracks =~= bill_one(before, *span).tracks);
            },
            None => {
                let who: Landed = match self.landing(span.id) {
                    Some(who) => who,
                    None => {
                        return;
                    },
                };
                let i: usize = self.slot(span.id);
                drop_id(&mut self.landed, span.id);
                let mut track = Track::open(&who, span);
                assert(track@.wf()) by {
                    assert(sum_of(track@.cells) == 0);
                }
                track.charge(span);
                tenant = track.tenant;
                self.tracks.insert(i, track);
                assert(self@.tracks =~= bill_one(before, *span).tracks);
                proof {
                    let k = choose|k: int| 0 <= k < before.landed.len() && before.landed[k] == who;
                    assert(known(before.landed[k].tenant));
                }
            },
        }
        if let Some(k) = tenant {
            assert(before.billed[k as int] + left <= u64::MAX);
            let sum: Ticks = self.billed[k] + span.accrual;
            self.billed.set(k, sum);
        }
        proof {
            let after = bill_one(before, *span);
            assert(self@.billed =~= after.billed);
            assert(self@.landed =~= after.landed);
        }
    }
}

impl Panel {
    /// Merge the frame's shut intervals in.
    fn shut_in(&mut self, more: &Vec<(Ticks, Ticks)>)
        requires
            old(self).wf(),
        ensures
            final(self).wf(),
            final(self)@ == (PanelView {
                shut: with_shuts(old(self)@.shut, more@, more@.len() as int),
                ..old(self)@
            }),
    {
        let mut i: usize = 0;
        while i < more.len()
            invariant
                i <= more@.len(),
                self.wf(),
                self@ == (PanelView {
                    shut: with_shuts(old(self)@.shut, more@, i as int),
                    ..old(self)@
                }),
            decreases more@.len() - i,
        {
            let next: (Ticks, Ticks) = more[i];
            let n: usize = self.shut.len();
            if n > 0 && self.shut[n - 1].1 == next.0 {
                let from: Ticks = self.shut[n - 1].0;
                self.shut.set(n - 1, (from, next.1));
            } else {
                self.shut.push(next);
            }
            i += 1;
        }
    }

    /// End the row of everyone who no longer occupies the server.
    fn depart(&mut self, occupiers: &Vec<u32>, t: Ticks)
        requires
            old(self).wf(),
        ensures
            final(self).wf(),
            final(self)@ == (PanelView {
                tracks: departed(old(self)@.tracks, occupiers@, t),
                ..old(self)@
            }),
    {
        let ghost all = self@.tracks;
        let ghost after = departed(all, occupiers@, t);
        let mut i: usize = 0;
        while i < self.tracks.len()
            invariant
                i <= self.tracks@.len(),
                self.tracks@.len() == all.len(),
                all == old(self)@.tracks,
                after == departed(all, occupiers@, t),
                old(self).wf(),
                self.seats.wf(),
                self@ == (PanelView { tracks: self@.tracks, ..old(self)@ }),
                forall|j: int| 0 <= j < i ==> #[trigger] self.tracks@[j]@ == after[j],
                forall|j: int| i <= j < all.len() ==> #[trigger] self.tracks@[j]@ == all[j],
            decreases self.tracks@.len() - i,
        {
            assert(self.tracks@[i as int]@ == all[i as int]);
            if self.tracks[i].out.is_none() && !holds(occupiers, self.tracks[i].id) {
                let ghost whole = self.tracks@;
                let mut track = self.tracks.remove(i);
                track.out = Some(t);
                self.tracks.insert(i, track);
                assert(self.tracks@ =~= whole.update(i as int, track));
            }
            i += 1;
        }
        assert(self@.tracks =~= after);
        assert(in_order(after)) by {
            assert forall|i: int, j: int| 0 <= i < j < after.len() implies (
            #[trigger] after[i]).id < (#[trigger] after[j]).id by {
                assert(all[i].id < all[j].id);
            }
            assert forall|i: int| 0 <= i < after.len() implies (#[trigger] after[i]).wf() && known(
                after[i].tenant,
            ) by {
                assert(all[i].wf());
            }
        }
    }

    /// Seat the occupiers, and leave a ghost where each of them stood who left.
    fn recycle_lanes(&mut self)
        requires
            old(self).wf(),
        ensures
            final(self).wf(),
            final(self)@ == reseated(old(self)@),
    {
        let ghost before = self@;
        let left = self.seats.recycle(&self.occupiers);
        let mut i: usize = 0;
        while i < left.len()
            invariant
                i <= left@.len(),
                self.wf(),
                before == old(self)@,
                left@ == leavers(before.lanes, before.occupiers, LANES as int),
                self@ == (PanelView {
                    ghosts: haunted(
                        before.ghosts,
                        before.tracks,
                        left@,
                        i as int,
                        before.t,
                        before.real_t,
                    ),
                    ..reseated(before)
                }),
            decreases left@.len() - i,
        {
            if let Some(k) = self.track_of(left[i]) {
                assert(self@.tracks[k as int] == self.tracks@[k as int]@);
                let n: usize = self.tracks[k].cells.len();
                if n > 0 {
                    let last: BlameSpan = self.tracks[k].cells[n - 1];
                    self.ghosts.push_back(
                        Echo {
                            tenant: self.tracks[k].tenant,
                            pos: last.pos,
                            n: last.n,
                            out: self.t,
                            born: self.real_t,
                        },
                    );
                }
            }
            proof {
                let ghosts = haunted(
                    before.ghosts,
                    before.tracks,
                    left@,
                    i + 1,
                    before.t,
                    before.real_t,
                );
                assert(self@.ghosts =~= ghosts);
            }
            i += 1;
        }
    }

    /// Strike a long sample once enough virtual time has gathered.
    fn sample_long(&mut self, dt: Ticks) -> (sample: Option<LongSample>)
        requires
            old(self).wf(),
            dt + LONG_SAMPLE <= u64::MAX,
        ensures
            final(self).wf(),
            final(self)@ == struck(old(self)@, dt),
            sample is Some <==> sample_due(old(self)@, dt),
            sample matches Some(s) ==> s.billed@ == old(self)@.billed && s.over
                == old(self)@.gathered + dt,
    {
        let over: Ticks = self.gathered + dt;
        if over < LONG_SAMPLE {
            self.gathered = over;
            return None;
        }
        let mut billed: Vec<Ticks> = vec![0, 0, 0];
        std::mem::swap(&mut billed, &mut self.billed);
        self.gathered = 0;
        assert(self@.billed =~= Seq::new(TENANT_COUNT as nat, |k: int| 0));
        Some(LongSample { billed, over })
    }

    /// Forget the tracks the window has left behind, and the cells of the rest.
    fn trim_tracks(&mut self)
        requires
            old(self).wf(),
        ensures
            final(self).wf(),
            final(self)@ == (PanelView {
                tracks: windowed(old(self)@.tracks, old(self)@.t),
                ..old(self)@
            }),
    {
        let ghost all = self@.tracks;
        let ghost t = self.t;
        let ghost cut = all.map_values(|track: TrackView| track.windowed(t, WINDOW));
        let ghost keep = |track: TrackView| track.out matches Some(out) ==> inside(out, t);
        let now: Ticks = self.t;
        let mut i: usize = 0;
        let ghost mut seen: int = 0;
        assert(kept(cut.take(0), keep) =~= Seq::empty());
        assert(self@.tracks =~= kept(cut.take(0), keep) + all.skip(0));
        while i < self.tracks.len()
            invariant
                0 <= seen <= all.len(),
                i == kept(cut.take(seen), keep).len(),
                all == old(self)@.tracks,
                t == old(self)@.t,
                t == now,
                in_order(all),
                cut == all.map_values(|track: TrackView| track.windowed(t, WINDOW)),
                keep == (|track: TrackView| track.out matches Some(out) ==> inside(out, t)),
                self@.tracks == kept(cut.take(seen), keep) + all.skip(seen),
                self@ == (PanelView { tracks: self@.tracks, ..old(self)@ }),
                self.seats.wf(),
            decreases all.len() - seen,
        {
            let ghost front = kept(cut.take(seen), keep);
            let ghost whole = self.tracks@;
            proof {
                assert(self@.tracks.len() == whole.len());
                assert(seen < all.len());
                assert(self@.tracks[i as int] == all[seen]);
                assert(whole[i as int]@ == all[seen]);
                kept_further(cut, keep, seen);
            }
            let mut track = self.tracks.remove(i);
            track.window(now, WINDOW);
            let stays: bool = match track.out {
                Some(out) => out as u128 + WINDOW as u128 >= now as u128,
                None => true,
            };
            assert(track@ == cut[seen]);
            assert(stays == keep(cut[seen]));
            if stays {
                self.tracks.insert(i, track);
                assert(self.tracks@ =~= whole.update(i as int, track));
                i += 1;
            }
            proof {
                let was = tracks_view(whole);
                assert(was == front + all.skip(seen));
                assert forall|j: int| 0 <= j < whole.len() implies #[trigger] whole[j]@
                    == was[j] by {}
                seen = seen + 1;
                assert(self@.tracks =~= kept(cut.take(seen), keep) + all.skip(seen));
            }
        }
        proof {
            assert(cut.take(cut.len() as int) =~= cut);
            assert(self@.tracks =~= kept(cut, keep));
            windowing_keeps_order(all, t);
        }
    }

    /// Forget what the window has left behind.
    fn trim(&mut self)
        requires
            old(self).wf(),
        ensures
            final(self).wf(),
            final(self)@ == trimmed(old(self)@),
    {
        let ghost before = self@;
        let ghost t = self.t;
        let now: Ticks = self.t;
        let ghost open = |s: (Ticks, Ticks)| inside(s.1, t);
        let mut shut: Vec<(Ticks, Ticks)> = Vec::new();
        let mut i: usize = 0;
        while i < self.shut.len()
            invariant
                i <= self.shut@.len(),
                self@ == before,
                t == now,
                open == (|s: (Ticks, Ticks)| inside(s.1, t)),
                shut@ == kept(before.shut.take(i as int), open),
            decreases self.shut@.len() - i,
        {
            proof {
                kept_further(before.shut, open, i as int);
            }
            let s: (Ticks, Ticks) = self.shut[i];
            if s.1 as u128 + WINDOW as u128 >= now as u128 {
                shut.push(s);
            }
            i += 1;
        }
        assert(before.shut.take(before.shut.len() as int) =~= before.shut);
        self.shut = shut;
        let ghost here = |l: Landed| inside(l.at, t);
        let mut landed: Vec<Landed> = Vec::new();
        let mut i: usize = 0;
        while i < self.landed.len()
            invariant
                i <= self.landed@.len(),
                self.landed@ == before.landed,
                t == now,
                here == (|l: Landed| inside(l.at, t)),
                landed@ == kept(before.landed.take(i as int), here),
            decreases self.landed@.len() - i,
        {
            proof {
                kept_further(before.landed, here, i as int);
            }
            let l: Landed = self.landed[i];
            if l.at as u128 + WINDOW as u128 >= now as u128 {
                landed.push(l);
            }
            i += 1;
        }
        assert(before.landed.take(before.landed.len() as int) =~= before.landed);
        proof {
            assert forall|j: int| 0 <= j < landed@.len() implies known(
                (#[trigger] landed@[j]).tenant,
            ) by {
                crate::kept::kept_contains(before.landed, here, landed@[j]);
                assert(landed@.contains(landed@[j]));
                let k = choose|k: int| 0 <= k < before.landed.len() && before.landed[k] == landed@[j];
                assert(known(before.landed[k].tenant));
            }
        }
        self.landed = landed;
        while self.ghosts.len() > 0 && self.real_t > self.ghosts[0].born && self.real_t
            - self.ghosts[0].born > GHOST_FADE
            invariant
                unfaded(self@.ghosts, self.real_t) == unfaded(before.ghosts, before.real_t),
                self@ == (PanelView {
                    shut: kept(before.shut, open),
                    landed: kept(before.landed, here),
                    ghosts: self@.ghosts,
                    ..before
                }),
                self.wf(),
            decreases self.ghosts@.len(),
        {
            let ghost was = self.ghosts@;
            let gone = self.ghosts.pop_front();
            assert(self.ghosts@ =~= was.drop_first());
        }
        self.trim_tracks();
    }

    /// Fold one engine frame in, and hand out a long sample where one is due.
    pub fn absorb(&mut self, obs: &Obs) -> (sample: Option<LongSample>)
        requires
            old(self).wf(),
            old(self)@.room_for(obs.blame.spans@),
            obs.t + LONG_SAMPLE <= u64::MAX,
        ensures
            final(self).wf(),
            ({
                let dt = moved_on(old(self).t, obs.t);
                let p = folded(old(self)@, *obs);
                &&& final(self)@ == trimmed(struck(p, dt))
                &&& sample is Some <==> sample_due(p, dt)
                &&& sample matches Some(s) ==> s.billed@ == p.billed && s.over == p.gathered + dt
            }),
    {
        let ghost before = self@;
        let dt: Ticks = if obs.t >= self.t {
            obs.t - self.t
        } else {
            0
        };
        self.t = obs.t;
        self.shut_in(&obs.blame.shut);
        let ghost books = self.books();
        let spans: &Vec<BlameSpan> = &obs.blame.spans;
        let mut i: usize = 0;
        proof {
            assert(spans@.take(0) =~= Seq::empty());
            sum_is_no_debt(spans@);
        }
        while i < spans.len()
            invariant
                i <= spans@.len(),
                self.wf(),
                open_books(self.books(), sum_of(spans@) - sum_of(spans@.take(i as int))),
                self.books() == bill_all(books, spans@, i as int),
                self@ == (PanelView {
                    t: obs.t,
                    shut: with_shuts(before.shut, obs.blame.shut@, obs.blame.shut@.len() as int),
                    landed: self@.landed,
                    tracks: self@.tracks,
                    billed: self@.billed,
                    ..before
                }),
            decreases spans@.len() - i,
        {
            let ghost left = sum_of(spans@) - sum_of(spans@.take(i as int));
            proof {
                assert(spans@.take(i + 1).drop_last() =~= spans@.take(i as int));
                sums_only_grow(spans@, i + 1);
            }
            self.bill(&spans[i], Ghost(left));
            i += 1;
        }
        self.depart(&obs.blame.occupiers, obs.t);
        self.charge = if obs.blame.meter >= self.meter {
            obs.blame.meter - self.meter
        } else {
            0
        };
        self.meter = obs.blame.meter;
        self.unattributed = obs.blame.unattributed;
        self.shut_now = obs.blame.shut_now;
        self.inflight = obs.blame.inflight;
        self.occupiers = copy_all(&obs.blame.occupiers);
        self.recycle_lanes();
        let sample = self.sample_long(dt);
        self.trim();
        sample
    }
}

proof fn sums_only_grow(spans: Seq<BlameSpan>, n: int)
    requires
        0 <= n <= spans.len(),
    ensures
        sum_of(spans.take(n)) <= sum_of(spans),
    decreases spans.len() - n,
{
    if n < spans.len() {
        sums_only_grow(spans, n + 1);
        assert(spans.take(n + 1).drop_last() =~= spans.take(n));
    } else {
        assert(spans.take(n) =~= spans);
    }
}

/// The window's edge passing over the tracks leaves the rest in order.
proof fn windowing_keeps_order(tracks: Seq<TrackView>, t: Ticks)
    requires
        in_order(tracks),
    ensures
        in_order(windowed(tracks, t)),
{
    let keep = |track: TrackView| track.out matches Some(out) ==> inside(out, t);
    let cut = tracks.map_values(|track: TrackView| track.windowed(t, WINDOW));
    assert forall|i: int, j: int| 0 <= i < j < cut.len() implies (#[trigger] cut[i]).id < (
    #[trigger] cut[j]).id by {
        assert(tracks[i].id < tracks[j].id);
    }
    assert forall|i: int| 0 <= i < cut.len() implies (#[trigger] cut[i]).wf() && known(
        cut[i].tenant,
    ) by {
        assert(tracks[i].wf());
        crate::blame::tracks::keeping_sums_to_less(
            tracks[i].cells,
            |c: BlameSpan| c.t_b + WINDOW >= t,
        );
    }
    keeping_keeps_order(cut, keep);
}

proof fn keeping_keeps_order(tracks: Seq<TrackView>, keep: spec_fn(TrackView) -> bool)
    requires
        in_order(tracks),
    ensures
        in_order(kept(tracks, keep)),
    decreases tracks.len(),
{
    if tracks.len() > 0 {
        let front = tracks.drop_last();
        let n = tracks.len();
        assert forall|i: int, j: int| 0 <= i < j < front.len() implies (#[trigger] front[i]).id < (
        #[trigger] front[j]).id by {
            assert(tracks[i].id < tracks[j].id);
        }
        assert forall|i: int| 0 <= i < front.len() implies (#[trigger] front[i]).wf() && known(
            front[i].tenant,
        ) by {
            assert(tracks[i].wf());
        }
        keeping_keeps_order(front, keep);
        let rest = kept(front, keep);
        assert(tracks[n - 1].wf());
        assert forall|i: int| 0 <= i < rest.len() implies (#[trigger] rest[i]).id
            < tracks.last().id by {
            crate::kept::kept_contains(front, keep, rest[i]);
            assert(rest.contains(rest[i]));
            let k = choose|k: int| 0 <= k < front.len() && front[k] == rest[i];
            assert(tracks[k].id < tracks[n - 1].id);
        }
    }
}

proof fn fares_only_add(more: Seq<(&'static str, Ticks)>, m: int, n: int)
    requires
        0 <= m <= n <= more.len(),
    ensures
        0 <= fare_sum(more, m) <= fare_sum(more, n),
    decreases n,
{
    if m < n {
        fares_only_add(more, m, n - 1);
    } else if m > 0 {
        fares_only_add(more, m - 1, n - 1);
    }
}

// ----- whose bill it is ------------------------------------------------------

/// Whether a request is tenant `k`'s: its track says so where it has one, and its latest landing
/// where it has not been let in.
pub open spec fn is_tenants(b: Books, id: u32, k: usize) -> bool {
    if exists|i: int| 0 <= i < b.tracks.len() && (#[trigger] b.tracks[i]).id == id {
        exists|i: int|
            0 <= i < b.tracks.len() && (#[trigger] b.tracks[i]).id == id && b.tracks[i].tenant
                == Some(k)
    } else {
        exists|i: int|
            0 <= i < b.landed.len() && (#[trigger] b.landed[i]).id == id && b.landed[i].tenant
                == Some(k) && forall|j: int|
                i < j < b.landed.len() ==> (#[trigger] b.landed[j]).id != id
    }
}

/// What the first `n` intervals charge to tenant `k`'s requests.
pub open spec fn accrued_by(b: Books, spans: Seq<BlameSpan>, k: usize, n: int) -> int
    decreases n,
{
    if n <= 0 {
        0
    } else if is_tenants(b, spans[n - 1].id, k) {
        accrued_by(b, spans, k, n - 1) + spans[n - 1].accrual
    } else {
        accrued_by(b, spans, k, n - 1)
    }
}

/// A track is found where there is one.
proof fn a_track_is_found(tracks: Seq<TrackView>, id: u32)
    requires
        in_order(tracks),
    ensures
        has_track(tracks, id) <==> exists|i: int|
            0 <= i < tracks.len() && (#[trigger] tracks[i]).id == id,
        forall|i: int|
            0 <= i < tracks.len() && (#[trigger] tracks[i]).id == id ==> i == slot_of(tracks, id),
{
    slot_splits(tracks, id);
    let s = slot_of(tracks, id);
    assert forall|i: int| 0 <= i < tracks.len() && (#[trigger] tracks[i]).id == id implies i
        == s by {
        if s < i {
            assert(tracks[s].id < tracks[i].id);
        }
    }
}

/// The landing found is the latest.
proof fn a_landing_is_the_latest(landed: Seq<Landed>, id: u32) -> (at: int)
    ensures
        landing(landed, id) matches Some(who) ==> 0 <= at < landed.len() && landed[at] == who
            && who.id == id && forall|j: int|
            at < j < landed.len() ==> (#[trigger] landed[j]).id != id,
        landing(landed, id) is None ==> forall|j: int|
            0 <= j < landed.len() ==> (#[trigger] landed[j]).id != id,
    decreases landed.len(),
{
    if landed.len() == 0 {
        0
    } else if landed.last().id == id {
        landed.len() - 1
    } else {
        let front = landed.drop_last();
        let at = a_landing_is_the_latest(front, id);
        assert forall|j: int| at < j < landed.len() && landing(landed, id) is Some implies (
        #[trigger] landed[j]).id != id by {
            if j < front.len() {
                assert(front[j].id != id);
            }
        }
        assert forall|j: int| 0 <= j < landed.len() && landing(landed, id) is None implies (
        #[trigger] landed[j]).id != id by {
            if j < front.len() {
                assert(front[j].id != id);
            }
        }
        at
    }
}

/// Who a request's is, as billing looks it up.
proof fn a_tenants_request_is_looked_up(b: Books, id: u32, k: usize)
    requires
        in_order(b.tracks),
    ensures
        is_tenants(b, id, k) <==> (if has_track(b.tracks, id) {
            b.tracks[slot_of(b.tracks, id)].tenant == Some(k)
        } else {
            landing(b.landed, id) matches Some(who) && who.tenant == Some(k)
        }),
{
    a_track_is_found(b.tracks, id);
    slot_splits(b.tracks, id);
    let at = a_landing_is_the_latest(b.landed, id);
    if has_track(b.tracks, id) {
        let s = slot_of(b.tracks, id);
        assert(b.tracks[s].id == id);
    } else {
        if landing(b.landed, id) is Some {
            assert(b.landed[at].id == id);
        }
    }
}

/// Taking a request's landings away leaves everyone else's latest.
proof fn other_landings_stand(landed: Seq<Landed>, gone: u32, id: u32)
    requires
        gone != id,
    ensures
        landing(without(landed, gone), id) == landing(landed, id),
    decreases landed.len(),
{
    if landed.len() > 0 {
        other_landings_stand(landed.drop_last(), gone, id);
        let rest = without(landed.drop_last(), gone);
        if landed.last().id != gone {
            assert(rest.push(landed.last()).drop_last() =~= rest);
        }
    }
}

/// Billing an interval moves the tally of the tenant whose request it is by what it accrued, and
/// no other; and it changes nobody's tenant.
proof fn one_interval_is_its_tenants(b: Books, span: BlameSpan, left: int, k: usize)
    requires
        open_books(b, left),
        span.accrual <= left,
        k < TENANT_COUNT,
    ensures
        bill_one(b, span).billed[k as int] == b.billed[k as int] + if is_tenants(b, span.id, k) {
            span.accrual as int
        } else {
            0
        },
        forall|id: u32| #[trigger] is_tenants(bill_one(b, span), id, k) <==> is_tenants(b, id, k),
{
    let after = bill_one(b, span);
    billing_keeps(b, span, left);
    a_tenants_request_is_looked_up(b, span.id, k);
    slot_splits(b.tracks, span.id);
    landing_is_there(b.landed, span.id);
    let i = slot_of(b.tracks, span.id);
    if has_track(b.tracks, span.id) {
        assert(known(b.tracks[i].tenant));
    } else if landing(b.landed, span.id) is Some {
        let who = landing(b.landed, span.id)->0;
        let j = choose|j: int| 0 <= j < b.landed.len() && b.landed[j] == who;
        assert(known(b.landed[j].tenant));
    }
    assert(b.billed[k as int] + left <= u64::MAX);
    assert forall|id: u32| #[trigger] is_tenants(after, id, k) <==> is_tenants(b, id, k) by {
        a_tenants_request_is_looked_up(b, id, k);
        a_tenants_request_is_looked_up(after, id, k);
        a_track_is_found(b.tracks, id);
        a_track_is_found(after.tracks, id);
        slot_splits(b.tracks, id);
        slot_splits(after.tracks, id);
        let (s, t) = (slot_of(b.tracks, id), slot_of(after.tracks, id));
        if has_track(b.tracks, span.id) {
            assert(after.tracks.len() == b.tracks.len());
            assert forall|x: int| 0 <= x < b.tracks.len() implies (#[trigger] after.tracks[x]).id
                == b.tracks[x].id && after.tracks[x].tenant == b.tracks[x].tenant by {}
            if has_track(b.tracks, id) {
                assert(after.tracks[s].id == id);
            }
            if has_track(after.tracks, id) {
                assert(b.tracks[t].id == id);
            }
        } else if landing(b.landed, span.id) is Some {
            if id == span.id {
                assert(after.tracks[i].id == id);
            } else {
                other_landings_stand(b.landed, span.id, id);
                if has_track(b.tracks, id) {
                    let y = if s < i {
                        s
                    } else {
                        s + 1
                    };
                    assert(after.tracks[y] == b.tracks[s]);
                    assert(after.tracks[y].id == id);
                }
                if has_track(after.tracks, id) {
                    let y = if t < i {
                        t
                    } else {
                        t - 1
                    };
                    assert(t != i);
                    assert(after.tracks[t] == b.tracks[y]);
                    assert(b.tracks[y].id == id);
                }
            }
        }
    }
}

proof fn intervals_are_their_tenants(b: Books, spans: Seq<BlameSpan>, k: usize, n: int)
    requires
        open_books(b, sum_of(spans)),
        k < TENANT_COUNT,
        0 <= n <= spans.len(),
    ensures
        open_books(bill_all(b, spans, n), sum_of(spans) - sum_of(spans.take(n))),
        bill_all(b, spans, n).billed[k as int] == b.billed[k as int] + accrued_by(b, spans, k, n),
        forall|id: u32| #[trigger]
            is_tenants(bill_all(b, spans, n), id, k) <==> is_tenants(b, id, k),
    decreases n,
{
    if n <= 0 {
        assert(spans.take(0) =~= Seq::empty());
    } else {
        intervals_are_their_tenants(b, spans, k, n - 1);
        assert(spans.take(n).drop_last() =~= spans.take(n - 1));
        sums_only_grow(spans, n);
        let before = bill_all(b, spans, n - 1);
        let left = sum_of(spans) - sum_of(spans.take(n - 1));
        billing_keeps(before, spans[n - 1], left);
        one_interval_is_its_tenants(before, spans[n - 1], left, k);
        assert(is_tenants(before, spans[n - 1].id, k) <==> is_tenants(b, spans[n - 1].id, k));
    }
}

/// The panel's books.
pub open spec fn books_of(p: PanelView) -> Books {
    Books { landed: p.landed, tracks: p.tracks, billed: p.billed }
}

/// A frame charges each tenant for exactly the intervals its own requests occupied: every tally
/// grows by the accruals of the spans whose request is that tenant's, and by nothing else.
pub proof fn each_tenant_pays_for_its_own(p: PanelView, obs: Obs, k: usize)
    requires
        p.wf(),
        p.room_for(obs.blame.spans@),
        k < TENANT_COUNT,
    ensures
        folded(p, obs).billed[k as int] == p.billed[k as int] + accrued_by(
            books_of(p),
            obs.blame.spans@,
            k,
            obs.blame.spans@.len() as int,
        ),
{
    sum_is_no_debt(obs.blame.spans@);
    intervals_are_their_tenants(
        books_of(p),
        obs.blame.spans@,
        k,
        obs.blame.spans@.len() as int,
    );
}

/// One interval of one tenant's request moves that tenant's tally by what it accrued and leaves
/// every other where it was; one for a request that never landed moves none.
pub proof fn an_interval_moves_one_tally(p: PanelView, obs: Obs, span: BlameSpan, k: usize)
    requires
        p.wf(),
        p.room_for(seq![span]),
        obs.blame.spans@ == seq![span],
        k < TENANT_COUNT,
    ensures
        is_tenants(books_of(p), span.id, k) ==> folded(p, obs).billed == p.billed.update(
            k as int,
            (p.billed[k as int] + span.accrual) as Ticks,
        ),
        (forall|j: usize| j < TENANT_COUNT ==> !#[trigger] is_tenants(books_of(p), span.id, j))
            ==> folded(p, obs).billed == p.billed,
{
    let b = books_of(p);
    let after = folded(p, obs);
    assert(seq![span].drop_last() =~= Seq::empty());
    reveal_with_fuel(sum_of, 3);
    reveal_with_fuel(accrued_by, 3);
    assert(sum_of(seq![span]) == span.accrual);
    assert forall|j: usize| j < TENANT_COUNT implies #[trigger] after.billed[j as int]
        == p.billed[j as int] + if is_tenants(b, span.id, j) {
        span.accrual as int
    } else {
        0
    } by {
        each_tenant_pays_for_its_own(p, obs, j);
    }
    intervals_are_their_tenants(b, seq![span], k, 1);
    assert(after.billed.len() == TENANT_COUNT);
    a_track_is_found(b.tracks, span.id);
    a_tenants_request_is_looked_up(b, span.id, k);
    assert forall|j: int| 0 <= j < TENANT_COUNT && j != k && is_tenants(
        b,
        span.id,
        k,
    ) implies #[trigger] after.billed[j] == p.billed[j] by {
        a_tenants_request_is_looked_up(b, span.id, j as usize);
        assert(after.billed[(j as usize) as int] == p.billed[j]);
    }
    assert forall|j: int| 0 <= j < TENANT_COUNT && !is_tenants(
        b,
        span.id,
        j as usize,
    ) implies #[trigger] after.billed[j] == p.billed[j] by {
        assert(after.billed[(j as usize) as int] == p.billed[j]);
    }
    assert(p.billed[k as int] + sum_of(seq![span]) <= u64::MAX);
    assert(after.billed[k as int] == p.billed[k as int] + if is_tenants(b, span.id, k) {
        span.accrual as int
    } else {
        0
    });
    if is_tenants(b, span.id, k) {
        assert(after.billed =~= p.billed.update(
            k as int,
            (p.billed[k as int] + span.accrual) as Ticks,
        ));
    } else if forall|j: usize| j < TENANT_COUNT ==> !#[trigger] is_tenants(b, span.id, j) {
        assert forall|j: int| 0 <= j < TENANT_COUNT implies after.billed[j] == p.billed[j] by {
            assert(!is_tenants(b, span.id, j as usize));
        }
        assert(after.billed =~= p.billed);
    }
}

/// What a request that has just landed accrues is charged to the tenant it landed under.
pub proof fn a_landing_names_who_pays(p: PanelView, id: u32, at: Ticks, tenant: usize, k: usize)
    requires
        p.wf(),
        forall|i: int| 0 <= i < p.tracks.len() ==> (#[trigger] p.tracks[i]).id != id,
    ensures
        is_tenants(
            books_of(
                PanelView { landed: p.landed.push(Landed { id, at, tenant: Some(tenant) }), ..p },
            ),
            id,
            k,
        ) <==> k == tenant,
{
    let landed = p.landed.push(Landed { id, at, tenant: Some(tenant) });
    assert(landed[landed.len() - 1].id == id);
}

/// A tenant's tally starts again from nothing when a long sample is taken, and is carried whole
/// until then; a sample is over at least [`LONG_SAMPLE`].
pub proof fn a_sample_strikes_the_tallies(p: PanelView, dt: Ticks, k: int)
    requires
        p.wf(),
        0 <= k < TENANT_COUNT,
    ensures
        p.gathered + dt >= LONG_SAMPLE ==> struck(p, dt).billed[k] == 0 && struck(p, dt).gathered
            == 0,
        p.gathered + dt < LONG_SAMPLE ==> struck(p, dt).billed[k] == p.billed[k] && struck(
            p,
            dt,
        ).gathered == p.gathered + dt,
{
}

// ----- fares, shut time, and who has left ------------------------------------

/// What the first `n` fares naming tenant `k` come to.
pub open spec fn fares_named(more: Seq<(&'static str, Ticks)>, k: int, n: int) -> int
    decreases n,
{
    if n <= 0 {
        0
    } else if more[n - 1].0@ == spec_tenant(k).id@ {
        fares_named(more, k, n - 1) + more[n - 1].1
    } else {
        fares_named(more, k, n - 1)
    }
}

/// A fare is banked to the tenant it names, and to nobody else: each tenant's bank grows by the
/// fares under its name.
pub proof fn a_fare_goes_to_the_tenant_it_names(
    fares: Seq<Ticks>,
    more: Seq<(&'static str, Ticks)>,
    k: int,
    n: int,
)
    requires
        fares.len() == TENANT_COUNT,
        0 <= k < TENANT_COUNT,
        0 <= n <= more.len(),
        forall|j: int|
            0 <= j < TENANT_COUNT ==> (#[trigger] fares[j]) + fare_sum(more, n) <= u64::MAX,
    ensures
        banked(fares, more, n).len() == TENANT_COUNT,
        banked(fares, more, n)[k] == fares[k] + fares_named(more, k, n),
        0 <= fares_named(more, k, n) <= fare_sum(more, n),
    decreases n,
{
    if n > 0 {
        fares_only_add(more, n - 1, n);
        assert forall|j: int| 0 <= j < TENANT_COUNT implies (#[trigger] fares[j]) + fare_sum(
            more,
            n - 1,
        ) <= u64::MAX by {
            assert(fares[j] + fare_sum(more, n) <= u64::MAX);
        }
        a_fare_goes_to_the_tenant_it_names(fares, more, k, n - 1);
        assert(fares[k] + fare_sum(more, n) <= u64::MAX);
        a_tenant_is_found_by_its_name(k);
        let named = spec_tenant_of(Some(more[n - 1].0@));
        if named is Some {
            let j = named->0;
            a_tenant_is_found_by_its_name(j);
            a_fare_goes_to_the_tenant_it_names(fares, more, j, n - 1);
            assert(fares[j] + fare_sum(more, n) <= u64::MAX);
        }
    }
}

/// Whether an instant falls in one of some intervals.
pub open spec fn covers(intervals: Seq<(Ticks, Ticks)>, at: Ticks) -> bool {
    exists|i: int|
        0 <= i < intervals.len() && (#[trigger] intervals[i]).0 <= at && at < intervals[i].1
}

/// Intervals that run forward.
pub open spec fn forward(intervals: Seq<(Ticks, Ticks)>) -> bool {
    forall|i: int| 0 <= i < intervals.len() ==> (#[trigger] intervals[i]).0 <= intervals[i].1
}

proof fn one_more_shut(shut: Seq<(Ticks, Ticks)>, next: (Ticks, Ticks), at: Ticks)
    requires
        forward(shut),
        next.0 <= next.1,
    ensures
        forward(with_shut(shut, next)),
        covers(with_shut(shut, next), at) <==> covers(shut, at) || next.0 <= at < next.1,
{
    let after = with_shut(shut, next);
    let n = shut.len();
    if n > 0 && shut.last().1 == next.0 {
        assert(shut[n - 1].0 <= shut[n - 1].1);
        assert(after[n - 1] == (shut.last().0, next.1));
        if covers(shut, at) {
            let i = choose|i: int| 0 <= i < n && (#[trigger] shut[i]).0 <= at && at < shut[i].1;
            assert(after[i].0 <= at < after[i].1);
        }
        if next.0 <= at < next.1 {
            assert(after[n - 1].0 <= at < after[n - 1].1);
        }
        if covers(after, at) {
            let i = choose|i: int| 0 <= i < n && (#[trigger] after[i]).0 <= at && at < after[i].1;
            if i < n - 1 {
                assert(shut[i].0 <= at < shut[i].1);
            } else if at < next.0 {
                assert(shut[n - 1].0 <= at < shut[n - 1].1);
            }
        }
    } else {
        assert(after[n as int] == next);
        if covers(shut, at) {
            let i = choose|i: int| 0 <= i < n && (#[trigger] shut[i]).0 <= at && at < shut[i].1;
            assert(after[i].0 <= at < after[i].1);
        }
        if next.0 <= at < next.1 {
            assert(after[n as int].0 <= at < after[n as int].1);
        }
        if covers(after, at) {
            let i = choose|i: int|
                0 <= i < after.len() && (#[trigger] after[i]).0 <= at && at < after[i].1;
            if i < n {
                assert(shut[i].0 <= at < shut[i].1);
            }
        }
    }
}

/// Merging a frame's shut intervals in forgets no shut time and makes none up: an instant is shut
/// after exactly where it was before or the frame says so.
pub proof fn shut_time_is_merged_whole(
    shut: Seq<(Ticks, Ticks)>,
    more: Seq<(Ticks, Ticks)>,
    n: int,
    at: Ticks,
)
    requires
        forward(shut),
        forward(more),
        0 <= n <= more.len(),
    ensures
        forward(with_shuts(shut, more, n)),
        covers(with_shuts(shut, more, n), at) <==> covers(shut, at) || covers(more.take(n), at),
    decreases n,
{
    if n <= 0 {
        assert(more.take(0).len() == 0);
    } else {
        shut_time_is_merged_whole(shut, more, n - 1, at);
        assert(more[n - 1].0 <= more[n - 1].1);
        one_more_shut(with_shuts(shut, more, n - 1), more[n - 1], at);
        let (a, b) = (more.take(n - 1), more.take(n));
        if covers(a, at) {
            let i = choose|i: int| 0 <= i < a.len() && (#[trigger] a[i]).0 <= at && at < a[i].1;
            assert(b[i].0 <= at < b[i].1);
        }
        if more[n - 1].0 <= at < more[n - 1].1 {
            assert(b[n - 1].0 <= at < b[n - 1].1);
        }
        if covers(b, at) {
            let i = choose|i: int| 0 <= i < b.len() && (#[trigger] b[i]).0 <= at && at < b[i].1;
            if i < n - 1 {
                assert(a[i].0 <= at < a[i].1);
            }
        }
    }
}

/// After a frame, whoever occupies the server has not left, whoever does not has, at the frame's
/// instant or at the earlier one already written down; and nothing else about a track moves.
pub proof fn a_track_ends_when_its_request_stops_occupying(
    tracks: Seq<TrackView>,
    occupiers: Seq<u32>,
    t: Ticks,
    i: int,
)
    requires
        0 <= i < tracks.len(),
    ensures
        ({
            let (was, now) = (tracks[i], departed(tracks, occupiers, t)[i]);
            &&& now.out is None ==> occupiers.contains(was.id)
            &&& occupiers.contains(was.id) ==> now.out == was.out
            &&& was.out is Some ==> now.out == was.out
            &&& now.out is Some && was.out is None ==> now.out == Some(t)
            &&& now == (TrackView { out: now.out, ..was })
        }),
{
}

/// Ghosts go in the order they came, each once its fade is over: where they stand oldest first,
/// the ones left are exactly the ones still fading.
pub proof fn only_the_fading_are_seen(ghosts: Seq<Echo>, real_t: Wall)
    requires
        forall|i: int, j: int|
            0 <= i <= j < ghosts.len() ==> (#[trigger] ghosts[i]).born <= (#[trigger] ghosts[j]).born,
    ensures
        ({
            let left = unfaded(ghosts, real_t);
            let gone = ghosts.len() - left.len();
            &&& 0 <= gone
            &&& left == ghosts.skip(gone)
            &&& forall|i: int|
                0 <= i < ghosts.len() ==> (i < gone <==> real_t - (#[trigger] ghosts[i]).born
                    > 400_000)
        }),
    decreases ghosts.len(),
{
    if ghosts.len() > 0 && real_t - ghosts[0].born > GHOST_FADE {
        let rest = ghosts.drop_first();
        assert forall|i: int, j: int| 0 <= i <= j < rest.len() implies (#[trigger] rest[i]).born
            <= (#[trigger] rest[j]).born by {
            assert(ghosts[i + 1].born <= ghosts[j + 1].born);
        }
        only_the_fading_are_seen(rest, real_t);
        let left = unfaded(ghosts, real_t);
        let gone = ghosts.len() - left.len();
        assert(left =~= ghosts.skip(gone));
        assert forall|i: int| 0 <= i < ghosts.len() implies (i < gone <==> real_t - (
        #[trigger] ghosts[i]).born > 400_000) by {
            if i > 0 {
                assert(rest[i - 1] == ghosts[i]);
            }
        }
    } else {
        assert(ghosts.skip(0) =~= ghosts);
        assert forall|i: int| 0 <= i < ghosts.len() implies real_t - (#[trigger] ghosts[i]).born
            <= 400_000 by {
            assert(ghosts[0].born <= ghosts[i].born);
        }
    }
}

/// What the panel keeps is what can still be seen: shut time, landings, cells and requests that ended
/// within the last eight tenths of a second, and every request still inside; and it forgets the
/// rest. Nothing else of it moves.
pub proof fn the_panel_keeps_what_can_be_seen(
    p: PanelView,
    s: (Ticks, Ticks),
    l: Landed,
    i: int,
)
    requires
        0 <= i < p.tracks.len(),
    ensures
        ({
            let after = trimmed(p);
            let track = p.tracks[i];
            &&& after.shut.contains(s) <==> p.shut.contains(s) && p.t - s.1 <= 800_000_000_000
            &&& after.landed.contains(l) <==> p.landed.contains(l) && p.t - l.at
                <= 800_000_000_000
            &&& track.out is None || p.t - track.out->0 <= 800_000_000_000
                ==> after.tracks.contains(track.windowed(p.t, WINDOW))
            &&& after.billed == p.billed && after.fares == p.fares && after.lanes == p.lanes
                && after.occupiers == p.occupiers && after.meter == p.meter && after.gathered
                == p.gathered
        }),
        forall|t: TrackView| #[trigger]
            trimmed(p).tracks.contains(t) ==> (t.out matches Some(out) ==> p.t - out
                <= 800_000_000_000),
{
    broadcast use crate::kept::kept_contains;

    let mapped = p.tracks.map_values(|track: TrackView| track.windowed(p.t, WINDOW));
    assert(mapped[i] == p.tracks[i].windowed(p.t, WINDOW));
    assert(mapped.contains(p.tracks[i].windowed(p.t, WINDOW)));
    assert forall|t: TrackView| #[trigger] trimmed(p).tracks.contains(t) implies (
    t.out matches Some(out) ==> p.t - out <= 800_000_000_000) by {
        assert(kept(
            mapped,
            |track: TrackView| track.out matches Some(out) ==> inside(out, p.t),
        ).contains(t));
    }
}

/// A request that leaves its lane leaves an echo where its last cell was, under its own tenant, from
/// when it left; one that nothing was ever billed to leaves none.
pub proof fn whoever_leaves_leaves_an_echo(
    ghosts: Seq<Echo>,
    tracks: Seq<TrackView>,
    left: Seq<u32>,
    n: int,
    t: Ticks,
    born: Wall,
)
    requires
        0 < n <= left.len(),
    ensures
        ({
            let before = haunted(ghosts, tracks, left, n - 1, t, born);
            let after = haunted(ghosts, tracks, left, n, t, born);
            let i = slot_of(tracks, left[n - 1]);
            let known = has_track(tracks, left[n - 1]) && tracks[i].cells.len() > 0;
            &&& !known ==> after == before
            &&& known ==> {
                &&& after.drop_last() == before
                &&& after.last().tenant == tracks[i].tenant
                &&& after.last().pos == tracks[i].cells.last().pos
                &&& after.last().n == tracks[i].cells.last().n
                &&& after.last().out == t && after.last().born == born
            }
        }),
{
    let before = haunted(ghosts, tracks, left, n - 1, t, born);
    let after = haunted(ghosts, tracks, left, n, t, born);
    if after.len() > before.len() {
        assert(after.drop_last() =~= before);
    }
}

/// A request's slot is where its number puts it: everything before it has a lower one, and nothing
/// from it on does.
pub proof fn a_slot_is_where_the_number_goes(tracks: Seq<TrackView>, id: u32, i: int)
    requires
        in_order(tracks),
        0 <= i < tracks.len(),
    ensures
        0 <= slot_of(tracks, id) <= tracks.len(),
        i < slot_of(tracks, id) <==> tracks[i].id < id,
        has_track(tracks, id) <==> exists|k: int|
            0 <= k < tracks.len() && (#[trigger] tracks[k]).id == id,
{
    the_number_splits_the_tracks(tracks, id);
    let at = slot_of(tracks, id);
    if exists|k: int| 0 <= k < tracks.len() && (#[trigger] tracks[k]).id == id {
        let k = choose|k: int| 0 <= k < tracks.len() && (#[trigger] tracks[k]).id == id;
        assert(k >= at);
        if k > at {
            assert(tracks[at].id < tracks[k].id);
            assert(tracks[at].id >= id);
        }
    }
}

proof fn the_number_splits_the_tracks(tracks: Seq<TrackView>, id: u32)
    requires
        in_order(tracks),
    ensures
        0 <= slot_of(tracks, id) <= tracks.len(),
        forall|k: int| 0 <= k < slot_of(tracks, id) ==> (#[trigger] tracks[k]).id < id,
        forall|k: int| slot_of(tracks, id) <= k < tracks.len() ==> (#[trigger] tracks[k]).id >= id,
    decreases tracks.len(),
{
    if tracks.len() > 0 {
        let front = tracks.drop_last();
        if tracks.last().id < id {
            assert forall|k: int| 0 <= k < tracks.len() implies (#[trigger] tracks[k]).id < id by {
                if k < tracks.len() - 1 {
                    assert(tracks[k].id < tracks[tracks.len() - 1].id);
                }
            }
        } else {
            assert forall|a: int, b: int| 0 <= a < b < front.len() implies (
            #[trigger] front[a]).id < (#[trigger] front[b]).id by {
                assert(tracks[a].id < tracks[b].id);
            }
            assert forall|a: int| 0 <= a < front.len() implies (#[trigger] front[a]).wf() && known(
                front[a].tenant,
            ) by {
                assert(tracks[a].wf());
            }
            the_number_splits_the_tracks(front, id);
            assert forall|k: int| 0 <= k < slot_of(tracks, id) implies (#[trigger] tracks[k]).id
                < id by {
                assert(front[k] == tracks[k]);
            }
            assert forall|k: int| slot_of(tracks, id) <= k < tracks.len() implies (
            #[trigger] tracks[k]).id >= id by {
                if k < front.len() {
                    assert(front[k] == tracks[k]);
                }
            }
        }
    }
}

/// A frame folded in is the frame's: the panel's clock is its clock, what was charged is what its
/// meter wound since the last, and who is inside is who it says.
pub proof fn a_fold_is_its_frames(p: PanelView, obs: Obs)
    ensures
        ({
            let after = folded(p, obs);
            &&& after.t == obs.t && after.meter == obs.blame.meter && after.occupiers
                == obs.blame.occupiers@
            &&& after.shut_now == obs.blame.shut_now && after.inflight == obs.blame.inflight
                && after.unattributed == obs.blame.unattributed
            &&& obs.blame.meter >= p.meter ==> after.charge + p.meter == obs.blame.meter
            &&& obs.blame.meter < p.meter ==> after.charge == 0
            &&& after.fares == p.fares && after.gathered == p.gathered && after.real_t == p.real_t
                && after.epoch == p.epoch
        }),
        moved_on(p.t, obs.t) + p.t == obs.t || obs.t < p.t,
        obs.t < p.t ==> moved_on(p.t, obs.t) == 0,
{
}

} // verus!
