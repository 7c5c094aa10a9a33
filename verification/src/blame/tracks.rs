//! One request inside the window, and how the meter's wind is billed to it.

use vstd::prelude::*;

use crate::engine::clock::Ticks;
use crate::engine::spans::BlameSpan;
use crate::engine::tagged::Tagged;
use crate::kept::{kept, kept_further};

verus! {

/// A request that has landed and not yet been let in.
#[derive(Clone, Copy, PartialEq, Eq, Structural, Debug)]
pub struct Landed {
    pub id: u32,
    pub at: Ticks,
    pub tenant: Option<usize>,
}

impl Tagged for Landed {
    open spec fn tag(self) -> u32 {
        self.id
    }

    fn id_of(&self) -> (id: u32) {
        self.id
    }
}

/// One request inside the window: when it arrived, when it was let in, when it left, and the cells
/// it minted while it was an occupier.
pub struct Track {
    pub id: u32,
    pub tenant: Option<usize>,
    pub at: Ticks,
    pub since: Ticks,
    pub out: Option<Ticks>,
    pub cells: Vec<BlameSpan>,
    /// What the meter wound for this request, from the moment it was let in.
    pub owed: Ticks,
}

#[verifier::ext_equal]
pub struct TrackView {
    pub id: u32,
    pub tenant: Option<usize>,
    pub at: Ticks,
    pub since: Ticks,
    pub out: Option<Ticks>,
    pub cells: Seq<BlameSpan>,
    pub owed: int,
}

impl View for Track {
    type V = TrackView;

    open spec fn view(&self) -> TrackView {
        TrackView {
            id: self.id,
            tenant: self.tenant,
            at: self.at,
            since: self.since,
            out: self.out,
            cells: self.cells@,
            owed: self.owed as int,
        }
    }
}

/// What a run of intervals comes to.
pub open spec fn sum_of(spans: Seq<BlameSpan>) -> int
    decreases spans.len(),
{
    if spans.len() == 0 {
        0
    } else {
        sum_of(spans.drop_last()) + spans.last().accrual
    }
}

/// The cells with one more interval: the last of them continued, or a new one.
pub open spec fn with_span(cells: Seq<BlameSpan>, span: BlameSpan) -> Seq<BlameSpan> {
    if cells.len() > 0 && cells.last().continued_by(span) {
        cells.update(
            cells.len() - 1,
            BlameSpan {
                t_b: span.t_b,
                accrual: (cells.last().accrual + span.accrual) as u64,
                ..cells.last()
            },
        )
    } else {
        cells.push(span)
    }
}

impl TrackView {
    /// The request as the first interval it occupies lets it in.
    pub open spec fn opened(who: Landed, span: BlameSpan) -> TrackView {
        TrackView {
            id: who.id,
            tenant: who.tenant,
            at: who.at,
            since: span.t_a,
            out: None,
            cells: Seq::empty(),
            owed: 0,
        }
    }

    /// The request with one more interval billed to it.
    pub open spec fn charged(self, span: BlameSpan) -> TrackView {
        TrackView {
            owed: self.owed + span.accrual,
            cells: with_span(self.cells, span),
            ..self
        }
    }

    /// The request once the window has moved on: only the cells still inside it.
    pub open spec fn windowed(self, t: Ticks, window: Ticks) -> TrackView {
        TrackView { cells: kept(self.cells, |c: BlameSpan| c.t_b + window >= t), ..self }
    }

    /// The drawn cells are part of the bill, never more than it.
    pub open spec fn wf(self) -> bool {
        sum_of(self.cells) <= self.owed
    }
}

impl Track {
    /// Open the request at the first interval it occupies.
    pub fn open(who: &Landed, span: &BlameSpan) -> (t: Track)
        ensures
            t@ == TrackView::opened(*who, *span),
    {
        Track {
            id: who.id,
            tenant: who.tenant,
            at: who.at,
            since: span.t_a,
            out: None,
            cells: Vec::new(),
            owed: 0,
        }
    }

    /// Bill one interval.
    pub fn charge(&mut self, span: &BlameSpan)
        requires
            old(self)@.wf(),
            old(self)@.owed + span.accrual <= u64::MAX,
        ensures
            final(self)@ == old(self)@.charged(*span),
            final(self)@.wf(),
    {
        let n: usize = self.cells.len();
        proof {
            if n > 0 {
                one_is_at_most_all(self.cells@, n - 1);
            }
            billing_adds_the_accrual(self.cells@, *span);
        }
        self.owed = self.owed + span.accrual;
        if n > 0 {
            let mut last: BlameSpan = self.cells[n - 1];
            if last.extend(span) {
                self.cells.set(n - 1, last);
                return;
            }
        }
        self.cells.push(*span);
    }

    /// Forget the cells the window has left behind.
    pub fn window(&mut self, t: Ticks, window: Ticks)
        requires
            old(self)@.wf(),
        ensures
            final(self)@ == old(self)@.windowed(t, window),
            final(self)@.wf(),
    {
        let ghost keep = |c: BlameSpan| c.t_b + window >= t;
        let ghost all = self.cells@;
        let mut cells: Vec<BlameSpan> = Vec::new();
        let mut i: usize = 0;
        while i < self.cells.len()
            invariant
                i <= self.cells@.len(),
                self@ == old(self)@,
                all == self.cells@,
                keep == (|c: BlameSpan| c.t_b + window >= t),
                cells@ == kept(all.take(i as int), keep),
            decreases self.cells@.len() - i,
        {
            proof {
                kept_further(all, keep, i as int);
            }
            let c: BlameSpan = self.cells[i];
            if c.t_b as u128 + window as u128 >= t as u128 {
                cells.push(c);
            }
            i += 1;
        }
        proof {
            assert(all.take(all.len() as int) =~= all);
            keeping_sums_to_less(all, keep);
        }
        self.cells = cells;
    }
}

/// Billing an interval adds what it accrued to the cells' sum, whether it grew the last of them
/// or started another.
pub proof fn billing_adds_the_accrual(cells: Seq<BlameSpan>, span: BlameSpan)
    requires
        cells.len() > 0 ==> cells.last().accrual + span.accrual <= u64::MAX,
    ensures
        sum_of(with_span(cells, span)) == sum_of(cells) + span.accrual,
{
    let after = with_span(cells, span);
    if cells.len() > 0 && cells.last().continued_by(span) {
        assert(after.drop_last() =~= cells.drop_last());
    } else {
        assert(after.drop_last() =~= cells);
    }
}

/// A cell sits inside the lattice it declares, however many intervals it has absorbed.
pub proof fn a_cell_stays_in_its_lattice(cells: Seq<BlameSpan>, span: BlameSpan, i: int)
    requires
        forall|j: int| 0 <= j < cells.len() ==> (#[trigger] cells[j]).pos < cells[j].n,
        span.pos < span.n,
        0 <= i < with_span(cells, span).len(),
    ensures
        with_span(cells, span)[i].pos < with_span(cells, span)[i].n,
{
    if i < cells.len() {
        assert(cells[i].pos < cells[i].n);
    }
}

proof fn one_is_at_most_all(cells: Seq<BlameSpan>, i: int)
    requires
        0 <= i < cells.len(),
    ensures
        cells[i].accrual <= sum_of(cells),
    decreases cells.len(),
{
    sum_is_no_debt(cells.drop_last());
    if i < cells.len() - 1 {
        one_is_at_most_all(cells.drop_last(), i);
    }
}

/// A run of intervals never comes to less than nothing.
pub proof fn sum_is_no_debt(cells: Seq<BlameSpan>)
    ensures
        0 <= sum_of(cells),
    decreases cells.len(),
{
    if cells.len() > 0 {
        sum_is_no_debt(cells.drop_last());
    }
}

/// Forgetting cells never makes them come to more.
pub proof fn keeping_sums_to_less(cells: Seq<BlameSpan>, keep: spec_fn(BlameSpan) -> bool)
    ensures
        sum_of(kept(cells, keep)) <= sum_of(cells),
    decreases cells.len(),
{
    if cells.len() > 0 {
        keeping_sums_to_less(cells.drop_last(), keep);
        let front = kept(cells.drop_last(), keep);
        assert(front.push(cells.last()).drop_last() =~= front);
    }
}

/// A cell reaches to the end of what was billed last: it goes on from the one before it where that
/// left off, in the same place among as many, minting or not as it was; anything else begins a cell
/// of its own, and no earlier cell is touched.
pub proof fn a_cell_goes_on_or_begins(cells: Seq<BlameSpan>, span: BlameSpan)
    ensures
        ({
            let after = with_span(cells, span);
            let goes_on = cells.len() > 0 && cells.last().id == span.id && cells.last().t_b
                == span.t_a && cells.last().pos == span.pos && cells.last().n == span.n && (
            cells.last().accrual == 0 <==> span.accrual == 0);
            &&& after.len() == if goes_on {
                cells.len()
            } else {
                cells.len() + 1
            }
            &&& after.last().t_b == span.t_b && after.last().pos == span.pos && after.last().n
                == span.n && after.last().id == span.id
            &&& after.last().t_a == if goes_on {
                cells.last().t_a
            } else {
                span.t_a
            }
            &&& forall|i: int| 0 <= i < after.len() - 1 ==> #[trigger] after[i] == cells[i]
            &&& !goes_on ==> after.last().accrual == span.accrual
        }),
{
}

/// A cell stays drawn until it ended more than the window ago, and a request is otherwise what it
/// was: who it is, when it came and went, and all that it owes.
pub proof fn a_window_forgets_only_cells(track: TrackView, t: Ticks, window: Ticks, c: BlameSpan)
    ensures
        track.windowed(t, window).cells.contains(c) <==> track.cells.contains(c) && t - c.t_b
            <= window,
        track.windowed(t, window) == (TrackView {
            cells: track.windowed(t, window).cells,
            ..track
        }),
{
    broadcast use crate::kept::kept_contains;

}

/// A request is let in with nothing on its bill, under the name and the tenant it landed with, and
/// from then on owes what is charged to it: each interval's accrual, once.
pub proof fn a_bill_starts_empty_and_adds_up(who: Landed, span: BlameSpan, track: TrackView)
    ensures
        TrackView::opened(who, span).owed == 0 && TrackView::opened(who, span).cells.len() == 0,
        TrackView::opened(who, span).since == span.t_a && TrackView::opened(who, span).at
            == who.at,
        TrackView::opened(who, span).id == who.id && TrackView::opened(who, span).tenant
            == who.tenant,
        TrackView::opened(who, span).out is None,
        track.charged(span).owed - track.owed == span.accrual,
        track.charged(span).id == track.id && track.charged(span).tenant == track.tenant,
        track.charged(span).at == track.at && track.charged(span).since == track.since,
        track.charged(span).out == track.out,
        track.charged(span).cells.last().t_b == span.t_b,
{
}

} // verus!
