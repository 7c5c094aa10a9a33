//! Shut-time and who it is billed to, sampled at every event of a frame.

use vstd::prelude::*;

use crate::engine::clock::Ticks;
use crate::engine::tagged::copy_all;

verus! {

/// One occupier's share of one interval between two events. `pos` and `n` place it, in entry
/// order; `accrual` is what the meter wound for each of the `n`.
#[derive(Clone, Copy, PartialEq, Eq, Structural, Debug)]
pub struct BlameSpan {
    pub id: u32,
    pub t_a: Ticks,
    pub t_b: Ticks,
    pub pos: usize,
    pub n: usize,
    pub accrual: Ticks,
}

impl BlameSpan {
    /// Whether `next` is this cell continued: the same occupier, the same lattice, the same
    /// minting state, and no gap between the two.
    pub open spec fn continued_by(self, next: BlameSpan) -> bool {
        &&& self.id == next.id
        &&& self.t_b == next.t_a
        &&& self.pos == next.pos
        &&& self.n == next.n
        &&& (self.accrual > 0 <==> next.accrual > 0)
    }

    /// Whether the meter wound across this interval: blame was minted, so the cell is solid.
    pub fn minting(&self) -> (b: bool)
        ensures
            b == (self.accrual > 0),
    {
        self.accrual > 0
    }

    /// Absorb the interval that follows this one, if it is the same cell continued. A change in
    /// any of what places a cell starts a new one instead.
    pub fn extend(&mut self, next: &BlameSpan) -> (same: bool)
        requires
            old(self).continued_by(*next) ==> old(self).accrual + next.accrual <= u64::MAX,
        ensures
            same == old(self).continued_by(*next),
            *final(self) == (if same {
                BlameSpan {
                    t_b: next.t_b,
                    accrual: (old(self).accrual + next.accrual) as u64,
                    ..*old(self)
                }
            } else {
                *old(self)
            }),
    {
        let same_cell: bool = self.id == next.id && self.t_b == next.t_a && self.pos == next.pos
            && self.n == next.n && self.minting() == next.minting();
        if same_cell {
            self.t_b = next.t_b;
            self.accrual = self.accrual + next.accrual;
        }
        same_cell
    }
}

/// Absorbing a continuation loses nothing: the cell spans both intervals, carries what both
/// accrued, and is solid exactly where each of them was.
pub proof fn extending_loses_nothing(cell: BlameSpan, next: BlameSpan)
    requires
        cell.continued_by(next),
        cell.accrual + next.accrual <= u64::MAX,
    ensures
        ({
            let grown = BlameSpan {
                t_b: next.t_b,
                accrual: (cell.accrual + next.accrual) as u64,
                ..cell
            };
            &&& grown.t_b - grown.t_a == (cell.t_b - cell.t_a) + (next.t_b - next.t_a)
            &&& grown.accrual == cell.accrual + next.accrual
            &&& (grown.accrual > 0 <==> cell.accrual > 0)
            &&& (grown.accrual > 0 <==> next.accrual > 0)
        }),
{
}

/// The blame accounting over one frame. Empty in a sim that models no tenants.
pub struct BlameFrame {
    /// Intervals over which admission was shut: someone was being made to wait.
    pub shut: Vec<(Ticks, Ticks)>,
    /// Every occupier's share of every interval, oldest interval first.
    pub spans: Vec<BlameSpan>,
    /// The reporter's readings at the frame's end.
    pub meter: Ticks,
    pub accumulated: Ticks,
    pub attributed: Ticks,
    pub unattributed: Ticks,
    pub shut_now: bool,
    /// The divisor shut-time is being split across.
    pub inflight: u64,
    /// Who those occupiers are, in entry order.
    pub occupiers: Vec<u32>,
}

/// What a frame's blame holds.
#[verifier::ext_equal]
pub struct BlameFrameView {
    pub shut: Seq<(Ticks, Ticks)>,
    pub spans: Seq<BlameSpan>,
    pub meter: Ticks,
    pub accumulated: Ticks,
    pub attributed: Ticks,
    pub unattributed: Ticks,
    pub shut_now: bool,
    pub inflight: u64,
    pub occupiers: Seq<u32>,
}

impl View for BlameFrame {
    type V = BlameFrameView;

    open spec fn view(&self) -> BlameFrameView {
        BlameFrameView {
            shut: self.shut@,
            spans: self.spans@,
            meter: self.meter,
            accumulated: self.accumulated,
            attributed: self.attributed,
            unattributed: self.unattributed,
            shut_now: self.shut_now,
            inflight: self.inflight,
            occupiers: self.occupiers@,
        }
    }
}

/// A frame nothing has been blamed in yet.
pub open spec fn no_blame() -> BlameFrameView {
    BlameFrameView {
        shut: Seq::empty(),
        spans: Seq::empty(),
        meter: 0,
        accumulated: 0,
        attributed: 0,
        unattributed: 0,
        shut_now: false,
        inflight: 0,
        occupiers: Seq::empty(),
    }
}

impl Default for BlameFrame {
    fn default() -> (f: BlameFrame)
        ensures
            f@ == no_blame(),
    {
        let f = BlameFrame {
            shut: Vec::new(),
            spans: Vec::new(),
            meter: 0,
            accumulated: 0,
            attributed: 0,
            unattributed: 0,
            shut_now: false,
            inflight: 0,
            occupiers: Vec::new(),
        };
        assert(f@ =~= no_blame());
        f
    }
}

/// One reading of the accounting, taken at an event.
pub struct BlameSample {
    pub t: Ticks,
    pub meter: Ticks,
    pub shut: bool,
    pub occupiers: Vec<u32>,
}

/// What a reading of the accounting holds.
#[verifier::ext_equal]
pub struct BlameSampleView {
    pub t: Ticks,
    pub meter: Ticks,
    pub shut: bool,
    pub occupiers: Seq<u32>,
}

impl View for BlameSample {
    type V = BlameSampleView;

    open spec fn view(&self) -> BlameSampleView {
        BlameSampleView {
            t: self.t,
            meter: self.meter,
            shut: self.shut,
            occupiers: self.occupiers@,
        }
    }
}

/// Turns consecutive readings into the intervals between them. It outlives a frame, so the
/// interval straddling two frames is one interval like any other.
pub struct BlameSampler {
    pub prev: Option<BlameSample>,
}

impl View for BlameSampler {
    type V = Option<BlameSampleView>;

    open spec fn view(&self) -> Option<BlameSampleView> {
        match self.prev {
            Some(prev) => Some(prev@),
            None => None,
        }
    }
}

impl Default for BlameSampler {
    fn default() -> (s: BlameSampler)
        ensures
            s@ is None,
    {
        BlameSampler { prev: None }
    }
}

/// The shares of the interval from `from` to `to` over which the meter wound `accrual`: one per
/// occupier, in entry order.
pub open spec fn shares(occupiers: Seq<u32>, from: Ticks, to: Ticks, accrual: Ticks) -> Seq<
    BlameSpan,
> {
    Seq::new(
        occupiers.len(),
        |i: int|
            BlameSpan {
                id: occupiers[i],
                t_a: from,
                t_b: to,
                pos: i as usize,
                n: occupiers.len() as usize,
                accrual,
            },
    )
}

/// What the meter wound between two readings, and nothing where it was turned back.
pub open spec fn wound(before: Ticks, after: Ticks) -> Ticks {
    if after >= before {
        (after - before) as u64
    } else {
        0
    }
}

/// The shares the last reading's occupiers earned up to `now`.
pub open spec fn billed_since(prev: Option<BlameSampleView>, now: Ticks, meter: Ticks) -> Seq<
    BlameSpan,
> {
    match prev {
        Some(p) => if now > p.t {
            shares(p.occupiers, p.t, now, wound(p.meter, meter))
        } else {
            Seq::empty()
        },
        None => Seq::empty(),
    }
}

/// The interval since the last reading, where admission was shut over it.
pub open spec fn shut_since(prev: Option<BlameSampleView>, now: Ticks) -> Seq<(Ticks, Ticks)> {
    match prev {
        Some(p) => if now > p.t && p.shut {
            seq![(p.t, now)]
        } else {
            Seq::empty()
        },
        None => Seq::empty(),
    }
}

impl BlameSampler {
    /// Fold one event into `out`. The membership read at the earlier event is the membership
    /// that earned the meter's next wind, so the difference of the meter across the pair is what
    /// each of them accrued over it.
    pub fn event(
        &mut self,
        out: &mut BlameFrame,
        now: Ticks,
        meter: Ticks,
        shut: bool,
        occupiers: &Vec<u32>,
    )
        ensures
            final(self)@ == Some(BlameSampleView { t: now, meter, shut, occupiers: occupiers@ }),
            final(out)@ == (BlameFrameView {
                shut: old(out)@.shut + shut_since(old(self)@, now),
                spans: old(out)@.spans + billed_since(old(self)@, now, meter),
                ..old(out)@
            }),
    {
        match &self.prev {
            None => {},
            Some(prev) => {
                if now > prev.t {
                    if prev.shut {
                        out.shut.push((prev.t, now));
                    }
                    let accrual: u64 = meter.saturating_sub(prev.meter);
                    let n: usize = prev.occupiers.len();
                    let ghost before = out.spans@;
                    let ghost whole = shares(prev.occupiers@, prev.t, now, accrual);
                    let mut pos: usize = 0;
                    while pos < n
                        invariant
                            pos <= n,
                            n == prev.occupiers@.len(),
                            whole == shares(prev.occupiers@, prev.t, now, accrual),
                            out.spans@ == before + whole.take(pos as int),
                            out@ == (BlameFrameView {
                                spans: out@.spans,
                                shut: old(out)@.shut + shut_since(old(self)@, now),
                                ..old(out)@
                            }),
                        decreases n - pos,
                    {
                        out.spans.push(
                            BlameSpan {
                                id: prev.occupiers[pos],
                                t_a: prev.t,
                                t_b: now,
                                pos,
                                n,
                                accrual,
                            },
                        );
                        assert(whole.take(pos + 1) =~= whole.take(pos as int).push(
                            whole[pos as int],
                        ));
                        pos += 1;
                    }
                    assert(whole.take(n as int) =~= whole);
                }
            },
        }
        let seen = copy_all(occupiers);
        self.prev = Some(BlameSample { t: now, meter, shut, occupiers: seen });
    }
}

/// Time that is `n` shares of `accrual`, for the shares of one interval.
pub open spec fn billed(spans: Seq<BlameSpan>) -> int
    decreases spans.len(),
{
    if spans.len() == 0 {
        0
    } else {
        billed(spans.drop_last()) + spans.last().accrual
    }
}

/// The shares of an interval are one cell of the lattice each, and bill every occupier the same:
/// together, as many times the wind as there are occupiers.
pub proof fn an_interval_is_shared_evenly(
    occupiers: Seq<u32>,
    from: Ticks,
    to: Ticks,
    accrual: Ticks,
)
    requires
        occupiers.len() <= usize::MAX,
    ensures
        billed(shares(occupiers, from, to, accrual)) == occupiers.len() * accrual,
        forall|i: int|
            0 <= i < occupiers.len() ==> (#[trigger] shares(occupiers, from, to, accrual)[i]).pos
                == i && shares(occupiers, from, to, accrual)[i].n == occupiers.len(),
    decreases occupiers.len(),
{
    shared_evenly(occupiers, occupiers.len(), from, to, accrual);
    assert(shares(occupiers, from, to, accrual).take(occupiers.len() as int) =~= shares(
        occupiers,
        from,
        to,
        accrual,
    ));
}

proof fn shared_evenly(occupiers: Seq<u32>, k: nat, from: Ticks, to: Ticks, accrual: Ticks)
    requires
        k <= occupiers.len(),
    ensures
        billed(shares(occupiers, from, to, accrual).take(k as int)) == k * accrual,
    decreases k,
{
    let whole = shares(occupiers, from, to, accrual);
    if k > 0 {
        shared_evenly(occupiers, (k - 1) as nat, from, to, accrual);
        assert(whole.take(k as int).drop_last() =~= whole.take(k - 1));
        assert((k - 1) * accrual + accrual == k * accrual) by (nonlinear_arith);
    } else {
        assert(k * accrual == 0) by (nonlinear_arith)
            requires
                k == 0,
        ;
    }
}

/// An interval bills exactly whoever occupied the server over it, each in their place and each for
/// what the meter wound meanwhile: what it reads now less what it read then, and nothing where it
/// was turned back.
pub proof fn an_interval_bills_whoever_occupied_it(
    p: BlameSampleView,
    now: Ticks,
    meter: Ticks,
    i: int,
)
    requires
        now > p.t,
        0 <= i < p.occupiers.len(),
        p.occupiers.len() <= usize::MAX,
    ensures
        ({
            let billed = billed_since(Some(p), now, meter);
            &&& billed.len() == p.occupiers.len()
            &&& billed[i].id == p.occupiers[i] && billed[i].pos == i
            &&& billed[i].t_a == p.t && billed[i].t_b == now
            &&& meter >= p.meter ==> billed[i].accrual + p.meter == meter
            &&& meter < p.meter ==> billed[i].accrual == 0
        }),
{
}

/// Nobody is billed where no time has passed or nothing was read before, and time is shut exactly
/// where the earlier reading found it so, for the whole of the interval.
pub proof fn shut_is_what_the_earlier_reading_found(p: BlameSampleView, now: Ticks, meter: Ticks)
    ensures
        billed_since(None, now, meter).len() == 0 && shut_since(None, now).len() == 0,
        now <= p.t ==> billed_since(Some(p), now, meter).len() == 0 && shut_since(Some(p), now).len()
            == 0,
        now > p.t && !p.shut ==> shut_since(Some(p), now).len() == 0,
        now > p.t && p.shut ==> shut_since(Some(p), now).len() == 1 && shut_since(Some(p), now)[0]
            == (p.t, now),
{
}

} // verus!
