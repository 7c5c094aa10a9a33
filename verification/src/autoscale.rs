//! The fleet that buys itself a machine, and the two readings it can buy on.

use std::collections::VecDeque;

use vstd::prelude::*;

use crate::atoms::stage::Paint;
use crate::atoms::strips::{draws, expire, note, row, spec_expired, StripRow, POINTS};
use crate::engine::stack::ADMISSION_LIMIT;
use crate::text::{decimal, digits, nearest_even, push_text, to_nearest_even};

verus! {

/// How many machines there are to buy.
pub const SERVERS: u64 = 10;

/// The rotation the card opens with: fewer machines than the demand needs.
pub const OPENS_WITH: usize = 3;

/// Readings here are counted in thousandths.
pub const ONE: u64 = 1000;

/// The most the reader can ask for, which is what the arrivals row is drawn against.
pub const ARRIVALS_MAX: u64 = 700_000;

/// Microseconds between samples.
pub const SAMPLE: u64 = 250_000;

/// What a scaler steers by.
#[derive(Clone, Copy, PartialEq, Eq, Structural, Debug)]
pub enum Steer {
    /// What is waiting, per machine.
    Queue,
    /// The cores' trailing average.
    Cpu,
}

/// One sample slot: what was asked for, what the scaler bought, and the reading it bought it on.
#[derive(Clone, Copy, PartialEq, Eq, Structural, Debug)]
pub struct Sample {
    pub arrivals: u64,
    pub machines: u64,
    pub signal: u64,
}

/// What one frame changed that the card has to answer for.
#[derive(Clone, Copy, PartialEq, Eq, Structural, Debug)]
pub struct Moved {
    /// The rotation changed, and so did every wire on the stage.
    pub rotation: bool,
    /// A sample slot closed: the rows have a point they did not have.
    pub sample: bool,
}

/// One scaler's fleet, as it keeps running whether or not anyone is looking at it.
pub struct Arm {
    pub steer: Steer,
    /// The rotation the fleet is actually holding.
    pub rotation: usize,
    pub samples: VecDeque<Sample>,
    pub since: u64,
}

/// The history with one sample more: a full one forgets its oldest.
pub open spec fn rolled(samples: Seq<Sample>, s: Sample) -> Seq<Sample> {
    if samples.len() >= POINTS {
        samples.push(s).drop_first()
    } else {
        samples.push(s)
    }
}

/// What the machines in rotation have busy, over the first `n`.
pub open spec fn busy_of(fleet: Seq<usize>, n: int) -> int
    decreases n,
{
    if n <= 0 {
        0
    } else {
        busy_of(fleet, n - 1) + fleet[n - 1]
    }
}

impl Arm {
    pub open spec fn wf(self) -> bool {
        &&& self.samples@.len() <= POINTS
        &&& self.since < SAMPLE
    }

    /// The arm as the card opens.
    pub fn new(steer: Steer) -> (a: Arm)
        ensures
            a.wf(),
            a.steer == steer,
            a.rotation == OPENS_WITH,
            a.samples@ == Seq::<Sample>::empty(),
            a.since == 0,
    {
        Arm { steer, rotation: OPENS_WITH, samples: VecDeque::new(), since: 0 }
    }

    /// How many cores are busy across the machines in rotation: what the scaler looks at.
    pub fn busy(&self, fleet: &Vec<usize>) -> (sum: u128)
        ensures
            sum == busy_of(
                fleet@,
                if self.rotation < fleet@.len() {
                    self.rotation as int
                } else {
                    fleet@.len() as int
                },
            ),
    {
        let n: usize = if self.rotation < fleet.len() {
            self.rotation
        } else {
            fleet.len()
        };
        let mut sum: u128 = 0;
        let mut i: usize = 0;
        while i < n
            invariant
                i <= n <= fleet@.len(),
                sum == busy_of(fleet@, i as int),
                sum <= i * u64::MAX,
            decreases n - i,
        {
            proof {
                assert(i * u64::MAX + u64::MAX == (i + 1) * u64::MAX) by (nonlinear_arith);
                assert((i + 1) * u64::MAX <= u128::MAX) by (nonlinear_arith)
                    requires
                        i + 1 <= 0x1_0000_0000_0000_0000,
                ;
            }
            sum = sum + fleet[i] as u128;
            i += 1;
        }
        sum
    }

    /// One frame: take the rotation the scaler wants, and a sample where the slot has come round.
    /// A cycle that decided nothing costs nothing.
    pub fn frame(&mut self, dt: u64, want: usize, arrivals: u64, signal: u64) -> (moved: Moved)
        requires
            old(self).wf(),
            old(self).since + dt <= u64::MAX,
            want * ONE <= u64::MAX,
        ensures
            final(self).wf(),
            final(self).steer == old(self).steer,
            final(self).rotation == want,
            moved.rotation == (want != old(self).rotation),
            moved.sample == (old(self).since + dt >= SAMPLE),
            final(self).since == (if moved.sample {
                0
            } else {
                (old(self).since + dt) as u64
            }),
            final(self).samples@ == (if moved.sample {
                rolled(
                    old(self).samples@,
                    Sample { arrivals, machines: (want * ONE) as u64, signal },
                )
            } else {
                old(self).samples@
            }),
            moved.sample ==> {
                let (was, now) = (old(self).samples@, final(self).samples@);
                let taken = now.last();
                &&& taken.arrivals == arrivals && taken.machines == want * 1000 && taken.signal
                    == signal
                &&& now.len() == if was.len() < POINTS {
                    was.len() + 1
                } else {
                    POINTS as nat
                }
                &&& now.drop_last() == was.skip(was.len() - (now.len() - 1))
            },
    {
        let rotation: bool = want != self.rotation;
        if rotation {
            self.rotation = want;
        }
        let since: u64 = self.since + dt;
        let sample: bool = since >= SAMPLE;
        if sample {
            self.since = 0;
            assert(want as u64 * 1000 == want * ONE) by (nonlinear_arith)
                requires
                    ONE == 1000,
            ;
            let machines: u64 = want as u64 * 1000;
            let ghost was = self.samples@;
            self.samples.push_back(Sample { arrivals, machines, signal });
            if self.samples.len() > POINTS {
                let ghost full = self.samples@;
                let gone = self.samples.pop_front();
                assert(self.samples@ =~= full.drop_first());
            }
            assert(self.samples@.drop_last() =~= was.skip(was.len() - (self.samples@.len() - 1)));
        } else {
            self.since = since;
        }
        Moved { rotation, sample }
    }
}

/// The worst moment still on stage among the first `n` samples, and never less than a machine's
/// worth of waiting.
pub open spec fn worst(samples: Seq<Sample>, n: int) -> u64
    decreases n,
{
    if n <= 0 {
        (ADMISSION_LIMIT * ONE) as u64
    } else {
        let before = worst(samples, n - 1);
        if samples[n - 1].signal > before {
            samples[n - 1].signal
        } else {
            before
        }
    }
}

/// What the queue row is drawn against: fixed while the fleet is keeping up, so the reader can see
/// how far from empty it is, and growing when it is not.
pub fn queue_axis(samples: &VecDeque<Sample>) -> (axis: u64)
    ensures
        axis == worst(samples@, samples@.len() as int),
{
    let mut axis: u64 = 4_000;
    assert((ADMISSION_LIMIT * ONE) as u64 == 4_000) by (nonlinear_arith)
        requires
            ADMISSION_LIMIT == 4,
            ONE == 1000,
    ;
    let mut i: usize = 0;
    while i < samples.len()
        invariant
            i <= samples@.len(),
            axis == worst(samples@, i as int),
        decreases samples@.len() - i,
    {
        if samples[i].signal > axis {
            axis = samples[i].signal;
        }
        i += 1;
    }
    axis
}

/// One row's readings.
pub open spec fn arrivals_of(samples: Seq<Sample>) -> Seq<u64> {
    samples.map_values(|s: Sample| s.arrivals)
}

pub open spec fn machines_of(samples: Seq<Sample>) -> Seq<u64> {
    samples.map_values(|s: Sample| s.machines)
}

pub open spec fn signals_of(samples: Seq<Sample>) -> Seq<u64> {
    samples.map_values(|s: Sample| s.signal)
}

/// The three rows: what was asked of the fleet, how big it was, and the reading the scaler bought
/// it on. Each on an axis of its own, because they are different quantities.
pub fn strip_rows(samples: &VecDeque<Sample>, steer: Steer) -> (rows: Vec<StripRow>)
    ensures
        rows@.len() == 3,
        draws(
            rows@[0],
            "arrivals"@,
            arrivals_of(samples@),
            ARRIVALS_MAX,
            ONE,
            "/s"@,
            Paint::Teal.spec_value(),
        ),
        draws(
            rows@[1],
            "machines"@,
            machines_of(samples@),
            (SERVERS * ONE) as u64,
            ONE,
            ""@,
            Paint::Blue.spec_value(),
        ),
        steer == Steer::Queue ==> draws(
            rows@[2],
            "queue"@,
            signals_of(samples@),
            worst(samples@, samples@.len() as int),
            ONE,
            ""@,
            Paint::Purple.spec_value(),
        ),
        steer == Steer::Cpu ==> draws(
            rows@[2],
            "cpu"@,
            signals_of(samples@),
            100_000,
            ONE,
            "%"@,
            Paint::Purple.spec_value(),
        ),
{
    let mut asked: Vec<u64> = Vec::new();
    let mut bought: Vec<u64> = Vec::new();
    let mut read: Vec<u64> = Vec::new();
    let mut i: usize = 0;
    while i < samples.len()
        invariant
            i <= samples@.len(),
            asked@.len() == i,
            bought@.len() == i,
            read@.len() == i,
            forall|j: int| 0 <= j < i ==> #[trigger] asked@[j] == arrivals_of(samples@)[j],
            forall|j: int| 0 <= j < i ==> #[trigger] bought@[j] == machines_of(samples@)[j],
            forall|j: int| 0 <= j < i ==> #[trigger] read@[j] == signals_of(samples@)[j],
        decreases samples@.len() - i,
    {
        let s: Sample = samples[i];
        asked.push(s.arrivals);
        bought.push(s.machines);
        read.push(s.signal);
        i += 1;
    }
    assert(asked@ =~= arrivals_of(samples@));
    assert(bought@ =~= machines_of(samples@));
    assert(read@ =~= signals_of(samples@));
    assert((SERVERS * ONE) as u64 == 10_000) by (nonlinear_arith)
        requires
            SERVERS == 10,
            ONE == 1000,
    ;
    let mut rows: Vec<StripRow> = Vec::new();
    rows.push(row("arrivals", &asked, ARRIVALS_MAX, ONE, "/s", Paint::Teal.value()));
    rows.push(row("machines", &bought, 10_000, ONE, "", Paint::Blue.value()));
    match steer {
        Steer::Queue => {
            let axis: u64 = queue_axis(samples);
            rows.push(row("queue", &read, axis, ONE, "", Paint::Purple.value()));
        },
        Steer::Cpu => {
            rows.push(row("cpu", &read, 100_000, ONE, "%", Paint::Purple.value()));
        },
    }
    rows
}

/// A share in whole percent, of thousandths of one percent.
pub open spec fn whole_percent(x: u64) -> Seq<char> {
    digits(nearest_even(x as nat, ONE as nat)) + "%"@
}

/// What the card states the scaler is looking at: the reading it steers by, against its target,
/// both in thousandths of a percent.
pub fn steering(steer: Steer, reading: u64, target: u64) -> (s: String)
    ensures
        s@ == (match steer {
            Steer::Queue => "clear · "@,
            Steer::Cpu => "cpu · "@,
        }) + whole_percent(reading) + " of "@ + whole_percent(target),
{
    let mut s = match steer {
        Steer::Queue => "clear · ".to_owned(),
        Steer::Cpu => "cpu · ".to_owned(),
    };
    let ghost head = s@;
    push_text(&mut s, &decimal(to_nearest_even(reading, ONE)));
    push_text(&mut s, "%");
    push_text(&mut s, " of ");
    push_text(&mut s, &decimal(to_nearest_even(target, ONE)));
    push_text(&mut s, "%");
    assert(s@ =~= head + whole_percent(reading) + " of "@ + whole_percent(target));
    s
}

/// What the reader, or the layout, does to the card.
#[derive(Clone, Copy, PartialEq, Eq, Structural, Debug)]
pub enum AutoscaleMsg {
    Toggle,
    /// How much is asked of the fleet.
    Qps(u64),
    Speed,
    /// Show the other scaler's fleet.
    Steer(usize),
    Stage,
    Dot,
    Server,
}

/// The two scalers.
pub const ARMS: usize = 2;

/// What the reader has set, and both scalers' fleets: the one out of sight goes on running.
pub struct Desk {
    pub playing: bool,
    pub arrivals: u64,
    pub at: usize,
    pub arms: [Arm; 2],
    pub marked: VecDeque<u64>,
    pub sampled: u64,
}

/// What a scaler decided for a frame: how many machines it wants, and the reading it wants them on.
#[derive(Clone, Copy, PartialEq, Eq, Structural, Debug)]
pub struct Decided {
    pub want: usize,
    pub signal: u64,
}

/// An arm after a frame of `dt`.
pub open spec fn framed(after: Arm, before: Arm, dt: u64, arrivals: u64, d: Decided) -> bool {
    let due = before.since + dt >= SAMPLE;
    &&& after.steer == before.steer
    &&& after.rotation == d.want
    &&& after.since == if due {
        0
    } else {
        before.since + dt
    }
    &&& after.samples@ == if due {
        rolled(
            before.samples@,
            Sample { arrivals, machines: (d.want * ONE) as u64, signal: d.signal },
        )
    } else {
        before.samples@
    }
}

/// Whether two fleets' sample slots close together, so that one timeline marks both.
pub open spec fn in_step(a: Arm, b: Arm) -> bool {
    &&& a.since == b.since
    &&& a.samples@.len() == b.samples@.len()
}

/// The fleet out of sight goes on running, and in step with the one shown: whatever either scaler
/// decides, their sample slots go on closing together.
pub proof fn both_fleets_keep_one_clock(
    was: (Arm, Arm),
    now: (Arm, Arm),
    dt: u64,
    arrivals: u64,
    decided: (Decided, Decided),
)
    requires
        in_step(was.0, was.1),
        framed(now.0, was.0, dt, arrivals, decided.0),
        framed(now.1, was.1, dt, arrivals, decided.1),
    ensures
        in_step(now.0, now.1),
{
}

impl Desk {
    pub open spec fn wf(self) -> bool {
        &&& self.at < ARMS
        &&& self.arms@[0].wf()
        &&& self.arms@[1].wf()
        &&& in_step(self.arms@[0], self.arms@[1])
    }

    /// The card as it opens, on the queue's scaler.
    pub fn new(arrivals: u64) -> (d: Desk)
        ensures
            d.wf(),
            !d.playing && d.at == 0 && d.sampled == 0 && d.arrivals == arrivals,
            d.marked@ == Seq::<u64>::empty(),
            d.arms@[0].steer == Steer::Queue && d.arms@[1].steer == Steer::Cpu,
            forall|i: int|
                0 <= i < ARMS ==> (#[trigger] d.arms@[i]).rotation == OPENS_WITH
                    && d.arms@[i].samples@ == Seq::<Sample>::empty() && d.arms@[i].since == 0,
    {
        Desk {
            playing: false,
            arrivals,
            at: 0,
            arms: [Arm::new(Steer::Queue), Arm::new(Steer::Cpu)],
            marked: VecDeque::new(),
            sampled: 0,
        }
    }

    /// Take a message, and say whether the wires have to be drawn again. A scaler that is not
    /// there is not shown.
    pub fn turn(&mut self, msg: AutoscaleMsg) -> (relaid: bool)
        requires
            old(self).wf(),
        ensures
            final(self).wf(),
            relaid == (msg is Stage || msg is Dot || msg is Server || (msg matches
                AutoscaleMsg::Steer(i) && i < ARMS)),
            final(self).playing == (old(self).playing != (msg is Toggle)),
            final(self).arrivals == (match msg {
                AutoscaleMsg::Qps(v) => v,
                _ => old(self).arrivals,
            }),
            final(self).at == (match msg {
                AutoscaleMsg::Steer(i) => if i < ARMS {
                    i
                } else {
                    old(self).at
                },
                _ => old(self).at,
            }),
            final(self).marked@ == (if msg is Qps && !(old(self).marked@.len() > 0
                && old(self).marked@.last() == old(self).sampled) {
                old(self).marked@.push(old(self).sampled)
            } else {
                old(self).marked@
            }),
            final(self).arms == old(self).arms,
            final(self).sampled == old(self).sampled,
    {
        match msg {
            AutoscaleMsg::Toggle => {
                self.playing = !self.playing;
                false
            },
            AutoscaleMsg::Qps(v) => {
                self.arrivals = v;
                note(&mut self.marked, self.sampled);
                false
            },
            AutoscaleMsg::Speed => false,
            AutoscaleMsg::Steer(i) => if i < ARMS {
                self.at = i;
                true
            } else {
                false
            },
            AutoscaleMsg::Stage | AutoscaleMsg::Dot | AutoscaleMsg::Server => true,
        }
    }

    /// A frame of `dt` for both fleets. What it changed is read off the one being shown, and the
    /// timeline moves on by that one's samples.
    pub fn frame(&mut self, dt: u64, queue: Decided, cpu: Decided) -> (moved: Moved)
        requires
            old(self).wf(),
            dt + SAMPLE <= u64::MAX,
            queue.want * ONE <= u64::MAX,
            cpu.want * ONE <= u64::MAX,
            old(self).sampled < u64::MAX,
        ensures
            final(self).wf(),
            framed(final(self).arms@[0], old(self).arms@[0], dt, old(self).arrivals, queue),
            framed(final(self).arms@[1], old(self).arms@[1], dt, old(self).arrivals, cpu),
            final(self).playing == old(self).playing,
            final(self).arrivals == old(self).arrivals,
            final(self).at == old(self).at,
            moved.rotation == (final(self).arms@[old(self).at as int].rotation
                != old(self).arms@[old(self).at as int].rotation),
            moved.sample == (old(self).arms@[old(self).at as int].since + dt >= SAMPLE),
            final(self).sampled == old(self).sampled + if moved.sample {
                1int
            } else {
                0int
            },
            final(self).marked@ == (if moved.sample {
                spec_expired(old(self).marked@, final(self).sampled)
            } else {
                old(self).marked@
            }),
    {
        let first: Moved = self.arms[0].frame(dt, queue.want, self.arrivals, queue.signal);
        let second: Moved = self.arms[1].frame(dt, cpu.want, self.arrivals, cpu.signal);
        let moved: Moved = if self.at == 0 {
            first
        } else {
            second
        };
        if moved.sample {
            self.sampled = self.sampled + 1;
            expire(&mut self.marked, self.sampled);
        }
        moved
    }
}

/// What a history keeps is the newest there is of it: the sample just taken last, and before it, in
/// the order they were taken, as many of the earlier ones as [`POINTS`] leaves room for.
pub proof fn the_newest_samples_are_kept(samples: Seq<Sample>, s: Sample)
    requires
        samples.len() <= POINTS,
    ensures
        ({
            let after = rolled(samples, s);
            let ever = samples.push(s);
            &&& after.len() == if ever.len() <= POINTS {
                ever.len()
            } else {
                POINTS as nat
            }
            &&& after.last() == s
            &&& forall|back: int|
                0 <= back < after.len() ==> #[trigger] after[after.len() - 1 - back] == ever[
                    ever.len() - 1 - back
                ]
        }),
{
}

/// The history once a run of samples has been taken.
pub open spec fn rolled_through(samples: Seq<Sample>, more: Seq<Sample>) -> Seq<Sample>
    decreases more.len(),
{
    if more.len() == 0 {
        samples
    } else {
        rolled(rolled_through(samples, more.drop_last()), more.last())
    }
}

/// However many samples are taken, the strips go on scrolling: a history is the tail of everything
/// it was ever given.
pub proof fn a_history_is_the_tail_of_everything(samples: Seq<Sample>, more: Seq<Sample>)
    requires
        samples.len() <= POINTS,
    ensures
        ({
            let ever = samples + more;
            let from = if ever.len() <= POINTS {
                0
            } else {
                ever.len() - POINTS
            };
            rolled_through(samples, more) == ever.skip(from)
        }),
    decreases more.len(),
{
    let ever = samples + more;
    if more.len() == 0 {
        assert(ever.skip(0) =~= samples);
    } else {
        let front = more.drop_last();
        a_history_is_the_tail_of_everything(samples, front);
        let before = rolled_through(samples, front);
        the_newest_samples_are_kept(before, more.last());
        assert((samples + front).push(more.last()) =~= ever);
        let from = if ever.len() <= POINTS {
            0
        } else {
            ever.len() - POINTS
        };
        let after = rolled(before, more.last());
        assert(after.len() == ever.skip(from).len());
        assert forall|i: int| 0 <= i < after.len() implies #[trigger] after[i] == ever.skip(
            from,
        )[i] by {
            let back = after.len() - 1 - i;
            assert(after[after.len() - 1 - back] == before.push(more.last())[before.len() - back]);
        }
        assert(after =~= ever.skip(from));
    }
}

/// A fleet is as busy as its machines in rotation are: one of them busier is the fleet busier by as
/// much, one out of rotation changes nothing, and a fleet at rest is not busy at all.
pub proof fn each_machine_in_rotation_counts(fleet: Seq<usize>, n: int, i: int, to: usize)
    requires
        0 <= n <= fleet.len(),
        0 <= i < fleet.len(),
    ensures
        i < n ==> busy_of(fleet.update(i, to), n) - busy_of(fleet, n) == to - fleet[i],
        i >= n ==> busy_of(fleet.update(i, to), n) == busy_of(fleet, n),
        (forall|k: int| 0 <= k < n ==> #[trigger] fleet[k] == 0) ==> busy_of(fleet, n) == 0,
    decreases n,
{
    if n > 0 {
        each_machine_in_rotation_counts(fleet, n - 1, i, to);
    }
}

/// The queue's axis is no lower than any signal on it, nor than the four a machine admits, and
/// is one of them.
pub proof fn the_axis_is_the_worst_of_them(samples: Seq<Sample>, n: int, i: int)
    requires
        0 <= n <= samples.len(),
    ensures
        worst(samples, n) >= 4_000,
        0 <= i < n ==> samples[i].signal <= worst(samples, n),
        worst(samples, n) == 4_000 || exists|k: int|
            0 <= k < n && (#[trigger] samples[k]).signal == worst(samples, n),
    decreases n,
{
    if n > 0 {
        the_axis_is_the_worst_of_them(samples, n - 1, i);
        let before = worst(samples, n - 1);
        if before != 4_000 {
            let k = choose|k: int| 0 <= k < n - 1 && (#[trigger] samples[k]).signal == before;
            assert(0 <= k < n);
        }
        if worst(samples, n) != before {
            assert(samples[n - 1].signal == worst(samples, n));
        }
    }
}

/// An arm turns to what was decided for it at every frame, and writes it down once a quarter of a
/// second: what arrived, what was wanted and what it was decided by, after everything written
/// before.
pub proof fn an_arm_writes_down_what_was_decided(
    after: Arm,
    before: Arm,
    dt: u64,
    arrivals: u64,
    d: Decided,
)
    requires
        framed(after, before, dt, arrivals, d),
        before.wf(),
        d.want * 1000 <= u64::MAX,
    ensures
        after.rotation == d.want,
        after.steer == before.steer,
        before.since + dt < 250_000 ==> after.samples@ == before.samples@ && after.since
            == before.since + dt,
        before.since + dt >= 250_000 ==> {
            &&& after.since == 0
            &&& after.samples@.last().arrivals == arrivals
            &&& after.samples@.last().machines == 1000 * d.want
            &&& after.samples@.last().signal == d.signal
            &&& after.samples@.drop_last() == before.samples@.skip(
                before.samples@.len() - (after.samples@.len() - 1),
            )
            &&& after.samples@.len() >= before.samples@.len()
        },
{
    if before.since + dt >= 250_000 {
        let taken = Sample { arrivals, machines: (d.want * ONE) as u64, signal: d.signal };
        the_newest_samples_are_kept(before.samples@, taken);
        assert(after.samples@.drop_last() =~= before.samples@.skip(
            before.samples@.len() - (after.samples@.len() - 1),
        ));
    }
}

/// Each line is its own reading of every sample, in order.
pub proof fn each_line_reads_its_own(samples: Seq<Sample>, i: int)
    requires
        0 <= i < samples.len(),
    ensures
        arrivals_of(samples).len() == samples.len() && arrivals_of(samples)[i]
            == samples[i].arrivals,
        machines_of(samples).len() == samples.len() && machines_of(samples)[i]
            == samples[i].machines,
        signals_of(samples).len() == samples.len() && signals_of(samples)[i] == samples[i].signal,
{
}

} // verus!
