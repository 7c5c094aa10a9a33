//! Wire traffic as two-edge pulses.
//!
//! The front edge of a pulse is the request itself, one network leg long on the engine's clock.
//! The back edge is afterglow: it lasts as long at every speed and only ever trails where the
//! request was. Everything departing one wire, one way, in one colour, in one frame is one pulse,
//! which bounds the work: pulses scale with wires and frames, never with the rate.

use vstd::prelude::*;

use crate::atoms::stage::Paint;
use crate::order::{order_keeps_the_readings, put_in_order, puts_in_order, Keyed};

verus! {

/// The back edge's length, in wall microseconds: the same at every speed.
pub const AFTERGLOW: u64 = 250_000;

/// How many wires a tier can show carrying at once.
pub const WIRES: usize = 128;

/// Pulse slots per lane.
pub const SLOTS: usize = 4;

/// How often a wire's rate is re-smoothed, in wall microseconds.
pub const STAT: u64 = 500_000;

/// The longest network leg a tier takes, in microseconds.
pub const LONGEST_LEG: u64 = 0x100_0000_0000;

/// The carrier wave's length, in millionths of a pixel.
pub const WAVE: u128 = 160_000_000;

/// The rate under which a wire counts as quiet, in millionths of a request a second.
pub const QUIET: u128 = 10_000;

/// A wire's identity across frames: the endpoints it is drawn between.
pub type Key = (usize, usize);

/// What a pulse carries: a send, an answer, or a refusal riding home.
#[derive(Clone, Copy, PartialEq, Eq, Structural, Debug)]
pub enum Ink {
    Sent,
    Answer,
    Refusal,
}

impl Ink {
    pub open spec fn spec_paint(self) -> Paint {
        match self {
            Ink::Sent => Paint::Teal,
            Ink::Answer => Paint::Green,
            Ink::Refusal => Paint::Amber,
        }
    }

    /// The colour it travels in.
    pub fn paint(self) -> (p: Paint)
        ensures
            p == self.spec_paint(),
    {
        match self {
            Ink::Sent => Paint::Teal,
            Ink::Answer => Paint::Green,
            Ink::Refusal => Paint::Amber,
        }
    }
}

/// The hue a direction wears: what a send is drawn in going out, and an answer coming home.
pub fn hue(homeward: bool) -> (p: Paint)
    ensures
        p == (if homeward {
            Ink::Answer.spec_paint()
        } else {
            Ink::Sent.spec_paint()
        }),
{
    if homeward {
        Paint::Green
    } else {
        Paint::Teal
    }
}

/// The first seat `key` holds, from place `k` on.
pub open spec fn held_at(seats: Seq<Option<Key>>, key: Key, k: int) -> Option<int>
    decreases seats.len() - k,
{
    if k >= seats.len() {
        None
    } else if seats[k] == Some(key) {
        Some(k)
    } else {
        held_at(seats, key, k + 1)
    }
}

/// The first empty seat, from place `k` on.
pub open spec fn empty_at(seats: Seq<Option<Key>>, k: int) -> Option<int>
    decreases seats.len() - k,
{
    if k >= seats.len() {
        None
    } else if seats[k] is None {
        Some(k)
    } else {
        empty_at(seats, k + 1)
    }
}

/// Where `key` sits: its own seat, or the first empty one, or nowhere.
pub open spec fn seat_of(seats: Seq<Option<Key>>, key: Key) -> Option<int> {
    match held_at(seats, key, 0) {
        Some(at) => Some(at),
        None => empty_at(seats, 0),
    }
}

proof fn a_seat_is_a_place(seats: Seq<Option<Key>>, key: Key, k: int)
    requires
        0 <= k <= seats.len(),
    ensures
        held_at(seats, key, k) matches Some(at) ==> k <= at < seats.len() && seats[at] == Some(key),
        held_at(seats, key, k) is None ==> forall|i: int|
            k <= i < seats.len() ==> #[trigger] seats[i] != Some(key),
        empty_at(seats, k) matches Some(at) ==> k <= at < seats.len() && seats[at] is None,
        empty_at(seats, k) is None ==> forall|i: int|
            k <= i < seats.len() ==> #[trigger] seats[i] is Some,
    decreases seats.len() - k,
{
    if k < seats.len() {
        a_seat_is_a_place(seats, key, k + 1);
    }
}

/// The seat for `key`: its current one, or the first empty one, claimed. Nothing where the tier is
/// saturated.
pub fn seat(seats: &mut Vec<Option<Key>>, key: Key) -> (at: Option<usize>)
    ensures
        at is Some <==> seat_of(old(seats)@, key) is Some,
        at matches Some(at) ==> seat_of(old(seats)@, key) == Some(at as int) && at
            < old(seats)@.len(),
        final(seats)@ == (match seat_of(old(seats)@, key) {
            Some(at) => old(seats)@.update(at, Some(key)),
            None => old(seats)@,
        }),
{
    let ghost all = seats@;
    let mut i: usize = 0;
    while i < seats.len()
        invariant
            i <= seats@.len(),
            seats@ == all,
            all == old(seats)@,
            held_at(all, key, 0) == held_at(all, key, i as int),
        decreases seats@.len() - i,
    {
        let mine: bool = match seats[i] {
            Some(k) => k.0 == key.0 && k.1 == key.1,
            None => false,
        };
        if mine {
            assert(all[i as int] == Some(key));
            assert(all.update(i as int, Some(key)) =~= all);
            return Some(i);
        }
        i += 1;
    }
    let mut i: usize = 0;
    while i < seats.len()
        invariant
            i <= seats@.len(),
            seats@ == all,
            all == old(seats)@,
            held_at(all, key, 0) is None,
            empty_at(all, 0) == empty_at(all, i as int),
        decreases seats@.len() - i,
    {
        if seats[i].is_none() {
            seats.set(i, Some(key));
            return Some(i);
        }
        i += 1;
    }
    None
}

/// A wire keeps its seat while it holds one, a saturated tier refuses a new wire without unseating
/// anyone, and no wire ever holds two.
pub proof fn seats_are_sticky_and_bounded(seats: Seq<Option<Key>>, key: Key, other: Key)
    requires
        forall|i: int, j: int|
            0 <= i < seats.len() && 0 <= j < seats.len() && (#[trigger] seats[i]) is Some
                && seats[i] == (#[trigger] seats[j]) ==> i == j,
    ensures
        ({
            let after = match seat_of(seats, key) {
                Some(at) => seats.update(at, Some(key)),
                None => seats,
            };
            &&& after.len() == seats.len()
            &&& seats.contains(Some(key)) ==> after == seats
            &&& seats.contains(Some(other)) ==> after.contains(Some(other)) && seat_of(after, other)
                == seat_of(seats, other)
            &&& seat_of(seats, key) is None <==> !seats.contains(Some(key)) && forall|i: int|
                0 <= i < seats.len() ==> #[trigger] seats[i] is Some
            &&& seat_of(seats, key) is Some ==> after.contains(Some(key))
            &&& forall|i: int, j: int|
                0 <= i < seats.len() && 0 <= j < seats.len() && (#[trigger] after[i]) is Some
                    && after[i] == (#[trigger] after[j]) ==> i == j
        }),
{
    a_seat_is_a_place(seats, key, 0);
    a_seat_is_a_place(seats, other, 0);
    let after = match seat_of(seats, key) {
        Some(at) => seats.update(at, Some(key)),
        None => seats,
    };
    a_seat_is_a_place(after, other, 0);
    if seats.contains(Some(key)) {
        assert(after =~= seats);
    }
    if let Some(at) = seat_of(seats, key) {
        assert(after[at] == Some(key));
        if held_at(seats, key, 0) is None {
            assert forall|i: int, j: int|
                0 <= i < seats.len() && 0 <= j < seats.len() && (#[trigger] after[i]) is Some
                    && after[i] == (#[trigger] after[j]) implies i == j by {
                if i != at {
                    assert(after[i] == seats[i]);
                }
                if j != at {
                    assert(after[j] == seats[j]);
                }
            }
        }
    }
    if seats.contains(Some(other)) {
        let i = choose|i: int| 0 <= i < seats.len() && seats[i] == Some(other);
        assert(after[i] == Some(other));
        assert(held_at(after, other, 0) is Some);
        let (x, y) = (held_at(seats, other, 0)->0, held_at(after, other, 0)->0);
        assert(seats[x] == seats[i]);
        assert(x == i);
        assert(after[y] == Some(other) && after[i] == Some(other));
        if held_at(seats, key, 0) is None && seat_of(seats, key) is Some {
            assert(y == i);
        }
    }
}

/// One departure: which wire, which way, and what it carries.
#[derive(Clone, Copy, PartialEq, Eq, Structural, Debug)]
pub struct Launch {
    pub from: usize,
    pub to: usize,
    pub homeward: bool,
    pub ink: Ink,
}

/// A colour's place among the colours.
pub open spec fn ink_rank(ink: Ink) -> int {
    match ink {
        Ink::Sent => 0,
        Ink::Answer => 1,
        Ink::Refusal => 2,
    }
}

/// A departure's direction and colour, as one place.
pub open spec fn kind_rank(l: Launch) -> int {
    3 * (if l.homeward {
        1int
    } else {
        0int
    }) + ink_rank(l.ink)
}

impl Keyed for Launch {
    open spec fn key(self) -> int {
        (self.from * 0x1_0000_0000_0000_0000 + self.to) * 6 + kind_rank(self)
    }

    fn no_later(&self, other: &Self) -> (b: bool) {
        if self.from != other.from {
            self.from < other.from
        } else if self.to != other.to {
            self.to < other.to
        } else if self.homeward != other.homeward {
            other.homeward
        } else {
            match (self.ink, other.ink) {
                (Ink::Sent, _) => true,
                (Ink::Answer, Ink::Sent) => false,
                (Ink::Answer, _) => true,
                (Ink::Refusal, Ink::Refusal) => true,
                (Ink::Refusal, _) => false,
            }
        }
    }
}

proof fn one_key_is_one_launch(a: Launch, b: Launch)
    requires
        a.key() == b.key(),
    ensures
        a == b,
{
}

/// What rode one wire, one way, in one colour, in one frame.
#[derive(Clone, Copy, PartialEq, Eq, Structural, Debug)]
pub struct Bucket {
    pub launch: Launch,
    pub count: usize,
}

/// Whether the buckets are a frame's departures merged: each distinct one once, in order, with how
/// many times it departed.
pub open spec fn merges(launches: Seq<Launch>, buckets: Seq<Bucket>) -> bool {
    &&& forall|i: int, j: int|
        0 <= i < j < buckets.len() ==> (#[trigger] buckets[i]).launch.key() < (
        #[trigger] buckets[j]).launch.key()
    &&& forall|i: int|
        0 <= i < buckets.len() ==> (#[trigger] buckets[i]).count == launches.to_multiset().count(
            buckets[i].launch,
        ) && buckets[i].count > 0
    &&& forall|l: Launch| #[trigger]
        launches.contains(l) ==> exists|i: int|
            0 <= i < buckets.len() && (#[trigger] buckets[i]).launch == l
}

/// Two mergings of one frame that agree on their first `i` buckets agree on the next.
proof fn mergings_agree_at(launches: Seq<Launch>, a: Seq<Bucket>, b: Seq<Bucket>, i: int)
    requires
        merges(launches, a),
        merges(launches, b),
        0 <= i < a.len(),
        i <= b.len(),
        forall|j: int| 0 <= j < i ==> #[trigger] a[j] == b[j],
    ensures
        i < b.len(),
        a[i] == b[i],
{
    broadcast use vstd::seq_lib::group_to_multiset_ensures;

    assert(launches.contains(a[i].launch));
    let k = choose|k: int| 0 <= k < b.len() && (#[trigger] b[k]).launch == a[i].launch;
    if k < i {
        assert(a[k] == b[k]);
        assert(a[k].launch.key() < a[i].launch.key());
    }
    assert(launches.contains(b[i].launch));
    let m = choose|m: int| 0 <= m < a.len() && (#[trigger] a[m]).launch == b[i].launch;
    if m < i {
        assert(a[m] == b[m]);
        assert(b[m].launch.key() < b[i].launch.key());
    }
    assert(b[i].launch.key() <= b[k].launch.key());
    assert(a[i].launch.key() <= a[m].launch.key());
    one_key_is_one_launch(a[i].launch, b[i].launch);
}

proof fn mergings_agree_up_to(launches: Seq<Launch>, a: Seq<Bucket>, b: Seq<Bucket>, n: int)
    requires
        merges(launches, a),
        merges(launches, b),
        0 <= n <= a.len(),
    ensures
        n <= b.len(),
        forall|j: int| 0 <= j < n ==> #[trigger] a[j] == b[j],
    decreases n,
{
    if n > 0 {
        mergings_agree_up_to(launches, a, b, n - 1);
        mergings_agree_at(launches, a, b, n - 1);
    }
}

/// A frame's departures merge one way only.
pub proof fn a_frame_merges_one_way(launches: Seq<Launch>, a: Seq<Bucket>, b: Seq<Bucket>)
    requires
        merges(launches, a),
        merges(launches, b),
    ensures
        a == b,
{
    mergings_agree_up_to(launches, a, b, a.len() as int);
    mergings_agree_up_to(launches, b, a, b.len() as int);
    assert(a =~= b);
}

/// Merge a frame's departures.
pub fn merged(launches: &Vec<Launch>) -> (buckets: Vec<Bucket>)
    ensures
        merges(launches@, buckets@),
{
    broadcast use vstd::seq_lib::group_to_multiset_ensures;

    let sorted = put_in_order(launches);
    let mut buckets: Vec<Bucket> = Vec::new();
    let mut i: usize = 0;
    assert(sorted@.take(0) =~= Seq::empty());
    while i < sorted.len()
        invariant
            i <= sorted@.len(),
            puts_in_order(launches@, sorted@),
            merges(sorted@.take(i as int), buckets@),
            i > 0 <==> buckets@.len() > 0,
            i > 0 ==> buckets@.last().launch == sorted@[i - 1],
            forall|b: int| 0 <= b < buckets@.len() ==> (#[trigger] buckets@[b]).count <= i,
        decreases sorted@.len() - i,
    {
        let one: Launch = sorted[i];
        let n: usize = buckets.len();
        let ghost front = sorted@.take(i as int);
        let ghost next = sorted@.take(i + 1);
        let ghost was = buckets@;
        proof {
            assert(next =~= front.push(one));
            vstd::seq_lib::to_multiset_build(front, one);
            if i > 0 {
                assert(sorted@[i - 1].key() <= sorted@[i as int].key());
            }
        }
        let again: bool = n > 0 && one.no_later(&buckets[n - 1].launch);
        if again {
            proof {
                one_key_is_one_launch(one, was.last().launch);
            }
            let count: usize = buckets[n - 1].count;
            buckets.set(n - 1, Bucket { launch: one, count: count + 1 });
        } else {
            buckets.push(Bucket { launch: one, count: 1 });
        }
        proof {
            let now = buckets@;
            assert forall|a: int, b: int| 0 <= a < b < now.len() implies (
            #[trigger] now[a]).launch.key() < (#[trigger] now[b]).launch.key() by {
                if b < was.len() {
                    assert(was[a].launch.key() < was[b].launch.key());
                } else if a < n - 1 {
                    assert(was[a].launch.key() < was[n - 1].launch.key());
                }
            }
            if !again {
                // Nothing before it is this departure, so this is its first.
                assert(!front.contains(one)) by {
                    if front.contains(one) {
                        let b = choose|b: int|
                            0 <= b < was.len() && (#[trigger] was[b]).launch == one;
                        assert(was[n - 1].launch == sorted@[i - 1]);
                        if b < n - 1 {
                            assert(was[b].launch.key() < was[n - 1].launch.key());
                        }
                    }
                }
                vstd::seq_lib::to_multiset_contains(front, one);
                assert(front.to_multiset().count(one) == 0);
            }
            assert forall|b: int| 0 <= b < now.len() implies (#[trigger] now[b]).count
                == next.to_multiset().count(now[b].launch) && now[b].count > 0 by {
                if b < was.len() {
                    assert(was[b].count == front.to_multiset().count(was[b].launch));
                    if again && b < n - 1 {
                        assert(was[b].launch.key() < was[n - 1].launch.key());
                    } else if !again {
                        if b < n - 1 {
                            assert(was[b].launch.key() < was[n - 1].launch.key());
                        }
                    }
                }
            }
            assert forall|l: Launch| #[trigger] next.contains(l) implies exists|b: int|
                0 <= b < now.len() && (#[trigger] now[b]).launch == l by {
                if l == one {
                    assert(now[now.len() - 1].launch == l);
                } else {
                    let k = choose|k: int| 0 <= k < next.len() && next[k] == l;
                    assert(front[k] == l);
                    assert(front.contains(l));
                    let b = choose|b: int| 0 <= b < was.len() && (#[trigger] was[b]).launch == l;
                    assert(now[b].launch == l);
                }
            }
        }
        i += 1;
    }
    proof {
        assert(sorted@.take(sorted@.len() as int) =~= sorted@);
        order_keeps_the_readings(launches@, sorted@);
    }
    buckets
}

/// Departures are taken wire by wire, in order of where they set off and then of where they go; on
/// one wire what goes out comes before what comes home, and of those a send before an answer and an
/// answer before a refusal.
pub proof fn departures_are_taken_wire_by_wire(
    launches: Seq<Launch>,
    buckets: Seq<Bucket>,
    i: int,
    j: int,
)
    requires
        merges(launches, buckets),
        0 <= i < j < buckets.len(),
    ensures
        ({
            let (a, b) = (buckets[i].launch, buckets[j].launch);
            &&& a.from <= b.from
            &&& a.from == b.from ==> a.to <= b.to
            &&& a.from == b.from && a.to == b.to ==> (a.homeward ==> b.homeward)
            &&& a.from == b.from && a.to == b.to && a.homeward == b.homeward ==> {
                &&& b.ink == Ink::Answer ==> a.ink == Ink::Sent
                &&& b.ink == Ink::Refusal ==> a.ink != Ink::Refusal
                &&& b.ink != Ink::Sent
            }
        }),
{
    let (a, b) = (buckets[i].launch, buckets[j].launch);
    assert(a.key() < b.key());
    a_key_is_ordered_by_its_wire(a, b);
}

proof fn a_key_is_ordered_by_its_wire(a: Launch, b: Launch)
    requires
        a.key() < b.key(),
    ensures
        a.from <= b.from,
        a.from == b.from ==> a.to <= b.to,
        a.from == b.from && a.to == b.to ==> kind_rank(a) < kind_rank(b),
{
}

/// A wire keeps the seat it holds, and otherwise takes the first that is empty.
pub proof fn a_wire_takes_the_first_empty_seat(seats: Seq<Option<Key>>, key: Key)
    ensures
        seat_of(seats, key) matches Some(at) ==> {
            &&& 0 <= at < seats.len()
            &&& seats[at] == Some(key) || seats[at] is None
            &&& seats.contains(Some(key)) ==> seats[at] == Some(key)
            &&& !seats.contains(Some(key)) ==> forall|i: int|
                0 <= i < at ==> (#[trigger] seats[i]) is Some
        },
{
    the_first_held(seats, key, 0);
    the_first_empty(seats, 0);
}

proof fn the_first_held(seats: Seq<Option<Key>>, key: Key, k: int)
    requires
        0 <= k,
    ensures
        held_at(seats, key, k) matches Some(at) ==> k <= at < seats.len() && seats[at] == Some(key),
        held_at(seats, key, k) is None ==> forall|i: int|
            k <= i < seats.len() ==> #[trigger] seats[i] != Some(key),
    decreases seats.len() - k,
{
    if k < seats.len() {
        the_first_held(seats, key, k + 1);
    }
}

proof fn the_first_empty(seats: Seq<Option<Key>>, k: int)
    requires
        0 <= k,
    ensures
        empty_at(seats, k) matches Some(at) ==> {
            &&& k <= at < seats.len()
            &&& seats[at] is None
            &&& forall|i: int| k <= i < at ==> (#[trigger] seats[i]) is Some
        },
    decreases seats.len() - k,
{
    if k < seats.len() {
        the_first_empty(seats, k + 1);
    }
}

/// A send is teal, an answer green and a refusal amber.
pub proof fn a_mark_is_painted_for_what_it_is(ink: Ink)
    ensures
        ink.spec_paint() == Paint::Teal <==> ink == Ink::Sent,
        ink.spec_paint() == Paint::Green <==> ink == Ink::Answer,
        ink.spec_paint() == Paint::Amber <==> ink == Ink::Refusal,
{
}

/// Every departure is in one bucket, which counts as many as there were of it.
pub proof fn every_departure_is_in_its_bucket(launches: Seq<Launch>, buckets: Seq<Bucket>, k: int)
    requires
        merges(launches, buckets),
        0 <= k < launches.len(),
    ensures
        exists|i: int|
            0 <= i < buckets.len() && (#[trigger] buckets[i]).launch == launches[k]
                && buckets[i].count == launches.to_multiset().count(launches[k]) && buckets[i].count
                > 0,
        forall|i: int, j: int|
            0 <= i < buckets.len() && 0 <= j < buckets.len() && (#[trigger] buckets[i]).launch == (
            #[trigger] buckets[j]).launch ==> i == j,
{
    assert(launches.contains(launches[k]));
    let i = choose|i: int| 0 <= i < buckets.len() && (#[trigger] buckets[i]).launch == launches[k];
    assert(buckets[i].count > 0);
    assert forall|a: int, b: int|
        0 <= a < buckets.len() && 0 <= b < buckets.len() && (#[trigger] buckets[a]).launch == (
        #[trigger] buckets[b]).launch implies a == b by {
        if a < b {
            assert(buckets[a].launch.key() < buckets[b].launch.key());
        } else if b < a {
            assert(buckets[b].launch.key() < buckets[a].launch.key());
        }
    }
}

} // verus!
