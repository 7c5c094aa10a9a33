//! The meters' lanes: a fixed set of seats, recycled rather than reassigned, so a row stays put
//! until something else takes it.

use vstd::prelude::*;

verus! {

/// Meter rows, always drawn: more than the occupancy the load reaches.
pub const LANES: usize = 14;

/// Which request holds each lane, and the lanes in recycling order.
pub struct Seats {
    pub lanes: Vec<Option<u32>>,
    pub order: Vec<usize>,
}

/// Whether a lane's request no longer occupies the server.
pub open spec fn gone(lane: Option<u32>, occupiers: Seq<u32>) -> bool {
    lane matches Some(id) && !occupiers.contains(id)
}

/// The lanes once everyone gone has left theirs.
pub open spec fn released(lanes: Seq<Option<u32>>, occupiers: Seq<u32>) -> Seq<Option<u32>> {
    lanes.map_values(
        |lane: Option<u32>|
            if gone(lane, occupiers) {
                None
            } else {
                lane
            },
    )
}

/// The order without a lane.
pub open spec fn sans(order: Seq<usize>, lane: usize) -> Seq<usize>
    decreases order.len(),
{
    if order.len() == 0 {
        order
    } else if order.last() == lane {
        sans(order.drop_last(), lane)
    } else {
        sans(order.drop_last(), lane).push(order.last())
    }
}

/// The recycling order once the first `n` lanes have been looked at: each lane left goes to the
/// back.
pub open spec fn recycled(
    order: Seq<usize>,
    lanes: Seq<Option<u32>>,
    occupiers: Seq<u32>,
    n: int,
) -> Seq<usize>
    decreases n,
{
    if n <= 0 {
        order
    } else {
        let before = recycled(order, lanes, occupiers, n - 1);
        if gone(lanes[n - 1], occupiers) {
            sans(before, (n - 1) as usize).push((n - 1) as usize)
        } else {
            before
        }
    }
}

/// Who left one of the first `n` lanes, in lane order.
pub open spec fn leavers(lanes: Seq<Option<u32>>, occupiers: Seq<u32>, n: int) -> Seq<u32>
    decreases n,
{
    if n <= 0 {
        Seq::empty()
    } else {
        let before = leavers(lanes, occupiers, n - 1);
        if gone(lanes[n - 1], occupiers) {
            before.push(lanes[n - 1]->0)
        } else {
            before
        }
    }
}

/// The free lane freed most recently, of the first `n` in the order.
pub open spec fn freshest(order: Seq<usize>, lanes: Seq<Option<u32>>, n: int) -> Option<usize>
    decreases n,
{
    if n <= 0 {
        None
    } else if lanes[order[n - 1] as int] is None {
        Some(order[n - 1])
    } else {
        freshest(order, lanes, n - 1)
    }
}

/// The lanes with `id` seated: where it already is, or in the lane freed most recently, or
/// nowhere while every lane is taken.
pub open spec fn seated_one(order: Seq<usize>, lanes: Seq<Option<u32>>, id: u32) -> Seq<
    Option<u32>,
> {
    if lanes.contains(Some(id)) {
        lanes
    } else {
        match freshest(order, lanes, order.len() as int) {
            Some(lane) => lanes.update(lane as int, Some(id)),
            None => lanes,
        }
    }
}

/// The lanes with the first `n` occupiers seated, in entry order.
pub open spec fn seated(
    order: Seq<usize>,
    lanes: Seq<Option<u32>>,
    occupiers: Seq<u32>,
    n: int,
) -> Seq<Option<u32>>
    decreases n,
{
    if n <= 0 {
        lanes
    } else {
        seated_one(order, seated(order, lanes, occupiers, n - 1), occupiers[n - 1])
    }
}

/// Every lane is in the order, once.
pub open spec fn every_lane_once(order: Seq<usize>) -> bool {
    &&& order.len() == LANES
    &&& order.no_duplicates()
    &&& forall|i: int| 0 <= i < order.len() ==> #[trigger] order[i] < LANES
}

/// No request holds two lanes.
pub open spec fn own_lanes(lanes: Seq<Option<u32>>) -> bool {
    forall|i: int, j: int|
        0 <= i < lanes.len() && 0 <= j < lanes.len() && (#[trigger] lanes[i]) is Some && lanes[i]
            == (#[trigger] lanes[j]) ==> i == j
}

impl Seats {
    /// A fixed set of lanes, each in the order once, none of them shared.
    pub open spec fn wf(self) -> bool {
        &&& self.lanes@.len() == LANES
        &&& every_lane_once(self.order@)
        &&& own_lanes(self.lanes@)
    }

    /// Every lane free, in order.
    pub fn new() -> (s: Seats)
        ensures
            s.wf(),
            forall|i: int| 0 <= i < LANES ==> #[trigger] s.lanes@[i] is None,
            forall|i: int| 0 <= i < LANES ==> #[trigger] s.order@[i] == i,
    {
        let mut lanes: Vec<Option<u32>> = Vec::new();
        let mut order: Vec<usize> = Vec::new();
        let mut i: usize = 0;
        while i < LANES
            invariant
                i <= LANES,
                lanes@.len() == i,
                order@.len() == i,
                forall|j: int| 0 <= j < i ==> #[trigger] lanes@[j] is None,
                forall|j: int| 0 <= j < i ==> #[trigger] order@[j] == j,
            decreases LANES - i,
        {
            lanes.push(None);
            order.push(i);
            i += 1;
        }
        Seats { lanes, order }
    }

    /// Seat the occupiers. A lane left goes to the back of the order, and a new occupier takes the
    /// one left most recently. What comes back is who left, in lane order.
    pub fn recycle(&mut self, occupiers: &Vec<u32>) -> (left: Vec<u32>)
        requires
            old(self).wf(),
        ensures
            final(self).wf(),
            left@ == leavers(old(self).lanes@, occupiers@, LANES as int),
            final(self).order@ == recycled(
                old(self).order@,
                old(self).lanes@,
                occupiers@,
                LANES as int,
            ),
            final(self).lanes@ == seated(
                final(self).order@,
                released(old(self).lanes@, occupiers@),
                occupiers@,
                occupiers@.len() as int,
            ),
    {
        let left = self.release(occupiers);
        let ghost freed = self.lanes@;
        let mut i: usize = 0;
        while i < occupiers.len()
            invariant
                i <= occupiers@.len(),
                self.wf(),
                self.order@ == recycled(
                    old(self).order@,
                    old(self).lanes@,
                    occupiers@,
                    LANES as int,
                ),
                self.lanes@ == seated(self.order@, freed, occupiers@, i as int),
            decreases occupiers@.len() - i,
        {
            self.seat(occupiers[i]);
            i += 1;
        }
        left
    }

    /// Everyone gone leaves their lane.
    fn release(&mut self, occupiers: &Vec<u32>) -> (left: Vec<u32>)
        requires
            old(self).wf(),
        ensures
            final(self).wf(),
            left@ == leavers(old(self).lanes@, occupiers@, LANES as int),
            final(self).order@ == recycled(
                old(self).order@,
                old(self).lanes@,
                occupiers@,
                LANES as int,
            ),
            final(self).lanes@ == released(old(self).lanes@, occupiers@),
    {
        let ghost was = self.lanes@;
        let mut left: Vec<u32> = Vec::new();
        let mut lane: usize = 0;
        while lane < LANES
            invariant
                lane <= LANES,
                was == old(self).lanes@,
                was.len() == LANES,
                own_lanes(was),
                self.lanes@.len() == LANES,
                every_lane_once(self.order@),
                left@ == leavers(was, occupiers@, lane as int),
                self.order@ == recycled(old(self).order@, was, occupiers@, lane as int),
                forall|i: int|
                    0 <= i < lane ==> #[trigger] self.lanes@[i] == released(was, occupiers@)[i],
                forall|i: int| lane <= i < LANES ==> #[trigger] self.lanes@[i] == was[i],
            decreases LANES - lane,
        {
            assert(self.lanes@[lane as int] == was[lane as int]);
            match self.lanes[lane] {
                Some(id) => {
                    if !holds(occupiers, id) {
                        self.lanes.set(lane, None);
                        proof {
                            sans_keeps_the_rest(self.order@, lane);
                        }
                        drop_lane(&mut self.order, lane);
                        self.order.push(lane);
                        left.push(id);
                    }
                },
                None => {},
            }
            lane += 1;
        }
        assert(self.lanes@ =~= released(was, occupiers@));
        assert(own_lanes(self.lanes@)) by {
            assert forall|i: int, j: int|
                0 <= i < LANES && 0 <= j < LANES && (#[trigger] self.lanes@[i]) is Some
                    && self.lanes@[i] == (#[trigger] self.lanes@[j]) implies i == j by {
                assert(was[i] == self.lanes@[i] && was[j] == self.lanes@[j]);
            }
        }
        left
    }

    /// Seat one occupier, where there is a lane for it.
    fn seat(&mut self, id: u32)
        requires
            old(self).wf(),
        ensures
            final(self).wf(),
            final(self).order == old(self).order,
            final(self).lanes@ == seated_one(old(self).order@, old(self).lanes@, id),
    {
        let mut i: usize = 0;
        while i < self.lanes.len()
            invariant
                i <= self.lanes@.len(),
                self == old(self),
                self.wf(),
                forall|j: int| 0 <= j < i ==> #[trigger] self.lanes@[j] != Some(id),
            decreases self.lanes@.len() - i,
        {
            let here: bool = match self.lanes[i] {
                Some(held) => held == id,
                None => false,
            };
            if here {
                assert(self.lanes@[i as int] == Some(id));
                return;
            }
            i += 1;
        }
        assert(!self.lanes@.contains(Some(id)));
        let mut n: usize = self.order.len();
        while n > 0
            invariant
                n <= self.order@.len(),
                self == old(self),
                self.wf(),
                !self.lanes@.contains(Some(id)),
                freshest(self.order@, self.lanes@, self.order@.len() as int) == freshest(
                    self.order@,
                    self.lanes@,
                    n as int,
                ),
            decreases n,
        {
            let lane: usize = self.order[n - 1];
            if self.lanes[lane].is_none() {
                let ghost before = self.lanes@;
                self.lanes.set(lane, Some(id));
                assert(own_lanes(self.lanes@)) by {
                    assert forall|a: int, b: int|
                        0 <= a < LANES && 0 <= b < LANES && (#[trigger] self.lanes@[a]) is Some
                            && self.lanes@[a] == (#[trigger] self.lanes@[b]) implies a == b by {
                        if a != lane {
                            assert(before[a] == self.lanes@[a]);
                        }
                        if b != lane {
                            assert(before[b] == self.lanes@[b]);
                        }
                    }
                }
                return;
            }
            n -= 1;
        }
    }
}

/// How many lanes are held.
pub open spec fn held(lanes: Seq<Option<u32>>) -> nat
    decreases lanes.len(),
{
    if lanes.len() == 0 {
        0
    } else {
        held(lanes.drop_last()) + if lanes.last() is Some {
            1nat
        } else {
            0nat
        }
    }
}

/// Once recycled, as many lanes are held as there are occupiers, up to every lane; whoever holds
/// one occupies the server.
pub proof fn every_occupier_is_seated_while_there_is_room(
    lanes: Seq<Option<u32>>,
    order: Seq<usize>,
    occupiers: Seq<u32>,
)
    requires
        lanes.len() == LANES,
        own_lanes(lanes),
        every_lane_once(order),
        occupiers.no_duplicates(),
    ensures
        ({
            let after = seated(
                order,
                released(lanes, occupiers),
                occupiers,
                occupiers.len() as int,
            );
            &&& held(after) == if occupiers.len() <= LANES {
                occupiers.len() as int
            } else {
                LANES as int
            }
            &&& forall|i: int|
                0 <= i < LANES ==> ((#[trigger] after[i]) matches Some(id) ==> occupiers.contains(
                    id,
                ))
            &&& occupiers.len() <= LANES ==> forall|i: int|
                0 <= i < occupiers.len() ==> after.contains(Some(#[trigger] occupiers[i]))
        }),
{
    let freed = released(lanes, occupiers);
    assert(own_lanes(freed)) by {
        assert forall|i: int, j: int|
            0 <= i < LANES && 0 <= j < LANES && (#[trigger] freed[i]) is Some && freed[i]
                == (#[trigger] freed[j]) implies i == j by {
            assert(lanes[i] == freed[i] && lanes[j] == freed[j]);
        }
    }
    let n = occupiers.len() as int;
    seating_goes_on(order, freed, occupiers, n);
    let after = seated(order, freed, occupiers, n);
    let here = ids(after);
    held_is_ids(after);
    let all = occupiers.to_set();
    occupiers.unique_seq_to_set();
    assert(here.subset_of(all)) by {
        assert forall|id: u32| here.contains(id) implies all.contains(id) by {
            let i = choose|i: int| 0 <= i < after.len() && after[i] == Some(id);
            assert(after[i] matches Some(x) ==> occupiers.contains(x));
        }
    }
    vstd::set_lib::lemma_len_subset(here, all);
    if exists|i: int| 0 <= i < n && !after.contains(Some(#[trigger] occupiers[i])) {
        assert(forall|i: int| 0 <= i < LANES ==> #[trigger] after[i] is Some);
        all_held(after);
        if n <= LANES {
            // Every lane is held by an occupier, so with no more occupiers than lanes each
            // occupier holds one.
            vstd::set_lib::lemma_subset_equality(here, all);
            let i = choose|i: int| 0 <= i < n && !after.contains(Some(#[trigger] occupiers[i]));
            assert(all.contains(occupiers[i]));
            assert(here.contains(occupiers[i]));
        }
    } else {
        assert(all.subset_of(here)) by {
            assert forall|id: u32| all.contains(id) implies here.contains(id) by {
                let i = choose|i: int| 0 <= i < n && occupiers[i] == id;
                assert(after.contains(Some(occupiers[i])));
            }
        }
        assert(all =~= here);
        held_is_bounded(after);
    }
}

/// Whoever holds one of the lanes.
spec fn ids(lanes: Seq<Option<u32>>) -> Set<u32>
    decreases lanes.len(),
{
    if lanes.len() == 0 {
        Set::empty()
    } else {
        match lanes.last() {
            Some(id) => ids(lanes.drop_last()).insert(id),
            None => ids(lanes.drop_last()),
        }
    }
}

proof fn held_is_ids(lanes: Seq<Option<u32>>)
    requires
        own_lanes(lanes),
    ensures
        ids(lanes).finite(),
        ids(lanes).len() == held(lanes),
        forall|id: u32| #[trigger]
            ids(lanes).contains(id) <==> exists|i: int|
                0 <= i < lanes.len() && #[trigger] lanes[i] == Some(id),
    decreases lanes.len(),
{
    if lanes.len() > 0 {
        let front = lanes.drop_last();
        let last: int = lanes.len() - 1;
        assert(own_lanes(front)) by {
            assert forall|i: int, j: int|
                0 <= i < front.len() && 0 <= j < front.len() && (#[trigger] front[i]) is Some
                    && front[i] == (#[trigger] front[j]) implies i == j by {
                assert(lanes[i] == front[i] && lanes[j] == front[j]);
            }
        }
        held_is_ids(front);
        assert forall|id: u32| #[trigger]
            ids(lanes).contains(id) <==> exists|i: int|
                0 <= i < lanes.len() && #[trigger] lanes[i] == Some(id) by {
            if ids(lanes).contains(id) {
                if lanes[last] != Some(id) {
                    let i = choose|i: int| 0 <= i < front.len() && #[trigger] front[i] == Some(id);
                    assert(lanes[i] == Some(id));
                }
            }
            if exists|i: int| 0 <= i < lanes.len() && #[trigger] lanes[i] == Some(id) {
                let i = choose|i: int| 0 <= i < lanes.len() && #[trigger] lanes[i] == Some(id);
                if i < last {
                    assert(front[i] == Some(id));
                }
            }
        }
        if lanes.last() is Some {
            let id = lanes.last()->0;
            if ids(front).contains(id) {
                let i = choose|i: int| 0 <= i < front.len() && #[trigger] front[i] == Some(id);
                assert(lanes[i] == lanes[last]);
            }
        }
    }
}

proof fn held_is_bounded(lanes: Seq<Option<u32>>)
    ensures
        held(lanes) <= lanes.len(),
    decreases lanes.len(),
{
    if lanes.len() > 0 {
        held_is_bounded(lanes.drop_last());
    }
}

proof fn all_held(lanes: Seq<Option<u32>>)
    requires
        forall|i: int| 0 <= i < lanes.len() ==> #[trigger] lanes[i] is Some,
    ensures
        held(lanes) == lanes.len(),
    decreases lanes.len(),
{
    if lanes.len() > 0 {
        let front = lanes.drop_last();
        assert forall|i: int| 0 <= i < front.len() implies #[trigger] front[i] is Some by {
            assert(lanes[i] is Some);
        }
        all_held(front);
    }
}

proof fn freshest_is_free(order: Seq<usize>, lanes: Seq<Option<u32>>, n: int)
    requires
        0 <= n <= order.len(),
    ensures
        freshest(order, lanes, n) matches Some(lane) ==> order.contains(lane)
            && lanes[lane as int] is None,
        freshest(order, lanes, n) is None ==> forall|i: int|
            0 <= i < n ==> lanes[#[trigger] order[i] as int] is Some,
    decreases n,
{
    if n > 0 {
        freshest_is_free(order, lanes, n - 1);
    }
}

proof fn every_lane_is_somewhere(order: Seq<usize>, lane: usize)
    requires
        every_lane_once(order),
        lane < LANES,
    ensures
        order.contains(lane),
{
    let ints = order.map_values(|l: usize| l as int);
    assert(ints.no_duplicates());
    ints.unique_seq_to_set();
    let all = vstd::set_lib::set_int_range(0, LANES as int);
    vstd::set_lib::lemma_int_range(0, LANES as int);
    assert(ints.to_set().subset_of(all)) by {
        assert forall|x: int| ints.to_set().contains(x) implies all.contains(x) by {
            let i = choose|i: int| 0 <= i < ints.len() && ints[i] == x;
            assert(order[i] < LANES);
        }
    }
    vstd::set_lib::lemma_subset_equality(ints.to_set(), all);
    assert(all.contains(lane as int));
    let i = choose|i: int| 0 <= i < ints.len() && ints[i] == lane as int;
    assert(order[i] == lane);
}

proof fn seating_goes_on(
    order: Seq<usize>,
    freed: Seq<Option<u32>>,
    occupiers: Seq<u32>,
    n: int,
)
    requires
        freed.len() == LANES,
        own_lanes(freed),
        every_lane_once(order),
        0 <= n <= occupiers.len(),
        forall|i: int|
            0 <= i < LANES ==> ((#[trigger] freed[i]) matches Some(id) ==> occupiers.contains(id)),
    ensures
        ({
            let after = seated(order, freed, occupiers, n);
            &&& after.len() == LANES
            &&& own_lanes(after)
            &&& forall|i: int|
                0 <= i < LANES ==> ((#[trigger] after[i]) matches Some(id) ==> occupiers.contains(
                    id,
                ))
            &&& (exists|i: int| 0 <= i < n && !after.contains(Some(#[trigger] occupiers[i])))
                ==> forall|i: int| 0 <= i < LANES ==> #[trigger] after[i] is Some
        }),
    decreases n,
{
    if n > 0 {
        seating_goes_on(order, freed, occupiers, n - 1);
        let before = seated(order, freed, occupiers, n - 1);
        let after = seated(order, freed, occupiers, n);
        let id = occupiers[n - 1];
        freshest_is_free(order, before, order.len() as int);
        if !before.contains(Some(id)) {
            match freshest(order, before, order.len() as int) {
                Some(lane) => {
                    assert(after == before.update(lane as int, Some(id)));
                    assert(after[lane as int] == Some(id));
                    assert(own_lanes(after)) by {
                        assert forall|a: int, b: int|
                            0 <= a < LANES && 0 <= b < LANES && (#[trigger] after[a]) is Some
                                && after[a] == (#[trigger] after[b]) implies a == b by {
                            if a != lane {
                                assert(before[a] == after[a]);
                            }
                            if b != lane {
                                assert(before[b] == after[b]);
                            }
                        }
                    }
                    assert(before[lane as int] is None);
                    assert forall|i: int|
                        0 <= i < n implies after.contains(Some(#[trigger] occupiers[i])) by {
                        if i < n - 1 {
                            assert(before.contains(Some(occupiers[i])));
                            let j = choose|j: int|
                                0 <= j < before.len() && before[j] == Some(occupiers[i]);
                            assert(after[j] == Some(occupiers[i]));
                        }
                    }
                },
                None => {
                    assert forall|i: int| 0 <= i < LANES implies #[trigger] after[i] is Some by {
                        every_lane_is_somewhere(order, i as usize);
                        let j = choose|j: int| 0 <= j < order.len() && order[j] == i as usize;
                        assert(before[order[j] as int] is Some);
                    }
                },
            }
        }
    }
}

/// Whether a request is among the occupiers.
pub fn holds(occupiers: &Vec<u32>, id: u32) -> (b: bool)
    ensures
        b == occupiers@.contains(id),
{
    let mut i: usize = 0;
    while i < occupiers.len()
        invariant
            i <= occupiers@.len(),
            forall|j: int| 0 <= j < i ==> #[trigger] occupiers@[j] != id,
        decreases occupiers@.len() - i,
    {
        if occupiers[i] == id {
            assert(occupiers@[i as int] == id);
            return true;
        }
        i += 1;
    }
    false
}

/// Take a lane out of the order.
fn drop_lane(order: &mut Vec<usize>, lane: usize)
    ensures
        final(order)@ == sans(old(order)@, lane),
{
    let mut kept: Vec<usize> = Vec::new();
    let mut i: usize = 0;
    while i < order.len()
        invariant
            i <= order@.len(),
            order@ == old(order)@,
            kept@ == sans(order@.take(i as int), lane),
        decreases order@.len() - i,
    {
        proof {
            assert(order@.take(i + 1).drop_last() =~= order@.take(i as int));
        }
        if order[i] != lane {
            kept.push(order[i]);
        }
        i += 1;
    }
    assert(order@.take(order@.len() as int) =~= order@);
    *order = kept;
}

/// Taking a lane out of an order that has every lane once leaves every other lane once.
proof fn sans_keeps_the_rest(order: Seq<usize>, lane: usize)
    requires
        every_lane_once(order),
        lane < LANES,
    ensures
        every_lane_once(sans(order, lane).push(lane)),
{
    sans_shape(order, lane);
    let rest = sans(order, lane);
    // Every lane is somewhere in an order that has them all, so one is taken out.
    every_lane_is_somewhere(order, lane);
    let i = choose|i: int| 0 <= i < order.len() && order[i] == lane;
    sans_len(order, lane, i);
    let after = rest.push(lane);
    assert forall|a: int, b: int| 0 <= a < after.len() && 0 <= b < after.len() && a != b implies after[a]
        != after[b] by {
        if a < rest.len() {
            assert(rest.contains(rest[a]));
        }
        if b < rest.len() {
            assert(rest.contains(rest[b]));
        }
    }
    assert forall|a: int| 0 <= a < after.len() implies #[trigger] after[a] < LANES by {
        if a < rest.len() {
            assert(rest.contains(rest[a]));
            let j = choose|j: int| 0 <= j < order.len() && order[j] == rest[a];
            assert(order[j] < LANES);
        }
    }
}

proof fn sans_shape(order: Seq<usize>, lane: usize)
    requires
        order.no_duplicates(),
    ensures
        sans(order, lane).no_duplicates(),
        forall|x: usize| #[trigger]
            sans(order, lane).contains(x) <==> order.contains(x) && x != lane,
    decreases order.len(),
{
    broadcast use vstd::seq_lib::group_seq_properties;

    if order.len() > 0 {
        let front = order.drop_last();
        assert(front.no_duplicates()) by {
            assert forall|a: int, b: int|
                0 <= a < front.len() && 0 <= b < front.len() && a != b implies front[a]
                != front[b] by {
                assert(order[a] != order[b]);
            }
        }
        sans_shape(front, lane);
        let rest = sans(front, lane);
        assert(order =~= front.push(order.last()));
        assert(!front.contains(order.last())) by {
            if front.contains(order.last()) {
                let i = choose|i: int| 0 <= i < front.len() && front[i] == order.last();
                assert(order[i] == order[order.len() - 1]);
            }
        }
        if order.last() != lane {
            assert(!rest.contains(order.last()));
            let after = rest.push(order.last());
            assert forall|a: int, b: int|
                0 <= a < after.len() && 0 <= b < after.len() && a != b implies after[a]
                != after[b] by {
                if a < rest.len() && b == rest.len() {
                    assert(rest.contains(rest[a]));
                } else if b < rest.len() && a == rest.len() {
                    assert(rest.contains(rest[b]));
                }
            }
        }
    }
}

proof fn sans_len(order: Seq<usize>, lane: usize, i: int)
    requires
        order.no_duplicates(),
        0 <= i < order.len(),
        order[i] == lane,
    ensures
        sans(order, lane).len() == order.len() - 1,
    decreases order.len(),
{
    let front = order.drop_last();
    assert(front.no_duplicates()) by {
        assert forall|a: int, b: int|
            0 <= a < front.len() && 0 <= b < front.len() && a != b implies front[a]
            != front[b] by {
            assert(order[a] != order[b]);
        }
    }
    if i == order.len() - 1 {
        sans_none(front, lane);
    } else {
        assert(order[order.len() - 1] != order[i]);
        sans_len(front, lane, i);
    }
}

proof fn sans_none(order: Seq<usize>, lane: usize)
    requires
        forall|i: int| 0 <= i < order.len() ==> #[trigger] order[i] != lane,
    ensures
        sans(order, lane) == order,
    decreases order.len(),
{
    if order.len() > 0 {
        let front = order.drop_last();
        assert forall|i: int| 0 <= i < front.len() implies #[trigger] front[i] != lane by {
            assert(order[i] != lane);
        }
        sans_none(front, lane);
        assert(order[order.len() - 1] != lane);
        assert(front.push(order.last()) =~= order);
    }
}

proof fn a_seat_is_kept(order: Seq<usize>, lanes: Seq<Option<u32>>, occupiers: Seq<u32>, n: int, i: int)
    requires
        0 <= n <= occupiers.len(),
        0 <= i < lanes.len(),
        lanes[i] is Some,
        every_lane_once(order),
        lanes.len() == LANES,
    ensures
        seated(order, lanes, occupiers, n).len() == LANES,
        seated(order, lanes, occupiers, n)[i] == lanes[i],
    decreases n,
{
    if n > 0 {
        a_seat_is_kept(order, lanes, occupiers, n - 1, i);
        let before = seated(order, lanes, occupiers, n - 1);
        the_lane_freed_last_is_taken(order, before, occupiers[n - 1]);
    }
}

/// Nobody who stays is moved: whoever holds a lane and is still inside holds the same lane.
pub proof fn whoever_stays_keeps_the_lane(
    order: Seq<usize>,
    lanes: Seq<Option<u32>>,
    occupiers: Seq<u32>,
    i: int,
)
    requires
        lanes.len() == LANES,
        every_lane_once(order),
        0 <= i < LANES,
        lanes[i] matches Some(id) && occupiers.contains(id),
    ensures
        seated(order, released(lanes, occupiers), occupiers, occupiers.len() as int)[i] == lanes[i],
{
    a_seat_is_kept(order, released(lanes, occupiers), occupiers, occupiers.len() as int, i);
}

proof fn the_freshest_is_the_last_free(order: Seq<usize>, lanes: Seq<Option<u32>>, n: int)
    requires
        0 <= n <= order.len(),
    ensures
        freshest(order, lanes, n) matches Some(lane) ==> exists|k: int|
            0 <= k < n && #[trigger] order[k] == lane && lanes[lane as int] is None && forall|j: int|
                k < j < n ==> lanes[#[trigger] order[j] as int] is Some,
        freshest(order, lanes, n) is None ==> forall|j: int|
            0 <= j < n ==> lanes[#[trigger] order[j] as int] is Some,
    decreases n,
{
    if n > 0 {
        the_freshest_is_the_last_free(order, lanes, n - 1);
        if lanes[order[n - 1] as int] is None {
            assert(order[n - 1] == order[n - 1]);
        }
    }
}

/// A newcomer takes the lane that was freed last, and takes nothing else: a lane later in the order
/// would have been taken first, and every other lane is as it was. Somebody already seated, or a
/// newcomer to a full house, changes nothing.
pub proof fn the_lane_freed_last_is_taken(order: Seq<usize>, lanes: Seq<Option<u32>>, id: u32)
    requires
        lanes.len() == LANES,
        every_lane_once(order),
    ensures
        ({
            let after = seated_one(order, lanes, id);
            &&& after.len() == lanes.len()
            &&& lanes.contains(Some(id)) ==> after == lanes
            &&& !lanes.contains(Some(id)) && (forall|j: int|
                0 <= j < order.len() ==> lanes[#[trigger] order[j] as int] is Some) ==> after == lanes
            &&& !lanes.contains(Some(id)) && (exists|j: int|
                0 <= j < order.len() && lanes[#[trigger] order[j] as int] is None) ==> exists|k: int|
                {
                    &&& 0 <= k < order.len()
                    &&& lanes[#[trigger] order[k] as int] is None
                    &&& after == lanes.update(order[k] as int, Some(id))
                    &&& forall|j: int| k < j < order.len() ==> lanes[#[trigger] order[j] as int] is Some
                }
        }),
{
    the_freshest_is_the_last_free(order, lanes, order.len() as int);
}

/// Who left is whoever held a lane and is no longer inside, and nobody else.
pub proof fn who_left_is_whoever_is_gone(
    lanes: Seq<Option<u32>>,
    occupiers: Seq<u32>,
    n: int,
    id: u32,
)
    requires
        0 <= n <= lanes.len(),
    ensures
        leavers(lanes, occupiers, n).contains(id) <==> !occupiers.contains(id) && exists|i: int|
            0 <= i < n && #[trigger] lanes[i] == Some(id),
    decreases n,
{
    if n > 0 {
        who_left_is_whoever_is_gone(lanes, occupiers, n - 1, id);
        let before = leavers(lanes, occupiers, n - 1);
        let after = leavers(lanes, occupiers, n);
        if after.len() > before.len() {
            assert(after[before.len() as int] == lanes[n - 1]->0);
            if before.contains(id) {
                let i = choose|i: int| 0 <= i < before.len() && before[i] == id;
                assert(after[i] == id);
            }
            if after.contains(id) && id != lanes[n - 1]->0 {
                let i = choose|i: int| 0 <= i < after.len() && after[i] == id;
                assert(before[i] == id);
            }
        }
        if exists|i: int| 0 <= i < n && #[trigger] lanes[i] == Some(id) {
            let i = choose|i: int| 0 <= i < n && #[trigger] lanes[i] == Some(id);
            assert(i == n - 1 || 0 <= i < n - 1);
        }
        if before.contains(id) {
            let i = choose|i: int| 0 <= i < n - 1 && #[trigger] lanes[i] == Some(id);
            assert(0 <= i < n);
        }
    }
}

proof fn sans_drops_the_lane(order: Seq<usize>, lane: usize)
    ensures
        forall|i: int| 0 <= i < sans(order, lane).len() ==> #[trigger] sans(order, lane)[i] != lane,
        forall|i: int|
            0 <= i < sans(order, lane).len() ==> order.contains(#[trigger] sans(order, lane)[i]),
    decreases order.len(),
{
    if order.len() > 0 {
        sans_drops_the_lane(order.drop_last(), lane);
        assert forall|i: int| 0 <= i < sans(order, lane).len() implies order.contains(
            #[trigger] sans(order, lane)[i],
        ) by {
            let rest = sans(order.drop_last(), lane);
            if i < rest.len() {
                assert(sans(order, lane)[i] == rest[i]);
                assert(order.drop_last().contains(rest[i]));
                let j = choose|j: int|
                    0 <= j < order.drop_last().len() && order.drop_last()[j] == rest[i];
                assert(order[j] == rest[i]);
            } else {
                assert(sans(order, lane)[i] == order[order.len() - 1]);
            }
        }
    }
}

/// A lane that has just been freed goes to the end of the order, and lanes freed together keep their
/// own order there: the last of the lanes freed is the last of all.
pub proof fn a_freed_lane_goes_last(
    order: Seq<usize>,
    lanes: Seq<Option<u32>>,
    occupiers: Seq<u32>,
    n: int,
)
    requires
        0 < n <= lanes.len(),
        n <= usize::MAX,
        gone(lanes[n - 1], occupiers),
    ensures
        ({
            let after = recycled(order, lanes, occupiers, n);
            &&& after.last() == n - 1
            &&& forall|i: int| 0 <= i < after.len() - 1 ==> #[trigger] after[i] != n - 1
        }),
{
    sans_drops_the_lane(recycled(order, lanes, occupiers, n - 1), (n - 1) as usize);
}

/// A lane whose holder stays, and one that nobody held, keep their places: with nobody gone the
/// order is the order it was.
pub proof fn a_full_house_keeps_its_order(
    order: Seq<usize>,
    lanes: Seq<Option<u32>>,
    occupiers: Seq<u32>,
    n: int,
)
    requires
        0 <= n <= lanes.len(),
        forall|i: int| 0 <= i < n ==> !gone(#[trigger] lanes[i], occupiers),
    ensures
        recycled(order, lanes, occupiers, n) == order,
        forall|i: int|
            0 <= i < n ==> #[trigger] released(lanes, occupiers)[i] == lanes[i],
    decreases n,
{
    if n > 0 {
        a_full_house_keeps_its_order(order, lanes, occupiers, n - 1);
        assert(!gone(lanes[n - 1], occupiers));
    }
}

} // verus!
