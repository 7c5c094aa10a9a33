//! Records kept by the request they belong to, and how they come and go.

use vstd::prelude::*;

verus! {

/// A record that belongs to one request.
pub trait Tagged: Copy {
    /// The request it belongs to.
    spec fn tag(self) -> u32;

    /// The request it belongs to.
    fn id_of(&self) -> (id: u32)
        ensures
            id == self.tag(),
    ;
}

impl Tagged for u32 {
    open spec fn tag(self) -> u32 {
        self
    }

    fn id_of(&self) -> (id: u32) {
        *self
    }
}

/// The records of everyone but `id`, in order.
pub open spec fn without<T: Tagged>(s: Seq<T>, id: u32) -> Seq<T>
    decreases s.len(),
{
    if s.len() == 0 {
        s
    } else if s.last().tag() == id {
        without(s.drop_last(), id)
    } else {
        without(s.drop_last(), id).push(s.last())
    }
}

/// How many records belong to `id`.
pub open spec fn count_of<T: Tagged>(s: Seq<T>, id: u32) -> nat
    decreases s.len(),
{
    if s.len() == 0 {
        0
    } else {
        count_of(s.drop_last(), id) + if s.last().tag() == id {
            1nat
        } else {
            0nat
        }
    }
}

/// Take every record of `id` out, keeping the rest in order.
pub fn drop_id<T: Tagged>(v: &mut Vec<T>, id: u32)
    ensures
        final(v)@ == without(old(v)@, id),
        final(v)@.len() <= old(v)@.len(),
{
    let mut kept: Vec<T> = Vec::new();
    let mut i: usize = 0;
    while i < v.len()
        invariant
            i <= v@.len(),
            v@ == old(v)@,
            kept@ == without(v@.take(i as int), id),
            kept@.len() <= i,
        decreases v@.len() - i,
    {
        let x: T = v[i];
        proof {
            assert(v@.take(i + 1).drop_last() =~= v@.take(i as int));
            assert(v@.take(i + 1).last() == x);
        }
        if x.id_of() != id {
            kept.push(x);
        }
        i += 1;
    }
    assert(v@.take(v@.len() as int) =~= v@);
    *v = kept;
}

/// Adding a record adds one to its owner's count and to nobody else's.
pub broadcast proof fn count_push<T: Tagged>(s: Seq<T>, x: T, id: u32)
    ensures
        #[trigger] count_of(s.push(x), id) == count_of(s, id) + if x.tag() == id {
            1nat
        } else {
            0nat
        },
{
    assert(s.push(x).drop_last() =~= s);
}

/// Taking a request's records out leaves none of them and everyone else's.
pub broadcast proof fn count_without<T: Tagged>(s: Seq<T>, gone: u32, id: u32)
    ensures
        #[trigger] count_of(without(s, gone), id) == if id == gone {
            0nat
        } else {
            count_of(s, id)
        },
    decreases s.len(),
{
    if s.len() > 0 {
        count_without(s.drop_last(), gone, id);
        if s.last().tag() != gone {
            count_push(without(s.drop_last(), gone), s.last(), id);
        }
    }
}

/// A request with no record is in none of them.
pub proof fn count_zero<T: Tagged>(s: Seq<T>, id: u32)
    ensures
        count_of(s, id) == 0 <==> (forall|i: int| 0 <= i < s.len() ==> (#[trigger] s[i]).tag() != id),
    decreases s.len(),
{
    if s.len() > 0 {
        count_zero(s.drop_last(), id);
        let front = s.drop_last();
        if count_of(s, id) == 0 {
            assert forall|i: int| 0 <= i < s.len() implies (#[trigger] s[i]).tag() != id by {
                if i < front.len() {
                    assert(front[i] == s[i]);
                }
            }
        } else if s.last().tag() == id {
            assert(s[s.len() - 1].tag() == id);
        } else {
            let i = choose|i: int| 0 <= i < front.len() && (#[trigger] front[i]).tag() == id;
            assert(s[i].tag() == id);
        }
    }
}

/// Whoever is kept was there, and is not the one taken out.
pub broadcast proof fn without_contains<T: Tagged>(s: Seq<T>, gone: u32, x: T)
    ensures
        #[trigger] without(s, gone).contains(x) <==> s.contains(x) && x.tag() != gone,
    decreases s.len(),
{
    broadcast use vstd::seq_lib::group_seq_properties;

    if s.len() > 0 {
        let front = s.drop_last();
        without_contains(front, gone, x);
        assert(s =~= front.push(s.last()));
    }
}

/// Taking records out never makes more of them.
pub proof fn without_len<T: Tagged>(s: Seq<T>, gone: u32)
    ensures
        without(s, gone).len() <= s.len(),
    decreases s.len(),
{
    if s.len() > 0 {
        without_len(s.drop_last(), gone);
    }
}

/// Taking a request's records out takes out as many as it has.
pub proof fn without_takes_its_count<T: Tagged>(s: Seq<T>, gone: u32)
    ensures
        without(s, gone).len() + count_of(s, gone) == s.len(),
    decreases s.len(),
{
    if s.len() > 0 {
        without_takes_its_count(s.drop_last(), gone);
    }
}

/// A request with one record has it in one place.
pub proof fn count_one<T: Tagged>(s: Seq<T>, i: int, j: int)
    requires
        0 <= i < s.len(),
        0 <= j < s.len(),
        s[i].tag() == s[j].tag(),
        count_of(s, s[i].tag()) <= 1,
    ensures
        i == j,
    decreases s.len(),
{
    let last = s.len() - 1;
    let front = s.drop_last();
    let id = s[i].tag();
    if i < last && j < last {
        assert(front[i] == s[i]);
        assert(front[j] == s[j]);
        count_one(front, i, j);
    } else if i != j {
        let other = if i < j {
            i
        } else {
            j
        };
        count_zero(front, id);
        assert(front[other].tag() == id);
    }
}

/// A request has a record exactly where it is counted.
pub proof fn counted_is_there<T: Tagged>(s: Seq<T>, id: u32)
    ensures
        count_of(s, id) > 0 <==> exists|x: T| #[trigger] s.contains(x) && x.tag() == id,
{
    count_zero(s, id);
    if count_of(s, id) > 0 {
        let i = choose|i: int| 0 <= i < s.len() && (#[trigger] s[i]).tag() == id;
        assert(s.contains(s[i]));
    }
    if exists|x: T| #[trigger] s.contains(x) && x.tag() == id {
        let x = choose|x: T| #[trigger] s.contains(x) && x.tag() == id;
        let i = choose|i: int| 0 <= i < s.len() && s[i] == x;
        assert(s[i].tag() == id);
    }
}

/// Records kept together count together.
pub broadcast proof fn count_add<T: Tagged>(a: Seq<T>, b: Seq<T>, id: u32)
    ensures
        #[trigger] count_of(a + b, id) == count_of(a, id) + count_of(b, id),
    decreases b.len(),
{
    if b.len() == 0 {
        assert(a + b =~= a);
    } else {
        count_add(a, b.drop_last(), id);
        assert((a + b).drop_last() =~= a + b.drop_last());
    }
}

/// Records of the same requests, in the same order, count the same.
pub proof fn count_same<T: Tagged, U: Tagged>(a: Seq<T>, b: Seq<U>, id: u32)
    requires
        a.len() == b.len(),
        forall|i: int| 0 <= i < a.len() ==> (#[trigger] a[i]).tag() == b[i].tag(),
    ensures
        count_of(a, id) == count_of(b, id),
    decreases a.len(),
{
    if a.len() > 0 {
        let (fa, fb) = (a.drop_last(), b.drop_last());
        assert forall|i: int| 0 <= i < fa.len() implies (#[trigger] fa[i]).tag() == fb[i].tag() by {
            assert(a[i].tag() == b[i].tag());
        }
        count_same(fa, fb, id);
        assert(a[a.len() - 1].tag() == b[b.len() - 1].tag());
    }
}

/// A copy of the records.
pub fn copy_all<T: Copy>(v: &Vec<T>) -> (c: Vec<T>)
    ensures
        c@ == v@,
{
    let mut c: Vec<T> = Vec::new();
    let mut i: usize = 0;
    while i < v.len()
        invariant
            i <= v@.len(),
            c@ == v@.take(i as int),
        decreases v@.len() - i,
    {
        c.push(v[i]);
        i += 1;
        assert(c@ =~= v@.take(i as int));
    }
    assert(c@ =~= v@);
    c
}

/// The records themselves, leaving none behind.
pub fn take_all<T>(v: &mut Vec<T>) -> (taken: Vec<T>)
    ensures
        taken@ == old(v)@,
        final(v)@ == Seq::<T>::empty(),
{
    let mut taken: Vec<T> = Vec::new();
    std::mem::swap(&mut taken, v);
    taken
}

/// What is left without a request is everything else, in the order it was in.
pub proof fn everything_else_is_left<T: Tagged>(s: Seq<T>, gone: u32)
    ensures
        without(s, gone) == s.filter(|x: T| x.tag() != gone),
    decreases s.len(),
{
    reveal(Seq::filter);
    if s.len() > 0 {
        everything_else_is_left(s.drop_last(), gone);
    }
}

} // verus!
