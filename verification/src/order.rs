//! Putting readings in order.

use vstd::prelude::*;

verus! {

/// Something with a place in an order. Two with one key are the same thing to the order.
pub trait Keyed: Copy {
    /// Its place.
    spec fn key(self) -> int;

    /// Whether it comes no later than `other`.
    fn no_later(&self, other: &Self) -> (b: bool)
        ensures
            b == (self.key() <= other.key()),
    ;
}

impl Keyed for u64 {
    open spec fn key(self) -> int {
        self as int
    }

    fn no_later(&self, other: &Self) -> (b: bool) {
        *self <= *other
    }
}

/// In order, from the first to the last.
pub open spec fn ordered<T: Keyed>(s: Seq<T>) -> bool {
    forall|i: int, j: int| 0 <= i <= j < s.len() ==> (#[trigger] s[i]).key() <= (#[trigger] s[j]).key()
}

/// Whether `b` is `a` put in order: the same readings, each as many times.
pub open spec fn puts_in_order<T: Keyed>(a: Seq<T>, b: Seq<T>) -> bool {
    &&& ordered(b)
    &&& b.to_multiset() == a.to_multiset()
}

/// Two runs in order, as one.
fn merge<T: Keyed>(a: &Vec<T>, b: &Vec<T>) -> (m: Vec<T>)
    requires
        ordered(a@),
        ordered(b@),
        a@.len() + b@.len() <= usize::MAX,
    ensures
        ordered(m@),
        m@.to_multiset() == a@.to_multiset().add(b@.to_multiset()),
{
    broadcast use vstd::seq_lib::group_to_multiset_ensures;

    let mut m: Vec<T> = Vec::new();
    let mut i: usize = 0;
    let mut j: usize = 0;
    while i < a.len() || j < b.len()
        invariant
            i <= a@.len(),
            j <= b@.len(),
            ordered(a@),
            ordered(b@),
            a@.len() + b@.len() <= usize::MAX,
            ordered(m@),
            m@.len() == i + j,
            m@.to_multiset() == a@.take(i as int).to_multiset().add(
                b@.take(j as int).to_multiset(),
            ),
            forall|x: int, y: int|
                0 <= x < m@.len() && i <= y < a@.len() ==> (#[trigger] m@[x]).key() <= (
                #[trigger] a@[y]).key(),
            forall|x: int, y: int|
                0 <= x < m@.len() && j <= y < b@.len() ==> (#[trigger] m@[x]).key() <= (
                #[trigger] b@[y]).key(),
        decreases a@.len() - i + b@.len() - j,
    {
        let left: bool = if i >= a.len() {
            false
        } else if j >= b.len() {
            true
        } else {
            a[i].no_later(&b[j])
        };
        let ghost before = m@;
        let ghost (p, q) = (a@.take(i as int).to_multiset(), b@.take(j as int).to_multiset());
        if left {
            let x: T = a[i];
            m.push(x);
            proof {
                assert(a@.take(i + 1) =~= a@.take(i as int).push(x));
                vstd::seq_lib::to_multiset_build(before, x);
                vstd::seq_lib::to_multiset_build(a@.take(i as int), x);
                assert(p.insert(x).add(q) =~= p.add(q).insert(x));
            }
            i += 1;
        } else {
            let x: T = b[j];
            m.push(x);
            proof {
                assert(b@.take(j + 1) =~= b@.take(j as int).push(x));
                vstd::seq_lib::to_multiset_build(before, x);
                vstd::seq_lib::to_multiset_build(b@.take(j as int), x);
                assert(p.add(q.insert(x)) =~= p.add(q).insert(x));
            }
            j += 1;
        }
    }
    assert(a@.take(i as int) =~= a@);
    assert(b@.take(j as int) =~= b@);
    m
}

/// The readings of `v` from `from` up to `to`, in order.
fn in_order_between<T: Keyed>(v: &Vec<T>, from: usize, to: usize) -> (s: Vec<T>)
    requires
        from <= to <= v@.len(),
    ensures
        puts_in_order(v@.subrange(from as int, to as int), s@),
        s@.len() == to - from,
    decreases to - from,
{
    broadcast use vstd::seq_lib::group_to_multiset_ensures;

    let ghost whole = v@.subrange(from as int, to as int);
    if to - from <= 1 {
        let mut s: Vec<T> = Vec::new();
        if from < to {
            s.push(v[from]);
        }
        assert(s@ =~= whole);
        s
    } else {
        let mid: usize = from + (to - from) / 2;
        let a = in_order_between(v, from, mid);
        let b = in_order_between(v, mid, to);
        let ghost (x, y) = (
            v@.subrange(from as int, mid as int),
            v@.subrange(mid as int, to as int),
        );
        let m = merge(&a, &b);
        proof {
            assert(x + y =~= whole);
            vstd::seq_lib::lemma_multiset_commutative(x, y);
            assert(m@.to_multiset() == whole.to_multiset());
            assert(m@.len() == m@.to_multiset().len());
            assert(whole.len() == whole.to_multiset().len());
        }
        m
    }
}

/// The readings, in order.
pub fn put_in_order<T: Keyed>(v: &Vec<T>) -> (s: Vec<T>)
    ensures
        puts_in_order(v@, s@),
        s@.len() == v@.len(),
{
    let s = in_order_between(v, 0, v.len());
    assert(v@.subrange(0, v@.len() as int) =~= v@);
    s
}

/// Putting readings in order neither loses one nor makes one up.
pub proof fn order_keeps_the_readings<T: Keyed>(a: Seq<T>, b: Seq<T>)
    requires
        puts_in_order(a, b),
    ensures
        a.len() == b.len(),
        forall|x: T| #[trigger] a.contains(x) <==> b.contains(x),
{
    broadcast use vstd::seq_lib::group_to_multiset_ensures;

    assert(a.len() == a.to_multiset().len());
    assert forall|x: T| #[trigger] a.contains(x) <==> b.contains(x) by {
        assert(a.contains(x) <==> a.to_multiset().count(x) > 0);
        assert(b.contains(x) <==> b.to_multiset().count(x) > 0);
    }
}

/// How many readings are at most `x`.
pub open spec fn at_most(s: Seq<u64>, x: u64) -> nat
    decreases s.len(),
{
    if s.len() == 0 {
        0
    } else {
        at_most(s.drop_last(), x) + if s.last() <= x {
            1nat
        } else {
            0nat
        }
    }
}

/// How many are at most `x` is the readings' own business, whatever order they stand in.
proof fn at_most_is_orderless(s: Seq<u64>, x: u64)
    ensures
        at_most(s, x) == s.to_multiset().filter(|v: u64| v <= x).len(),
    decreases s.len(),
{
    broadcast use {
        vstd::seq_lib::group_to_multiset_ensures,
        vstd::multiset::group_multiset_axioms,
    };

    let f = |v: u64| v <= x;
    if s.len() == 0 {
        assert(s.to_multiset().filter(f) =~= vstd::multiset::Multiset::empty());
    } else {
        let front = s.drop_last();
        at_most_is_orderless(front, x);
        vstd::seq_lib::to_multiset_build(front, s.last());
        assert(s =~= front.push(s.last()));
        let m = front.to_multiset();
        if s.last() <= x {
            assert(m.insert(s.last()).filter(f) =~= m.filter(f).insert(s.last()));
        } else {
            assert(m.insert(s.last()).filter(f) =~= m.filter(f));
        }
    }
}

proof fn smaller_readings_are_at_most(a: Seq<u64>, b: Seq<u64>, x: u64)
    requires
        a.len() == b.len(),
        forall|i: int| 0 <= i < a.len() ==> #[trigger] a[i] <= b[i],
    ensures
        at_most(a, x) >= at_most(b, x),
    decreases a.len(),
{
    if a.len() > 0 {
        assert(a[a.len() - 1] <= b[a.len() - 1]);
        assert forall|i: int| 0 <= i < a.len() - 1 implies #[trigger] a.drop_last()[i]
            <= b.drop_last()[i] by {
            assert(a[i] <= b[i]);
        }
        smaller_readings_are_at_most(a.drop_last(), b.drop_last(), x);
    }
}

proof fn a_rank_counts_those_before_it(s: Seq<u64>, n: int, x: u64)
    requires
        0 <= n <= s.len(),
    ensures
        (forall|i: int| 0 <= i < n ==> #[trigger] s[i] <= x) ==> at_most(s, x) >= n,
        (forall|i: int| n <= i < s.len() ==> #[trigger] s[i] > x) ==> at_most(s, x) <= n,
    decreases s.len(),
{
    if s.len() > 0 {
        let front = s.drop_last();
        let m = if n < s.len() {
            n
        } else {
            n - 1
        };
        a_rank_counts_those_before_it(front, m, x);
        if forall|i: int| 0 <= i < n ==> #[trigger] s[i] <= x {
            assert forall|i: int| 0 <= i < m implies #[trigger] front[i] <= x by {
                assert(s[i] <= x);
            }
            if n == s.len() {
                assert(s[n - 1] <= x);
            }
        }
        if forall|i: int| n <= i < s.len() ==> #[trigger] s[i] > x {
            assert forall|i: int| m <= i < front.len() implies #[trigger] front[i] > x by {
                assert(s[i] > x);
            }
            if n < s.len() {
                assert(s[s.len() - 1] > x);
            }
        }
    }
}

/// Readings that are each at most another's rank at most where the others do: at every place, the
/// one in order is at most the other.
pub proof fn smaller_readings_rank_no_higher(
    a: Seq<u64>,
    b: Seq<u64>,
    in_a: Seq<u64>,
    in_b: Seq<u64>,
    r: int,
)
    requires
        a.len() == b.len(),
        forall|i: int| 0 <= i < a.len() ==> #[trigger] a[i] <= b[i],
        puts_in_order(a, in_a),
        puts_in_order(b, in_b),
        0 <= r < a.len(),
    ensures
        in_a[r] <= in_b[r],
{
    order_keeps_the_readings(a, in_a);
    order_keeps_the_readings(b, in_b);
    let x = in_b[r];
    assert forall|i: int| 0 <= i < r + 1 implies #[trigger] in_b[i] <= x by {
        assert(in_b[i].key() <= in_b[r].key());
    }
    a_rank_counts_those_before_it(in_b, r + 1, x);
    at_most_is_orderless(in_b, x);
    at_most_is_orderless(b, x);
    smaller_readings_are_at_most(a, b, x);
    at_most_is_orderless(a, x);
    at_most_is_orderless(in_a, x);
    if in_a[r] > x {
        assert forall|i: int| r <= i < in_a.len() implies #[trigger] in_a[i] > x by {
            assert(in_a[r].key() <= in_a[i].key());
        }
        a_rank_counts_those_before_it(in_a, r, x);
    }
}

/// How many readings are at least `x`.
pub open spec fn at_least(s: Seq<u64>, x: u64) -> nat
    decreases s.len(),
{
    if s.len() == 0 {
        0
    } else {
        at_least(s.drop_last(), x) + if s.last() >= x {
            1nat
        } else {
            0nat
        }
    }
}

/// A reading is at least `x` or it is at most the one before.
proof fn the_rest_are_at_least(s: Seq<u64>, x: u64)
    ensures
        at_least(s, x) == s.len() - if x == 0 {
            0
        } else {
            at_most(s, (x - 1) as u64) as int
        },
    decreases s.len(),
{
    if s.len() > 0 {
        the_rest_are_at_least(s.drop_last(), x);
    }
}

/// The reading that stands at a place in order has at least that many before it no larger, and the
/// rest no smaller, however the readings stood to begin with.
pub proof fn a_place_splits_its_readings(a: Seq<u64>, b: Seq<u64>, r: int)
    requires
        puts_in_order(a, b),
        0 <= r < b.len(),
    ensures
        at_most(a, b[r]) >= r + 1,
        at_least(a, b[r]) >= a.len() - r,
{
    order_keeps_the_readings(a, b);
    let x = b[r];
    assert forall|i: int| 0 <= i < r + 1 implies #[trigger] b[i] <= x by {
        assert(b[i].key() <= b[r].key());
    }
    a_rank_counts_those_before_it(b, r + 1, x);
    at_most_is_orderless(a, x);
    at_most_is_orderless(b, x);
    the_rest_are_at_least(a, x);
    if x > 0 {
        let y = (x - 1) as u64;
        assert forall|i: int| r <= i < b.len() implies #[trigger] b[i] > y by {
            assert(b[r].key() <= b[i].key());
        }
        a_rank_counts_those_before_it(b, r, y);
        at_most_is_orderless(a, y);
        at_most_is_orderless(b, y);
    }
}

proof fn one_fewer_counts_one_fewer<T>(s: Seq<T>, i: int, f: spec_fn(T) -> bool)
    requires
        0 <= i < s.len(),
    ensures
        s.filter(f).len() == s.remove(i).filter(f).len() + if f(s[i]) {
            1int
        } else {
            0
        },
{
    let (front, back) = (s.take(i), s.skip(i + 1));
    assert(s =~= front.push(s[i]) + back);
    assert(s.remove(i) =~= front + back);
    Seq::filter_distributes_over_add(front.push(s[i]), back, f);
    Seq::filter_distributes_over_add(front, back, f);
    reveal(Seq::filter);
    assert(front.push(s[i]).drop_last() =~= front);
}

/// However they are ordered, as many of the same readings are of any one kind.
pub proof fn same_readings_count_alike<T>(a: Seq<T>, b: Seq<T>, f: spec_fn(T) -> bool)
    requires
        a.to_multiset() == b.to_multiset(),
    ensures
        a.filter(f).len() == b.filter(f).len(),
    decreases a.len(),
{
    a.to_multiset_ensures();
    b.to_multiset_ensures();
    if a.len() > 0 {
        let x = a.last();
        assert(a[a.len() - 1] == x);
        assert(a.contains(x));
        assert(a.to_multiset().count(x) > 0);
        assert(b.to_multiset().count(x) > 0);
        assert(b.contains(x));
        let i = choose|i: int| 0 <= i < b.len() && b[i] == x;
        assert(a.remove(a.len() - 1) =~= a.drop_last());
        assert(a.drop_last().to_multiset() == b.remove(i).to_multiset());
        same_readings_count_alike(a.drop_last(), b.remove(i), f);
        one_fewer_counts_one_fewer(a, a.len() - 1, f);
        one_fewer_counts_one_fewer(b, i, f);
    } else {
        assert(a =~= b);
    }
}

/// Of a run that is all of one kind, every reading counts.
pub proof fn a_run_counts_whole<T>(s: Seq<T>, f: spec_fn(T) -> bool)
    requires
        forall|i: int| 0 <= i < s.len() ==> f(#[trigger] s[i]),
    ensures
        s.filter(f) == s,
    decreases s.len(),
{
    reveal(Seq::filter);
    if s.len() > 0 {
        assert(f(s[s.len() - 1]));
        a_run_counts_whole(s.drop_last(), f);
        assert(s.drop_last().push(s.last()) =~= s);
    }
}

/// Numbers are put in order one way only.
pub proof fn one_order_is_the_order(a: Seq<u64>, b: Seq<u64>)
    requires
        ordered(a),
        ordered(b),
        a.to_multiset() == b.to_multiset(),
    ensures
        a == b,
{
    let leq = |x: u64, y: u64| x <= y;
    assert(vstd::relations::sorted_by(a, leq)) by {
        assert forall|i: int, j: int| 0 <= i < j < a.len() implies #[trigger] leq(a[i], a[j]) by {
            assert(a[i].key() <= a[j].key());
        }
    }
    assert(vstd::relations::sorted_by(b, leq)) by {
        assert forall|i: int, j: int| 0 <= i < j < b.len() implies #[trigger] leq(b[i], b[j]) by {
            assert(b[i].key() <= b[j].key());
        }
    }
    vstd::seq_lib::lemma_sorted_unique(a, b, leq);
}

} // verus!
