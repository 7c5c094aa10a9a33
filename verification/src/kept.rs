//! What is kept of a sequence, in order.

use vstd::prelude::*;

verus! {

/// The items that `keep` keeps, in order.
pub open spec fn kept<A>(s: Seq<A>, keep: spec_fn(A) -> bool) -> Seq<A>
    decreases s.len(),
{
    if s.len() == 0 {
        s
    } else if keep(s.last()) {
        kept(s.drop_last(), keep).push(s.last())
    } else {
        kept(s.drop_last(), keep)
    }
}

/// One item further along: it is kept, or it is not.
pub proof fn kept_further<A>(s: Seq<A>, keep: spec_fn(A) -> bool, i: int)
    requires
        0 <= i < s.len(),
    ensures
        kept(s.take(i + 1), keep) == if keep(s[i]) {
            kept(s.take(i), keep).push(s[i])
        } else {
            kept(s.take(i), keep)
        },
{
    assert(s.take(i + 1).drop_last() =~= s.take(i));
}

/// Whatever is kept was there and is worth keeping, and everything worth keeping is kept.
pub broadcast proof fn kept_contains<A>(s: Seq<A>, keep: spec_fn(A) -> bool, x: A)
    ensures
        #[trigger] kept(s, keep).contains(x) <==> s.contains(x) && keep(x),
    decreases s.len(),
{
    broadcast use vstd::seq_lib::group_seq_properties;

    if s.len() > 0 {
        kept_contains(s.drop_last(), keep, x);
        assert(s =~= s.drop_last().push(s.last()));
    }
}

/// Keeping never makes more of them.
pub proof fn kept_len<A>(s: Seq<A>, keep: spec_fn(A) -> bool)
    ensures
        kept(s, keep).len() <= s.len(),
    decreases s.len(),
{
    if s.len() > 0 {
        kept_len(s.drop_last(), keep);
    }
}

/// Where all of them are worth keeping, nothing changes.
pub proof fn kept_whole<A>(s: Seq<A>, keep: spec_fn(A) -> bool)
    requires
        forall|i: int| 0 <= i < s.len() ==> keep(#[trigger] s[i]),
    ensures
        kept(s, keep) == s,
    decreases s.len(),
{
    if s.len() > 0 {
        let front = s.drop_last();
        assert forall|i: int| 0 <= i < front.len() implies keep(#[trigger] front[i]) by {
            assert(keep(s[i]));
        }
        kept_whole(front, keep);
        assert(keep(s[s.len() - 1]));
        assert(front.push(s.last()) =~= s);
    }
}

} // verus!
