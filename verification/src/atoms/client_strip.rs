//! The crowd as one row: a circle per client, orange while that client is owed an answer.

use vstd::prelude::*;

use crate::atoms::stage::{painted, Paint};
use crate::text::same_text;

verus! {

/// The colour a client's circle wears: orange while an answer is owed, and the wall tone at
/// rest.
pub open spec fn spec_ink(outstanding: bool) -> Seq<char> {
    crate::atoms::stage::spec_painted(
        "background"@,
        if outstanding {
            Paint::Orange
        } else {
            Paint::Wall
        },
    )
}

/// The circle's style for a client's state.
pub fn ink(outstanding: bool) -> (s: String)
    ensures
        s@ == spec_ink(outstanding),
{
    match outstanding {
        true => painted("background", Paint::Orange),
        false => painted("background", Paint::Wall),
    }
}

/// Whether client `c` is owed an answer. A client with no count is owed none.
pub open spec fn owed(outstanding: Seq<usize>, c: int) -> bool {
    0 <= c < outstanding.len() && outstanding[c] > 0
}

/// Fold one frame of open-trip counts into the circles' faces: each face becomes its client's
/// ink, and what comes back is the clients whose face changed, in order.
pub fn ink_frame(faces: &mut Vec<String>, outstanding: &Vec<usize>) -> (changed: Vec<usize>)
    ensures
        final(faces)@.len() == old(faces)@.len(),
        forall|c: int|
            0 <= c < old(faces)@.len() ==> (#[trigger] final(faces)@[c])@ == spec_ink(
                owed(outstanding@, c),
            ),
        forall|i: int, j: int| 0 <= i < j < changed@.len() ==> changed@[i] < changed@[j],
        forall|c: int|
            0 <= c < old(faces)@.len() ==> (changed@.contains(c as usize) <==> (
            #[trigger] old(faces)@[c])@ != final(faces)@[c]@),
        forall|i: int| 0 <= i < changed@.len() ==> #[trigger] changed@[i] < old(faces)@.len(),
{
    let mut changed: Vec<usize> = Vec::new();
    let mut c: usize = 0;
    while c < faces.len()
        invariant
            c <= faces@.len(),
            faces@.len() == old(faces)@.len(),
            forall|d: int|
                0 <= d < c ==> (#[trigger] faces@[d])@ == spec_ink(owed(outstanding@, d)),
            forall|d: int| c <= d < faces@.len() ==> #[trigger] faces@[d] == old(faces)@[d],
            forall|i: int, j: int| 0 <= i < j < changed@.len() ==> changed@[i] < changed@[j],
            forall|i: int| 0 <= i < changed@.len() ==> #[trigger] changed@[i] < c,
            forall|d: int|
                0 <= d < c ==> (changed@.contains(d as usize) <==> (#[trigger] old(faces)@[d])@
                    != faces@[d]@),
        decreases faces@.len() - c,
    {
        let due: bool = c < outstanding.len() && outstanding[c] > 0;
        let now = ink(due);
        let ghost before = changed@;
        let ghost drawn = faces@;
        if !same_text(&faces[c], &now) {
            faces.set(c, now);
            changed.push(c);
            proof {
                assert(changed@[before.len() as int] == c);
            }
        }
        proof {
            assert(drawn[c as int] == old(faces)@[c as int]);
            assert forall|d: int| 0 <= d < c + 1 implies (changed@.contains(d as usize) <==> (
            #[trigger] old(faces)@[d])@ != faces@[d]@) by {
                if d < c {
                    assert(faces@[d] == drawn[d]);
                    if before.contains(d as usize) {
                        let i = choose|i: int| 0 <= i < before.len() && before[i] == d as usize;
                        assert(changed@[i] == d as usize);
                    }
                    if changed@.contains(d as usize) {
                        let i = choose|i: int| 0 <= i < changed@.len() && changed@[i] == d as usize;
                        assert(before[i] == d as usize);
                    }
                } else if changed@.contains(c) && changed@ == before {
                    let i = choose|i: int| 0 <= i < before.len() && before[i] == c;
                    assert(before[i] < c);
                }
            }
        }
        c += 1;
    }
    changed
}

/// A client is orange while anything is owed it, and the wall's colour otherwise; one past the end
/// is owed nothing.
pub proof fn a_client_is_orange_while_it_is_owed(outstanding: Seq<usize>, c: int)
    ensures
        spec_ink(true) == crate::atoms::stage::spec_painted("background"@, Paint::Orange),
        spec_ink(false) == crate::atoms::stage::spec_painted("background"@, Paint::Wall),
        c >= outstanding.len() ==> !owed(outstanding, c),
        0 <= c < outstanding.len() ==> (owed(outstanding, c) <==> outstanding[c] != 0),
{
}

} // verus!
