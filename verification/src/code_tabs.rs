//! The reader's choice between two spellings of the same thing.

use vstd::prelude::*;

use crate::text::same_text;

verus! {

/// One spelling: its name and its code.
pub struct CodeTab {
    pub label: String,
    pub code: String,
}

/// A run of spellings, known by its id on the page it rides in.
pub struct CodeGroup {
    pub id: String,
    pub tabs: Vec<CodeTab>,
}

/// What the reader can do to a run of spellings.
#[derive(Clone, Copy, PartialEq, Eq, Structural, Debug)]
pub enum TabsMsg {
    /// Show the tab at this index.
    Pick(usize),
}

/// Which tab is picked after a message.
pub fn turn(at: usize, msg: TabsMsg) -> (next: usize)
    ensures
        msg matches TabsMsg::Pick(i) ==> next == i,
{
    match msg {
        TabsMsg::Pick(i) => i,
    }
}

/// The first group with this id, from place `k` on.
pub open spec fn group_at(groups: Seq<CodeGroup>, key: Seq<char>, k: int) -> Option<int>
    decreases groups.len() - k,
{
    if k >= groups.len() {
        None
    } else if groups[k].id@ == key {
        Some(k)
    } else {
        group_at(groups, key, k + 1)
    }
}

/// The group a marker names.
pub fn group_of<'a>(groups: &'a Vec<CodeGroup>, key: &str) -> (g: Option<&'a CodeGroup>)
    ensures
        g is Some <==> group_at(groups@, key@, 0) is Some,
        g matches Some(g) ==> *g == groups@[group_at(groups@, key@, 0)->0],
{
    let mut i: usize = 0;
    while i < groups.len()
        invariant
            i <= groups@.len(),
            group_at(groups@, key@, 0) == group_at(groups@, key@, i as int),
        decreases groups@.len() - i,
    {
        if same_text(groups[i].id.as_str(), key) {
            return Some(&groups[i]);
        }
        i += 1;
    }
    None
}

/// The tab a pick shows: the one picked, or the last where there is no such one.
pub open spec fn shown_at(n: nat, picked: nat) -> int {
    if picked < n {
        picked as int
    } else {
        n - 1
    }
}

/// What is shown: the picked tab's code, and nothing where the group has no tabs or there is no
/// group.
pub open spec fn spec_shown(groups: Seq<CodeGroup>, key: Seq<char>, picked: nat) -> Seq<char> {
    match group_at(groups, key, 0) {
        None => Seq::empty(),
        Some(k) => {
            let tabs = groups[k].tabs@;
            if tabs.len() == 0 {
                Seq::empty()
            } else {
                tabs[shown_at(tabs.len(), picked)].code@
            }
        },
    }
}

/// What is shown.
pub fn shown<'a>(groups: &'a Vec<CodeGroup>, key: &str, picked: usize) -> (code: &'a str)
    ensures
        code@ == spec_shown(groups@, key@, picked as nat),
{
    proof {
        reveal_strlit("");
        assert(""@ =~= Seq::empty());
    }
    match group_of(groups, key) {
        None => "",
        Some(group) => {
            let n: usize = group.tabs.len();
            if n == 0 {
                return "";
            }
            let i: usize = if picked < n {
                picked
            } else {
                n - 1
            };
            group.tabs[i].code.as_str()
        },
    }
}

/// A group is found by its name: the first of that name, and none only where there is none.
pub proof fn a_group_is_found_by_its_name(groups: Seq<CodeGroup>, key: Seq<char>, k: int)
    requires
        0 <= k <= groups.len(),
    ensures
        group_at(groups, key, k) matches Some(i) ==> {
            &&& k <= i < groups.len()
            &&& groups[i].id@ == key
            &&& forall|j: int| k <= j < i ==> (#[trigger] groups[j]).id@ != key
        },
        group_at(groups, key, k) is None ==> forall|j: int|
            k <= j < groups.len() ==> (#[trigger] groups[j]).id@ != key,
    decreases groups.len() - k,
{
    if k < groups.len() && groups[k].id@ != key {
        a_group_is_found_by_its_name(groups, key, k + 1);
    }
}

/// The tab shown is the one picked, or the last where there are not so many; and a group with none
/// shows nothing, as does a name that no group has.
pub proof fn the_tab_shown_is_the_one_picked(groups: Seq<CodeGroup>, key: Seq<char>, picked: nat)
    ensures
        group_at(groups, key, 0) is None ==> spec_shown(groups, key, picked).len() == 0,
        group_at(groups, key, 0) matches Some(k) ==> {
            let tabs = groups[k].tabs@;
            &&& tabs.len() == 0 ==> spec_shown(groups, key, picked).len() == 0
            &&& picked < tabs.len() ==> spec_shown(groups, key, picked) == tabs[picked as int].code@
            &&& 0 < tabs.len() <= picked ==> spec_shown(groups, key, picked)
                == tabs.last().code@
        },
{
}

} // verus!
