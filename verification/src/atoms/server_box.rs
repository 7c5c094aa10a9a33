//! One server as a box of live numbers.

use vstd::prelude::*;

use crate::atoms::stage::{painted, spec_painted, Paint};
use crate::engine::clock::{Part, Ticks, MS};
use crate::engine::readers::TenantQueues;
use crate::text::{
    chars_of, decimal, digits, nearest_even, push_text, ratio_nearest_even, to_nearest_even,
    wide_decimal,
};

verus! {

/// A server's display name, by its place: counted from one, and padded to two digits.
pub open spec fn spec_server_name(i: nat) -> Seq<char> {
    "web-"@ + if i + 1 < 10 {
        seq!['0'] + crate::text::digits(i + 1)
    } else {
        crate::text::digits(i + 1)
    }
}

/// The zero-padded display name for the server at index `i`.
pub fn server_name(i: usize) -> (s: String)
    requires
        i < usize::MAX,
    ensures
        s@ == spec_server_name(i as nat),
{
    let mut s = "web-".to_owned();
    if i + 1 < 10 {
        s.push('0');
    }
    let ghost head = s@;
    push_text(&mut s, &decimal((i + 1) as u64));
    assert(s@ =~= spec_server_name(i as nat));
    s
}

/// The first `k` of `digits` with a thin space before each whole group of three that follows.
pub open spec fn grouped(digits: Seq<char>, k: int) -> Seq<char>
    decreases k,
{
    if k <= 0 {
        Seq::empty()
    } else {
        let before = grouped(digits, k - 1);
        let spaced = if k > 1 && (digits.len() - (k - 1)) % 3 == 0 {
            before.push('\u{2009}')
        } else {
            before
        };
        spaced.push(digits[k - 1])
    }
}

/// A count as the boxes write it.
pub open spec fn spec_group(v: nat) -> Seq<char> {
    grouped(crate::text::digits(v), crate::text::digits(v).len() as int)
}

/// Thousands set off by a thin space.
pub fn group(v: usize) -> (s: String)
    ensures
        s@ == spec_group(v as nat),
{
    let text = decimal(v as u64);
    let digits = chars_of(&text);
    let n: usize = digits.len();
    let mut out = String::new();
    let mut i: usize = 0;
    while i < n
        invariant
            i <= n,
            n == digits@.len(),
            out@ == grouped(digits@, i as int),
        decreases n - i,
    {
        if i > 0 && (n - i) % 3 == 0 {
            out.push('\u{2009}');
        }
        out.push(digits[i]);
        i += 1;
    }
    out
}

/// How many pips a box draws: one to a core.
pub const PIPS: usize = 8;

/// One core's pip: its slot, and the style it wears, empty while the core is free.
pub struct Pip {
    pub i: usize,
    pub ink: String,
}

/// What a pip wears: its occupant's colour where one is named, and the machine's own blue
/// otherwise.
pub open spec fn spec_pip(busy: usize, ink: Seq<Paint>, i: int) -> Seq<char> {
    if i < busy {
        spec_painted(
            "background"@,
            if i < ink.len() {
                ink[i]
            } else {
                Paint::Blue
            },
        )
    } else {
        Seq::empty()
    }
}

/// The box's pips. How many light is always the box's own busy count, so a key that runs short
/// colours what it reaches and no pip can claim a core the counts do not.
pub fn pips(busy: usize, ink: &Vec<Paint>) -> (pips: Vec<Pip>)
    ensures
        pips@.len() == PIPS,
        forall|i: int|
            0 <= i < PIPS ==> (#[trigger] pips@[i]).i == i && pips@[i].ink@ == spec_pip(
                busy,
                ink@,
                i,
            ),
{
    let mut pips: Vec<Pip> = Vec::new();
    let mut i: usize = 0;
    while i < PIPS
        invariant
            i <= PIPS,
            pips@.len() == i,
            forall|j: int|
                0 <= j < i ==> (#[trigger] pips@[j]).i == j && pips@[j].ink@ == spec_pip(
                    busy,
                    ink@,
                    j,
                ),
        decreases PIPS - i,
    {
        let worn = if i < busy {
            painted(
                "background",
                if i < ink.len() {
                    ink[i]
                } else {
                    Paint::Blue
                },
            )
        } else {
            String::new()
        };
        assert(worn@ =~= spec_pip(busy, ink@, i as int));
        pips.push(Pip { i, ink: worn });
        i += 1;
    }
    pips
}

/// One tenant's line in a box's queue block: who it is, what it is costing this server, and the
/// share of its traffic being refused.
#[derive(Clone, Copy, PartialEq, Eq, Debug)]
pub struct TenantLine {
    pub name: &'static str,
    pub tint: Paint,
    pub queues: TenantQueues,
    /// Shut-time this tenant has drawn on this server.
    pub blame: Ticks,
    /// The share of its traffic being refused.
    pub dropped: Part,
}

/// The line's swatch.
pub fn line_swatch(t: &TenantLine) -> (s: String)
    ensures
        s@ == spec_painted("background"@, t.tint),
{
    painted("background", t.tint)
}

/// The three queue locations, this tenant's share of each.
pub fn line_queues(t: &TenantLine) -> (s: String)
    ensures
        s@ == digits(t.queues.tcp as nat) + " tcp  "@ + digits(t.queues.app as nat) + " app  "@
            + digits(t.queues.run as nat) + " run"@,
{
    let mut s = decimal(t.queues.tcp as u64);
    push_text(&mut s, " tcp  ");
    push_text(&mut s, &decimal(t.queues.app as u64));
    push_text(&mut s, " app  ");
    push_text(&mut s, &decimal(t.queues.run as u64));
    push_text(&mut s, " run");
    s
}

/// What this tenant is costing, in whole milliseconds.
pub fn line_blame(t: &TenantLine) -> (s: String)
    ensures
        s@ == digits(nearest_even(t.blame as nat, MS as nat)) + " ms"@,
{
    let mut s = decimal(to_nearest_even(t.blame, MS));
    push_text(&mut s, " ms");
    s
}

/// The share being refused, in whole percent.
pub fn line_drop(t: &TenantLine) -> (s: String)
    requires
        t.dropped.of > 0,
    ensures
        s@ == digits(nearest_even((100 * t.dropped.done) as nat, t.dropped.of as nat)) + "%"@,
{
    let mut s = wide_decimal(
        ratio_nearest_even(100u128 * t.dropped.done as u128, t.dropped.of as u128),
    );
    push_text(&mut s, "%");
    s
}

/// A grouped figure is the figure with a thin space before each three digits from the right and
/// nothing else: without the spaces it is the figure's own digits.
pub proof fn spaces_are_all_that_grouping_adds(digits: Seq<char>, k: int)
    requires
        0 <= k <= digits.len(),
        forall|i: int| 0 <= i < digits.len() ==> #[trigger] digits[i] != '\u{2009}',
    ensures
        grouped(digits, k).filter(|c: char| c != '\u{2009}') == digits.take(k),
        k > 1 && (digits.len() - (k - 1)) % 3 == 0 ==> grouped(digits, k) == grouped(
            digits,
            k - 1,
        ).push('\u{2009}').push(digits[k - 1]),
        k > 1 && (digits.len() - (k - 1)) % 3 != 0 ==> grouped(digits, k) == grouped(
            digits,
            k - 1,
        ).push(digits[k - 1]),
        k == 1 ==> grouped(digits, k) == seq![digits[0]],
    decreases k,
{
    reveal(Seq::filter);
    let keep = |c: char| c != '\u{2009}';
    if k > 0 {
        spaces_are_all_that_grouping_adds(digits, k - 1);
        let before = grouped(digits, k - 1);
        let spaced = before.push('\u{2009}');
        assert(spaced.drop_last() =~= before);
        assert(spaced.filter(keep) == before.filter(keep));
        assert(spaced.push(digits[k - 1]).drop_last() =~= spaced);
        assert(before.push(digits[k - 1]).drop_last() =~= before);
        assert(digits.take(k) =~= digits.take(k - 1).push(digits[k - 1]));
        if k == 1 {
            assert(grouped(digits, k) =~= seq![digits[0]]);
        }
    } else {
        assert(digits.take(0) =~= Seq::empty());
    }
}

/// A pip is lit for each busy core and for no more, in its core's own colour where it has one and
/// the machine's where it has none.
pub proof fn a_pip_is_lit_for_each_busy_core(busy: usize, ink: Seq<Paint>, i: int)
    requires
        0 <= i,
    ensures
        i >= busy ==> spec_pip(busy, ink, i).len() == 0,
        i < busy && i < ink.len() ==> spec_pip(busy, ink, i) == spec_painted("background"@, ink[i]),
        i < busy && i >= ink.len() ==> spec_pip(busy, ink, i) == spec_painted(
            "background"@,
            Paint::Blue,
        ),
{
}

/// Servers are numbered from one, in two places at least.
pub proof fn servers_are_numbered_from_one(i: nat)
    ensures
        i < 9 ==> spec_server_name(i) == "web-0"@ + crate::text::digits(i + 1),
        i >= 9 ==> spec_server_name(i) == "web-"@ + crate::text::digits(i + 1),
{
    reveal_strlit("web-");
    reveal_strlit("web-0");
    assert("web-"@ + (seq!['0'] + crate::text::digits(i + 1)) =~= "web-0"@ + crate::text::digits(
        i + 1,
    ));
}

} // verus!
