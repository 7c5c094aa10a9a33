//! The wires between a crowd and its machines: what is marked along one, and which can be drawn.

use vstd::prelude::*;

use crate::atoms::stage::Paint;
use crate::engine::clock::Part;
use crate::kept::{kept, kept_further};
use crate::order::{order_keeps_the_readings, put_in_order, puts_in_order, Keyed};
use crate::text::{nearest_even, push_text, ratio_nearest_even, tenths, tenths_text};

verus! {

/// The length every wire is declared to be, in tenths, so that a place along one is a fraction of
/// this whatever length the layout bowed it into.
pub const WIRE_LEN: u64 = 10_000;

/// How much of a wire one request covers, in tenths.
pub const MARK: u64 = 200;

/// How far along the wire a request is, in tenths, to the nearest; past the end is the end.
pub open spec fn along(p: Part) -> int {
    if p.done >= p.of {
        WIRE_LEN as int
    } else {
        nearest_even((WIRE_LEN * p.done) as nat, p.of as nat) as int
    }
}

/// Where a request's dash begins: centred on it, and wholly on the wire.
pub open spec fn dash_at(p: Part) -> u64 {
    let x = along(p);
    if x < 100 {
        0
    } else if x > WIRE_LEN - 100 {
        (WIRE_LEN - MARK) as u64
    } else {
        (x - 100) as u64
    }
}

/// Where the dashes begin, in the order the requests came.
pub open spec fn dash_starts(at: Seq<Part>) -> Seq<u64> {
    at.map_values(|p: Part| dash_at(p))
}

/// The stretches with one dash more: two close enough to overlap merge rather than being nudged
/// apart.
pub open spec fn with_dash(spans: Seq<(u64, u64)>, a: u64) -> Seq<(u64, u64)> {
    if spans.len() > 0 && a <= spans.last().1 {
        let end = if a + MARK > spans.last().1 {
            (a + MARK) as u64
        } else {
            spans.last().1
        };
        spans.update(spans.len() - 1, (spans.last().0, end))
    } else {
        spans.push((a, (a + MARK) as u64))
    }
}

/// The stretches of the first `n` dashes.
pub open spec fn stretches(starts: Seq<u64>, n: int) -> Seq<(u64, u64)>
    decreases n,
{
    if n <= 0 {
        Seq::empty()
    } else {
        with_dash(stretches(starts, n - 1), starts[n - 1])
    }
}

/// Where the first `n` stretches end.
pub open spec fn end_of(spans: Seq<(u64, u64)>, n: int) -> int {
    if n <= 0 {
        0
    } else {
        spans[n - 1].1 as int
    }
}

/// The gaps and dashes of the first `n` stretches, as they are written.
pub open spec fn run_text(spans: Seq<(u64, u64)>, n: int) -> Seq<char>
    decreases n,
{
    if n <= 0 {
        "0"@
    } else {
        run_text(spans, n - 1) + " "@ + tenths_text((spans[n - 1].0 - end_of(spans, n - 1)) as nat)
            + " "@ + tenths_text((spans[n - 1].1 - spans[n - 1].0) as nat)
    }
}

/// A wire's whole pattern: it begins with an empty dash, and its last gap runs to the end.
pub open spec fn marks_text(spans: Seq<(u64, u64)>) -> Seq<char> {
    run_text(spans, spans.len() as int) + " "@ + tenths_text(
        (WIRE_LEN - end_of(spans, spans.len() as int)) as nat,
    )
}

/// Whether `d` is the pattern of the requests at `at`.
pub open spec fn marks_out(d: Seq<char>, at: Seq<Part>) -> bool {
    exists|sorted: Seq<u64>| #[trigger]
        puts_in_order(dash_starts(at), sorted) && d == marks_text(
            stretches(sorted, sorted.len() as int),
        )
}

/// The stretches run along the wire in order, apart from one another, each at least a mark long
/// and all of them on it.
pub open spec fn runs_along(spans: Seq<(u64, u64)>) -> bool {
    &&& forall|i: int|
        0 <= i < spans.len() ==> (#[trigger] spans[i]).0 + MARK <= spans[i].1 <= WIRE_LEN
    &&& forall|i: int, j: int|
        0 <= i < j < spans.len() ==> (#[trigger] spans[i]).1 < (#[trigger] spans[j]).0
}

/// How much of the wire the first `n` stretches cover.
pub open spec fn ink_of(spans: Seq<(u64, u64)>, n: int) -> int
    decreases n,
{
    if n <= 0 {
        0
    } else {
        ink_of(spans, n - 1) + (spans[n - 1].1 - spans[n - 1].0)
    }
}

/// How much of the wire the gaps before each of the first `n` stretches leave bare.
pub open spec fn bare_of(spans: Seq<(u64, u64)>, n: int) -> int
    decreases n,
{
    if n <= 0 {
        0
    } else {
        bare_of(spans, n - 1) + (spans[n - 1].0 - end_of(spans, n - 1))
    }
}

proof fn stretches_run_along(starts: Seq<u64>, n: int)
    requires
        0 <= n <= starts.len(),
        forall|i: int| 0 <= i < starts.len() ==> #[trigger] starts[i] + MARK <= WIRE_LEN,
        forall|i: int, j: int|
            0 <= i <= j < starts.len() ==> #[trigger] starts[i] <= #[trigger] starts[j],
    ensures
        runs_along(stretches(starts, n)),
        stretches(starts, n).len() > 0 <==> n > 0,
        stretches(starts, n).len() <= n,
        n > 0 ==> stretches(starts, n).last().1 == starts[n - 1] + MARK,
        ink_of(stretches(starts, n), stretches(starts, n).len() as int) <= n * MARK,
    decreases n,
{
    if n > 0 {
        stretches_run_along(starts, n - 1);
        let before = stretches(starts, n - 1);
        let after = stretches(starts, n);
        let a = starts[n - 1];
        if n > 1 {
            assert(starts[n - 2] <= starts[n - 1]);
        }
        let m = before.len() as int;
        assert(n * MARK == (n - 1) * MARK + MARK) by (nonlinear_arith);
        assert(a + MARK <= WIRE_LEN);
        if m > 0 && a <= before.last().1 {
            assert(before[m - 1].0 + MARK <= before[m - 1].1);
            ink_is_its_own(before, after, m - 1);
        } else {
            ink_is_its_own(before, after, m);
        }
    }
}

/// Stretches that agree cover as much.
proof fn ink_is_its_own(a: Seq<(u64, u64)>, b: Seq<(u64, u64)>, n: int)
    requires
        n <= a.len(),
        n <= b.len(),
        forall|i: int| 0 <= i < n ==> #[trigger] a[i] == b[i],
    ensures
        ink_of(a, n) == ink_of(b, n),
    decreases n,
{
    if n > 0 {
        ink_is_its_own(a, b, n - 1);
        assert(a[n - 1] == b[n - 1]);
    }
}

/// The pattern spans the wire exactly once, so it never repeats: its gaps and dashes and what is
/// left at the end come to the whole of it.
pub proof fn marks_cover_the_wire_once(spans: Seq<(u64, u64)>, n: int)
    requires
        0 <= n <= spans.len(),
    ensures
        bare_of(spans, n) + ink_of(spans, n) == end_of(spans, n),
        bare_of(spans, n) + ink_of(spans, n) + (WIRE_LEN - end_of(spans, n)) == WIRE_LEN,
    decreases n,
{
    if n > 0 {
        marks_cover_the_wire_once(spans, n - 1);
    }
}

/// There is a dash exactly where a request put one: a wire with nothing on it is drawn bare, one
/// with anything on it is not, and none draws past its own mark.
pub proof fn ink_is_where_a_request_put_it(at: Seq<Part>, sorted: Seq<u64>)
    requires
        puts_in_order(dash_starts(at), sorted),
    ensures
        ({
            let spans = stretches(sorted, sorted.len() as int);
            let ink = ink_of(spans, spans.len() as int);
            &&& ink > 0 <==> at.len() > 0
            &&& ink <= at.len() * MARK
            &&& runs_along(spans)
        }),
{
    dashes_stay_on_the_wire(at, sorted);
    stretches_run_along(sorted, sorted.len() as int);
    let spans = stretches(sorted, sorted.len() as int);
    if spans.len() > 0 {
        some_ink(spans, spans.len() as int);
    }
}

proof fn some_ink(spans: Seq<(u64, u64)>, n: int)
    requires
        runs_along(spans),
        0 <= n <= spans.len(),
    ensures
        0 <= ink_of(spans, n),
        n > 0 ==> ink_of(spans, n) > 0,
    decreases n,
{
    if n > 0 {
        some_ink(spans, n - 1);
        assert(spans[n - 1].0 + MARK <= spans[n - 1].1);
    }
}

proof fn dashes_stay_on_the_wire(at: Seq<Part>, sorted: Seq<u64>)
    requires
        puts_in_order(dash_starts(at), sorted),
    ensures
        sorted.len() == at.len(),
        forall|i: int| 0 <= i < sorted.len() ==> #[trigger] sorted[i] + MARK <= WIRE_LEN,
        forall|i: int, j: int|
            0 <= i <= j < sorted.len() ==> #[trigger] sorted[i] <= #[trigger] sorted[j],
{
    order_keeps_the_readings(dash_starts(at), sorted);
    assert forall|i: int| 0 <= i < sorted.len() implies #[trigger] sorted[i] + MARK <= WIRE_LEN by {
        assert(sorted.contains(sorted[i]));
        assert(dash_starts(at).contains(sorted[i]));
        let k = choose|k: int| 0 <= k < at.len() && dash_starts(at)[k] == sorted[i];
        assert(sorted[i] == dash_at(at[k]));
    }
    assert forall|i: int, j: int| 0 <= i <= j < sorted.len() implies #[trigger] sorted[i]
        <= #[trigger] sorted[j] by {
        assert(sorted[i].key() <= sorted[j].key());
    }
}

/// Where a request's dash begins.
fn dash(p: &Part) -> (a: u64)
    ensures
        a == dash_at(*p),
        a + MARK <= WIRE_LEN,
{
    if p.done >= p.of {
        return WIRE_LEN - MARK;
    }
    let x: u128 = ratio_nearest_even(10_000u128 * p.done as u128, p.of as u128);
    proof {
        let (done, of) = (p.done as int, p.of as int);
        assert(0 <= 10_000 * done / of <= 9_999) by (nonlinear_arith)
            requires
                0 <= done < of,
        ;
    }
    if x < 100 {
        0
    } else if x > 9_900 {
        WIRE_LEN - MARK
    } else {
        x as u64 - 100
    }
}

/// A wire's dash pattern: one dash per request on it, centred on how far along it that request has
/// actually travelled. It is written to sum to the whole wire, so it neither repeats nor leaves a
/// dash anywhere a request did not put one.
pub fn marks(at: &Vec<Part>) -> (d: String)
    ensures
        marks_out(d@, at@),
{
    let mut starts: Vec<u64> = Vec::new();
    let mut i: usize = 0;
    while i < at.len()
        invariant
            i <= at@.len(),
            starts@.len() == i,
            forall|j: int| 0 <= j < i ==> #[trigger] starts@[j] == dash_at(at@[j]),
        decreases at@.len() - i,
    {
        starts.push(dash(&at[i]));
        i += 1;
    }
    assert(starts@ =~= dash_starts(at@));
    let sorted = put_in_order(&starts);
    proof {
        dashes_stay_on_the_wire(at@, sorted@);
    }
    let mut spans: Vec<(u64, u64)> = Vec::new();
    let mut i: usize = 0;
    while i < sorted.len()
        invariant
            i <= sorted@.len(),
            spans@ == stretches(sorted@, i as int),
            forall|i: int| 0 <= i < sorted@.len() ==> #[trigger] sorted@[i] + MARK <= WIRE_LEN,
        decreases sorted@.len() - i,
    {
        let a: u64 = sorted[i];
        let n: usize = spans.len();
        if n > 0 && a <= spans[n - 1].1 {
            let (from, to): (u64, u64) = spans[n - 1];
            let end: u64 = if a + MARK > to {
                a + MARK
            } else {
                to
            };
            spans.set(n - 1, (from, end));
        } else {
            spans.push((a, a + MARK));
        }
        i += 1;
    }
    proof {
        stretches_run_along(sorted@, sorted@.len() as int);
    }
    let mut d = "0".to_owned();
    let mut end: u64 = 0;
    let mut i: usize = 0;
    while i < spans.len()
        invariant
            i <= spans@.len(),
            runs_along(spans@),
            end == end_of(spans@, i as int),
            end <= WIRE_LEN,
            d@ == run_text(spans@, i as int),
        decreases spans@.len() - i,
    {
        let (a, b): (u64, u64) = spans[i];
        assert(spans@[i as int].0 + MARK <= spans@[i as int].1 <= WIRE_LEN);
        if i > 0 {
            assert(spans@[i - 1].1 < spans@[i as int].0);
        }
        push_text(&mut d, " ");
        push_text(&mut d, &tenths(a - end));
        push_text(&mut d, " ");
        push_text(&mut d, &tenths(b - a));
        end = b;
        i += 1;
    }
    push_text(&mut d, " ");
    push_text(&mut d, &tenths(WIRE_LEN - end));
    assert(d@ == marks_text(spans@));
    d
}

/// Record a measured place, ignoring one for an element the layout does not have.
pub fn set_rect<R>(slots: &mut Vec<Option<R>>, i: usize, rect: R)
    ensures
        final(slots)@ == (if i < old(slots)@.len() {
            old(slots)@.update(i as int, Some(rect))
        } else {
            old(slots)@
        }),
{
    if i < slots.len() {
        slots.set(i, Some(rect));
    }
}

/// Whether a wire can be placed: both of its ends have been measured.
pub open spec fn placeable(clients: Seq<bool>, servers: Seq<bool>, pair: (usize, usize)) -> bool {
    &&& pair.0 < clients.len() && clients[pair.0 as int]
    &&& pair.1 < servers.len() && servers[pair.1 as int]
}

/// The wires that can be drawn: none until the stage has been measured, and each waits on both of
/// its own ends.
pub fn placed(
    stage: bool,
    clients: &Vec<bool>,
    servers: &Vec<bool>,
    pairs: &Vec<(usize, usize)>,
) -> (drawn: Vec<(usize, usize)>)
    ensures
        drawn@ == (if stage {
            kept(pairs@, |p: (usize, usize)| placeable(clients@, servers@, p))
        } else {
            Seq::empty()
        }),
{
    let mut drawn: Vec<(usize, usize)> = Vec::new();
    if !stage {
        return drawn;
    }
    let ghost keep = |p: (usize, usize)| placeable(clients@, servers@, p);
    let mut i: usize = 0;
    while i < pairs.len()
        invariant
            i <= pairs@.len(),
            keep == (|p: (usize, usize)| placeable(clients@, servers@, p)),
            drawn@ == kept(pairs@.take(i as int), keep),
        decreases pairs@.len() - i,
    {
        proof {
            kept_further(pairs@, keep, i as int);
        }
        let p: (usize, usize) = pairs[i];
        if p.0 < clients.len() && clients[p.0] && p.1 < servers.len() && servers[p.1] {
            drawn.push(p);
        }
        i += 1;
    }
    assert(pairs@.take(pairs@.len() as int) =~= pairs@);
    drawn
}

/// Every connection the first `n` clients keep warm, client by client.
pub open spec fn spec_lattice(warm: Seq<Vec<usize>>, n: int) -> Seq<(usize, usize)>
    decreases n,
{
    if n <= 0 {
        Seq::empty()
    } else {
        spec_lattice(warm, n - 1) + warm[n - 1]@.map_values(|s: usize| ((n - 1) as usize, s))
    }
}

/// Every connection the clients keep warm: what is drawn under the traffic, and a function of
/// nothing that ticks.
pub fn lattice(warm: &Vec<Vec<usize>>) -> (pairs: Vec<(usize, usize)>)
    ensures
        pairs@ == spec_lattice(warm@, warm@.len() as int),
{
    let mut pairs: Vec<(usize, usize)> = Vec::new();
    let mut c: usize = 0;
    while c < warm.len()
        invariant
            c <= warm@.len(),
            pairs@ == spec_lattice(warm@, c as int),
        decreases warm@.len() - c,
    {
        let ghost before = pairs@;
        let pool: &Vec<usize> = &warm[c];
        let ghost mine = pool@.map_values(|s: usize| (c, s));
        let mut i: usize = 0;
        assert(before + mine.take(0) =~= before);
        while i < pool.len()
            invariant
                i <= pool@.len(),
                mine == pool@.map_values(|s: usize| (c, s)),
                pairs@ == before + mine.take(i as int),
            decreases pool@.len() - i,
        {
            pairs.push((c, pool[i]));
            i += 1;
            assert(pairs@ =~= before + mine.take(i as int));
        }
        assert(mine.take(pool@.len() as int) =~= mine);
        assert(mine =~= warm@[c as int]@.map_values(|s: usize| (c, s)));
        c += 1;
    }
    pairs
}

/// How a standing wire is drawn: its colour, its width in tenths of a pixel and its opacity in
/// hundredths.
#[derive(Clone, Copy, PartialEq, Eq, Structural, Debug)]
pub struct Line {
    pub ink: Paint,
    pub width: u64,
    pub alpha: u64,
}

/// What a standing wire says of its traffic.
#[derive(Clone, Copy, PartialEq, Eq, Structural, Debug)]
pub enum Standing {
    /// Nothing on it.
    Idle,
    /// Its requests are getting through.
    Request,
    /// Its server sheds them: a shade heavier.
    Shed,
    /// The way home, under both of them.
    Response,
}

/// How a standing wire is drawn.
pub open spec fn spec_line(s: Standing) -> Line {
    match s {
        Standing::Idle => Line { ink: Paint::Wall, width: 10, alpha: 45 },
        Standing::Request => Line { ink: Paint::Teal, width: 13, alpha: 40 },
        Standing::Shed => Line { ink: Paint::Amber, width: 15, alpha: 60 },
        Standing::Response => Line { ink: Paint::Green, width: 10, alpha: 30 },
    }
}

/// How a standing wire is drawn: thin and faint always, because what rides it is what the reader is
/// meant to see.
pub fn line(s: Standing) -> (l: Line)
    ensures
        l == spec_line(s),
{
    match s {
        Standing::Idle => Line { ink: Paint::Wall, width: 10, alpha: 45 },
        Standing::Request => Line { ink: Paint::Teal, width: 13, alpha: 40 },
        Standing::Shed => Line { ink: Paint::Amber, width: 15, alpha: 60 },
        Standing::Response => Line { ink: Paint::Green, width: 10, alpha: 30 },
    }
}

/// A mark is centred where its request is along the wire, and pushed in from the ends so that it is
/// whole: at most half its own length off.
pub proof fn a_mark_is_where_its_request_is(p: Part)
    requires
        p.of > 0,
    ensures
        0 <= along(p) <= 10_000,
        p.done <= p.of ==> 2 * (p.of * along(p)) <= 20_000 * p.done + p.of,
        p.done <= p.of ==> 20_000 * p.done <= 2 * (p.of * along(p)) + p.of,
        dash_at(p) + 200 <= 10_000,
        100 <= along(p) <= 9_900 ==> dash_at(p) + 100 == along(p),
        along(p) < 100 ==> dash_at(p) == 0,
        along(p) > 9_900 ==> dash_at(p) == 9_800,
{
    crate::text::a_rounding_is_the_nearest((10_000 * p.done) as nat, p.of as nat);
    if p.done < p.of {
        let q = nearest_even((10_000 * p.done) as nat, p.of as nat);
        assert(q <= 10_000) by (nonlinear_arith)
            requires
                2 * (p.of * q) <= 2 * (10_000 * p.done) + p.of,
                p.done < p.of,
                p.of > 0,
        ;
    } else if p.done == p.of {
        assert(p.of * 10_000 == 10_000 * p.done);
    }
}

/// A mark joins the stretch before it where it touches or overlaps it, and otherwise begins its own;
/// no stretch before the last is touched.
pub proof fn a_mark_joins_what_it_touches(spans: Seq<(u64, u64)>, a: u64)
    requires
        a <= 9_800,
    ensures
        ({
            let after = with_dash(spans, a);
            let joins = spans.len() > 0 && a <= spans.last().1;
            &&& joins ==> after.len() == spans.len() && after.last().0 == spans.last().0
            &&& joins && a + 200 >= spans.last().1 ==> after.last().1 == a + 200
            &&& joins && a + 200 <= spans.last().1 ==> after.last().1 == spans.last().1
            &&& !joins ==> after == spans.push((a, (a + 200) as u64))
            &&& forall|i: int| 0 <= i < after.len() - 1 ==> #[trigger] after[i] == spans[i]
        }),
{
}

/// Every warm wire is drawn from its client to its server, and no other.
pub proof fn every_warm_wire_is_drawn(warm: Seq<Vec<usize>>, n: int, pair: (usize, usize))
    requires
        0 <= n <= warm.len(),
        n <= usize::MAX,
    ensures
        spec_lattice(warm, n).contains(pair) <==> pair.0 < n && warm[pair.0 as int]@.contains(
            pair.1,
        ),
    decreases n,
{
    if n > 0 {
        every_warm_wire_is_drawn(warm, n - 1, pair);
        let before = spec_lattice(warm, n - 1);
        let here = warm[n - 1]@.map_values(|s: usize| ((n - 1) as usize, s));
        let all = before + here;
        if before.contains(pair) {
            let i = choose|i: int| 0 <= i < before.len() && before[i] == pair;
            assert(all[i] == pair);
        }
        if pair.0 == n - 1 && warm[n - 1]@.contains(pair.1) {
            let row = warm[n - 1]@;
            let i = choose|i: int| 0 <= i < row.len() && row[i] == pair.1;
            assert(here[i] == pair);
            assert(all[before.len() + i] == pair);
        }
        if all.contains(pair) {
            let i = choose|i: int| 0 <= i < all.len() && all[i] == pair;
            if i < before.len() {
                assert(before[i] == pair);
            } else {
                assert(here[i - before.len()] == pair);
                assert(warm[n - 1]@[i - before.len()] == pair.1);
            }
        }
    }
}

/// A wire is drawn where both of its ends stand on the stage.
pub proof fn a_wire_needs_both_its_ends(clients: Seq<bool>, servers: Seq<bool>, pair: (usize, usize))
    ensures
        placeable(clients, servers, pair) <==> pair.0 < clients.len() && pair.1 < servers.len()
            && clients[pair.0 as int] && servers[pair.1 as int],
{
}

/// A wire is marked one way, whatever order its requests are taken in.
pub proof fn a_wire_is_marked_one_way(at: Seq<Part>, a: Seq<char>, b: Seq<char>)
    requires
        marks_out(a, at),
        marks_out(b, at),
    ensures
        a == b,
        at.len() == 0 ==> a == "0"@ + " "@ + tenths_text(10_000),
{
    let x = choose|sorted: Seq<u64>| #[trigger]
        puts_in_order(dash_starts(at), sorted) && a == marks_text(
            stretches(sorted, sorted.len() as int),
        );
    let y = choose|sorted: Seq<u64>| #[trigger]
        puts_in_order(dash_starts(at), sorted) && b == marks_text(
            stretches(sorted, sorted.len() as int),
        );
    crate::order::one_order_is_the_order(x, y);
    if at.len() == 0 {
        order_keeps_the_readings(dash_starts(at), x);
        reveal_with_fuel(run_text, 2);
    }
}

/// A wire that carries a request is wider than one at rest, one that sheds is the widest and the
/// strongest, and each is drawn in the colour of what it carries.
pub proof fn a_wire_is_drawn_for_what_it_carries()
    ensures
        spec_line(Standing::Idle) == (Line { ink: Paint::Wall, width: 10, alpha: 45 }),
        spec_line(Standing::Response).width == spec_line(Standing::Idle).width,
        spec_line(Standing::Request).width == 3 + spec_line(Standing::Idle).width,
        spec_line(Standing::Shed).width == 5 + spec_line(Standing::Idle).width,
        spec_line(Standing::Request).ink == Paint::Teal && spec_line(Standing::Shed).ink
            == Paint::Amber && spec_line(Standing::Response).ink == Paint::Green,
        spec_line(Standing::Response).alpha == 30 && spec_line(Standing::Request).alpha == 40
            && spec_line(Standing::Shed).alpha == 60,
{
}

} // verus!
