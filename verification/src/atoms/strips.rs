//! Stacked time-series rows, one reading each, scrolling as the sim runs.

use std::collections::VecDeque;

use vstd::prelude::*;

use crate::text::{
    decimal, digits, nearest_even, push_text, ratio_nearest_even, tenths, tenths_text,
    wide_tenths,
};

verus! {

/// The surface every row is scaled to.
pub const STRIP_W: u64 = 600;

pub const STRIP_H: u64 = 26;

/// Virtual milliseconds between samples.
pub const SAMPLE_MS: u64 = 250;

/// How many samples a row keeps: thirty seconds of history.
pub const POINTS: usize = 120;

/// One row: what it reads, its scrolling line, and where the line stands now.
pub struct StripRow {
    pub label: &'static str,
    /// The polyline's points.
    pub points: String,
    /// The latest reading, as the row states it.
    pub reading: String,
    /// The line's colour.
    pub ink: String,
}

/// A sample slot's place across the strip, in tenths, to the nearest: fixed by index, so a line
/// grows rightward until the window fills and scrolls only then.
pub open spec fn spec_slot_x(j: int) -> int {
    (2 * 10 * STRIP_W * j + (POINTS - 1)) / (2 * (POINTS - 1))
}

/// A sample slot's place across the strip, in tenths.
pub fn slot_x(j: u64) -> (x: u128)
    ensures
        x == spec_slot_x(j as int),
{
    assert(2 * 10 * STRIP_W * j == 12_000 * j) by (nonlinear_arith)
        requires
            STRIP_W == 600,
    ;
    (12_000 * j as u128 + 119) / 238
}

/// Remember that a setting changed in the current sample slot, once, however many times the
/// control fired on the way there.
pub fn note(marked: &mut VecDeque<u64>, sampled: u64)
    ensures
        final(marked)@ == (if old(marked)@.len() > 0 && old(marked)@.last() == sampled {
            old(marked)@
        } else {
            old(marked)@.push(sampled)
        }),
{
    let n: usize = marked.len();
    if n == 0 || marked[n - 1] != sampled {
        marked.push_back(sampled);
    }
}

/// The stroke of a mark in slot `j`: from the strip's top to its foot.
pub open spec fn stroke(j: int) -> Seq<char> {
    "M "@ + tenths_text(spec_slot_x(j) as nat) + " 0 V 26"@
}

/// Whether the mark `m` is still on stage, with `len` samples up to `sampled` kept.
pub open spec fn on_stage(m: u64, sampled: u64, len: nat) -> bool {
    sampled - len <= m <= sampled
}

/// The rules of the first `n` marks, as one path.
pub open spec fn spec_mark_path(marked: Seq<u64>, n: int, sampled: u64, len: nat) -> Seq<char>
    decreases n,
{
    if n <= 0 {
        Seq::empty()
    } else {
        let before = spec_mark_path(marked, n - 1, sampled, len);
        if !on_stage(marked[n - 1], sampled, len) {
            before
        } else {
            let here = stroke(marked[n - 1] - (sampled - len));
            if before.len() == 0 {
                here
            } else {
                before + " "@ + here
            }
        }
    }
}

/// The rules of every remembered change still on stage, as one path of vertical strokes.
pub fn mark_path(marked: &VecDeque<u64>, sampled: u64, len: usize) -> (d: String)
    requires
        len <= sampled,
    ensures
        d@ == spec_mark_path(marked@, marked@.len() as int, sampled, len as nat),
{
    let first: u64 = sampled - len as u64;
    let mut d = String::new();
    let mut any = false;
    let mut i: usize = 0;
    while i < marked.len()
        invariant
            i <= marked@.len(),
            len <= sampled,
            first == sampled - len,
            d@ == spec_mark_path(marked@, i as int, sampled, len as nat),
            any <==> d@.len() > 0,
        decreases marked@.len() - i,
    {
        let m: u64 = marked[i];
        if m >= first && m - first <= len as u64 {
            let ghost before = d@;
            let ghost j = m - first;
            if any {
                push_text(&mut d, " ");
            }
            let ghost sep = d@;
            push_text(&mut d, "M ");
            let x: u128 = slot_x(m - first);
            push_text(&mut d, &wide_tenths(x));
            push_text(&mut d, " 0 V 26");
            proof {
                assert(on_stage(marked@[i as int], sampled, len as nat));
                assert(x as nat == spec_slot_x(j) as nat);
                assert(d@ =~= sep + stroke(j));
                reveal_strlit("M ");
                reveal_strlit(" ");
                if !any {
                    assert(sep + stroke(j) =~= stroke(j));
                }
            }
            any = true;
        }
        i += 1;
    }
    d
}

/// A mark scrolls with the samples it was dropped between: only its distance from the newest of
/// them matters, so moving every mark and the sample count on together changes nothing.
pub proof fn only_a_marks_distance_matters(
    marked: Seq<u64>,
    moved: Seq<u64>,
    n: int,
    sampled: u64,
    len: nat,
    k: u64,
)
    requires
        0 <= n <= marked.len(),
        len <= sampled,
        sampled + k <= u64::MAX,
        moved.len() == marked.len(),
        forall|i: int| 0 <= i < marked.len() ==> #[trigger] moved[i] == marked[i] + k,
    ensures
        spec_mark_path(moved, n, (sampled + k) as u64, len) == spec_mark_path(
            marked,
            n,
            sampled,
            len,
        ),
    decreases n,
{
    if n > 0 {
        only_a_marks_distance_matters(marked, moved, n - 1, sampled, len, k);
        assert(moved[n - 1] == marked[n - 1] + k);
    }
}

/// Nothing is drawn exactly when every mark has scrolled out with its history.
pub proof fn a_path_is_bare_once_its_marks_are_gone(
    marked: Seq<u64>,
    n: int,
    sampled: u64,
    len: nat,
)
    requires
        0 <= n <= marked.len(),
    ensures
        spec_mark_path(marked, n, sampled, len).len() == 0 <==> forall|i: int|
            0 <= i < n ==> !on_stage(#[trigger] marked[i], sampled, len),
    decreases n,
{
    if n > 0 {
        a_path_is_bare_once_its_marks_are_gone(marked, n - 1, sampled, len);
        reveal_strlit("M ");
        if on_stage(marked[n - 1], sampled, len) {
            assert(stroke(marked[n - 1] - (sampled - len)).len() > 0);
        }
    }
}

/// The axis a reading is drawn against: never less than one.
pub open spec fn spec_axis(axis: u64, one: u64) -> u64 {
    if axis > one {
        axis
    } else {
        one
    }
}

/// A reading's height on the strip against its axis, in tenths, to the nearest: clamped to the
/// strip with a hair of margin. Readings and axis are counted with `one` to the unit.
pub open spec fn spec_y(v: u64, axis: u64, one: u64) -> nat {
    let axis = spec_axis(axis, one);
    let v = if v < axis {
        v
    } else {
        axis
    };
    nearest_even((240 * axis - 220 * v) as nat, axis as nat)
}

/// A reading's height on the strip.
pub fn y_of(v: u64, axis: u64, one: u64) -> (y: u64)
    requires
        one > 0,
    ensures
        y == spec_y(v, axis, one),
{
    let axis: u64 = if axis > one {
        axis
    } else {
        one
    };
    let v: u64 = if v < axis {
        v
    } else {
        axis
    };
    let num: u128 = 240u128 * axis as u128 - 220u128 * v as u128;
    let y: u128 = ratio_nearest_even(num, axis as u128);
    assert(num as int / axis as int <= 240) by (nonlinear_arith)
        requires
            num <= 240 * axis,
            axis > 0,
    ;
    y as u64
}

/// A reading is always on the strip, and a greater one never stands lower.
pub proof fn a_greater_reading_never_stands_lower(v: u64, w: u64, axis: u64, one: u64)
    requires
        v <= w,
        one > 0,
    ensures
        20 <= spec_y(w, axis, one) <= spec_y(v, axis, one) <= 240,
{
    let ax = spec_axis(axis, one) as int;
    let a = if v < ax {
        v as int
    } else {
        ax
    };
    let b = if w < ax {
        w as int
    } else {
        ax
    };
    let (p, q) = (240 * ax - 220 * a, 240 * ax - 220 * b);
    nearest_runs_in_order(q as nat, p as nat, ax as nat);
    nearest_runs_in_order((20 * ax) as nat, q as nat, ax as nat);
    nearest_runs_in_order(p as nat, (240 * ax) as nat, ax as nat);
    assert((20 * ax) / ax == 20 && (20 * ax) % ax == 0 && (240 * ax) / ax == 240 && (240 * ax) % ax
        == 0) by (nonlinear_arith)
        requires
            ax > 0,
    ;
}

proof fn nearest_runs_in_order(x: nat, y: nat, unit: nat)
    requires
        x <= y,
        unit > 0,
    ensures
        nearest_even(x, unit) <= nearest_even(y, unit),
{
    assert(x / unit <= y / unit && (x / unit == y / unit ==> x % unit <= y % unit))
        by (nonlinear_arith)
        requires
            x <= y,
            unit > 0,
    ;
}

/// The points of the first `n` readings.
pub open spec fn points_text(values: Seq<u64>, n: int, axis: u64, one: u64) -> Seq<char>
    decreases n,
{
    if n <= 0 {
        Seq::empty()
    } else {
        let here = tenths_text(spec_slot_x(n - 1) as nat) + ","@ + tenths_text(
            spec_y(values[n - 1], axis, one),
        );
        if n == 1 {
            here
        } else {
            points_text(values, n - 1, axis, one) + " "@ + here
        }
    }
}

/// A row's line: one point to a sample, oldest first.
pub fn points(values: &Vec<u64>, axis: u64, one: u64) -> (d: String)
    requires
        one > 0,
    ensures
        d@ == points_text(values@, values@.len() as int, axis, one),
{
    let mut d = String::new();
    assert(d@ =~= Seq::empty());
    let mut i: usize = 0;
    while i < values.len()
        invariant
            i <= values@.len(),
            one > 0,
            d@ == points_text(values@, i as int, axis, one),
        decreases values@.len() - i,
    {
        let ghost before = d@;
        if i > 0 {
            push_text(&mut d, " ");
        }
        push_text(&mut d, &wide_tenths(slot_x(i as u64)));
        push_text(&mut d, ",");
        push_text(&mut d, &tenths(y_of(values[i], axis, one)));
        proof {
            let here = tenths_text(spec_slot_x(i as int) as nat) + ","@ + tenths_text(
                spec_y(values@[i as int], axis, one),
            );
            if i > 0 {
                assert(d@ =~= before + " "@ + here);
            } else {
                assert(d@ =~= here);
            }
        }
        i += 1;
    }
    d
}

/// The latest reading, to the nearest whole one, as the row states it.
pub open spec fn latest_text(values: Seq<u64>, one: u64, unit: Seq<char>) -> Seq<char> {
    if values.len() == 0 {
        "–"@ + unit
    } else {
        digits(nearest_even(values.last() as nat, one as nat)) + unit
    }
}

/// The latest reading, as the row states it.
pub fn latest(values: &Vec<u64>, one: u64, unit: &str) -> (s: String)
    requires
        one > 0,
    ensures
        s@ == latest_text(values@, one, unit@),
{
    let n: usize = values.len();
    let mut s = if n == 0 {
        "–".to_owned()
    } else {
        let v: u128 = ratio_nearest_even(values[n - 1] as u128, one as u128);
        proof {
            let (x, o) = (values@[n - 1] as int, one as int);
            assert(x / o <= x) by (nonlinear_arith)
                requires
                    x >= 0,
                    o >= 1,
            ;
            assert(o > 1 ==> x / o <= x / 2) by (nonlinear_arith)
                requires
                    x >= 0,
                    o >= 1,
            ;
        }
        decimal(v as u64)
    };
    push_text(&mut s, unit);
    s
}

/// Whether a row draws these readings.
pub open spec fn draws(
    row: StripRow,
    label: Seq<char>,
    values: Seq<u64>,
    axis: u64,
    one: u64,
    unit: Seq<char>,
    ink: Seq<char>,
) -> bool {
    &&& row.label@ == label
    &&& row.points@ == points_text(values, values.len() as int, axis, one)
    &&& row.reading@ == latest_text(values, one, unit)
    &&& row.ink@ == ink
}

/// One row from its readings: the line scaled to its axis, and the latest of them stated in its
/// own unit.
pub fn row(
    label: &'static str,
    values: &Vec<u64>,
    axis: u64,
    one: u64,
    unit: &str,
    ink: String,
) -> (r: StripRow)
    requires
        one > 0,
    ensures
        draws(r, label@, values@, axis, one, unit@, ink@),
{
    StripRow {
        label,
        points: points(values, axis, one),
        reading: latest(values, one, unit),
        ink,
    }
}

/// The declaration a row's line is drawn with.
pub fn stroke_of(r: &StripRow) -> (s: String)
    ensures
        s@ == "stroke:"@ + r.ink@,
{
    let mut s = "stroke:".to_owned();
    push_text(&mut s, r.ink.as_str());
    s
}

/// The marks still on stage once `sampled` samples have been taken: the oldest go first, each with
/// the history it was dropped in.
pub open spec fn spec_expired(marked: Seq<u64>, sampled: u64) -> Seq<u64>
    decreases marked.len(),
{
    if marked.len() > 0 && marked[0] + POINTS <= sampled {
        spec_expired(marked.drop_first(), sampled)
    } else {
        marked
    }
}

/// Forget the marks that have scrolled out with their history.
pub fn expire(marked: &mut VecDeque<u64>, sampled: u64)
    ensures
        final(marked)@ == spec_expired(old(marked)@, sampled),
{
    while marked.len() > 0 && sampled >= 120 && marked[0] <= sampled - 120
        invariant
            spec_expired(marked@, sampled) == spec_expired(old(marked)@, sampled),
        decreases marked@.len(),
    {
        let ghost was = marked@;
        let gone = marked.pop_front();
        assert(marked@ =~= was.drop_first());
    }
}

/// The slots stand evenly along the strip, the first at its start and the last at its end: each is
/// within half a tenth of its share of the way.
pub proof fn the_slots_stand_evenly(j: int)
    requires
        0 <= j,
    ensures
        spec_slot_x(0) == 0,
        spec_slot_x(119) == 6000,
        2 * 119 * spec_slot_x(j) <= 12_000 * j + 119,
        12_000 * j + 119 < 2 * 119 * spec_slot_x(j) + 238,
{
    assert(2 * 10 * STRIP_W == 12_000);
    assert(spec_slot_x(0) == 119int / 238);
    assert(spec_slot_x(119) == (12_000 * 119 + 119int) / 238);
    let x = 12_000 * j + 119;
    assert(spec_slot_x(j) == x / 238);
    assert(238 * (x / 238) <= x < 238 * (x / 238) + 238);
}

/// A reading stands on the strip in proportion to its axis: nought at the foot, the whole axis at
/// the head and anything over it there too, within half a tenth of its share of the way.
pub proof fn a_reading_stands_in_proportion(v: u64, axis: u64, one: u64)
    requires
        one > 0,
        one <= axis,
    ensures
        spec_y(0, axis, one) == 240,
        v >= axis ==> spec_y(v, axis, one) == 20,
        v <= axis ==> 2 * (axis * spec_y(v, axis, one)) <= 480 * axis - 440 * v + axis,
        v <= axis ==> 480 * axis - 440 * v <= 2 * (axis * spec_y(v, axis, one)) + axis,
        spec_axis(axis, one) == axis && spec_axis(one, axis) == axis,
{
    let shown = if v < axis {
        v
    } else {
        axis
    };
    crate::text::a_rounding_is_the_nearest((240 * axis - 220 * shown) as nat, axis as nat);
    a_whole_number_of_units(240, axis as nat);
    a_whole_number_of_units(20, axis as nat);
}

proof fn a_whole_number_of_units(n: nat, unit: nat)
    requires
        unit > 0,
    ensures
        nearest_even(n * unit, unit) == n,
{
    assert((n * unit) / unit == n && (n * unit) % unit == 0) by (nonlinear_arith)
        requires
            unit > 0,
    ;
}

/// A mark is forgotten once it is off the strip: the ones left are the newest, in order, none of
/// them is forgotten that could still be seen, and the oldest of them can be.
pub proof fn a_mark_is_forgotten_once_it_is_off(marked: Seq<u64>, sampled: u64)
    requires
        forall|i: int, j: int| 0 <= i <= j < marked.len() ==> #[trigger] marked[i] <= #[trigger] marked[j],
    ensures
        ({
            let left = spec_expired(marked, sampled);
            &&& left.len() <= marked.len()
            &&& left == marked.skip(marked.len() - left.len())
            &&& forall|i: int| 0 <= i < left.len() ==> sampled - #[trigger] left[i] < 120
            &&& forall|i: int|
                0 <= i < marked.len() - left.len() ==> sampled - #[trigger] marked[i] >= 120
        }),
    decreases marked.len(),
{
    if marked.len() > 0 && marked[0] + POINTS <= sampled {
        let rest = marked.drop_first();
        assert forall|i: int, j: int| 0 <= i <= j < rest.len() implies #[trigger] rest[i]
            <= #[trigger] rest[j] by {
            assert(marked[i + 1] <= marked[j + 1]);
        }
        a_mark_is_forgotten_once_it_is_off(rest, sampled);
        let left = spec_expired(rest, sampled);
        assert(left =~= marked.skip(marked.len() - left.len()));
        assert forall|i: int| 0 <= i < marked.len() - left.len() implies sampled
            - #[trigger] marked[i] >= 120 by {
            if i > 0 {
                assert(rest[i - 1] == marked[i]);
            }
        }
    } else {
        assert(marked.skip(0) =~= marked);
        assert forall|i: int| 0 <= i < marked.len() implies sampled - #[trigger] marked[i] < 120 by {
            assert(marked[0] <= marked[i]);
        }
    }
}

/// A line has a point for each reading, in order, each at its own slot and its own height, with a
/// space between; and the reading shown is the last.
pub proof fn a_line_has_a_point_for_each_reading(values: Seq<u64>, n: int, axis: u64, one: u64)
    requires
        0 < n <= values.len(),
    ensures
        points_text(values, n, axis, one) == (if n == 1 {
            Seq::empty()
        } else {
            points_text(values, n - 1, axis, one) + " "@
        }) + tenths_text(spec_slot_x(n - 1) as nat) + ","@ + tenths_text(
            spec_y(values[n - 1], axis, one),
        ),
        points_text(values, 0, axis, one).len() == 0,
        points_text(values.take(n), n, axis, one) == points_text(values, n, axis, one),
    decreases n,
{
    if n > 1 {
        a_line_has_a_point_for_each_reading(values, n - 1, axis, one);
        a_line_has_a_point_for_each_reading(values.take(n), n - 1, axis, one);
        assert(values.take(n).take(n - 1) =~= values.take(n - 1));
    }
    let here = tenths_text(spec_slot_x(n - 1) as nat) + ","@ + tenths_text(
        spec_y(values[n - 1], axis, one),
    );
    assert(values.take(n)[n - 1] == values[n - 1]);
    if n == 1 {
        assert(points_text(values, n, axis, one) == here);
        assert(Seq::<char>::empty() + tenths_text(spec_slot_x(n - 1) as nat)
            =~= tenths_text(spec_slot_x(n - 1) as nat));
    } else {
        let before = points_text(values, n - 1, axis, one) + " "@;
        assert(before + here =~= before + tenths_text(spec_slot_x(n - 1) as nat) + ","@
            + tenths_text(spec_y(values[n - 1], axis, one)));
    }
}

/// What is read off a line is its last reading, to the nearest unit, and a dash where there is
/// none.
pub proof fn the_last_reading_is_read(values: Seq<u64>, one: u64, unit: Seq<char>)
    requires
        one > 0,
    ensures
        values.len() == 0 ==> latest_text(values, one, unit) == "–"@ + unit,
        values.len() > 0 ==> exists|n: nat|
            latest_text(values, one, unit) == #[trigger] digits(n) + unit && 2 * (one * n) <= 2
                * values.last() + one && 2 * values.last() <= 2 * (one * n) + one,
{
    if values.len() > 0 {
        crate::text::a_rounding_is_the_nearest(values.last() as nat, one as nat);
        let n = nearest_even(values.last() as nat, one as nat);
        assert(latest_text(values, one, unit) == digits(n) + unit);
    }
}

/// A row is drawn from its own readings: its label, its line, its latest reading and its colour.
pub proof fn a_row_is_drawn_from_its_readings(
    r: StripRow,
    label: Seq<char>,
    values: Seq<u64>,
    axis: u64,
    one: u64,
    unit: Seq<char>,
    ink: Seq<char>,
)
    requires
        draws(r, label, values, axis, one, unit, ink),
    ensures
        r.label@ == label && r.ink@ == ink,
        r.reading@ == latest_text(values, one, unit),
        r.points@ == points_text(values, values.len() as int, axis, one),
        values.len() == 0 ==> r.points@.len() == 0,
{
}

/// A mark is a stroke down the whole strip, at the slot it was made in.
pub proof fn a_mark_is_a_stroke_at_its_slot(marked: Seq<u64>, sampled: u64, len: nat)
    requires
        marked.len() == 1,
        len <= sampled,
    ensures
        marked[0] <= sampled && sampled - marked[0] <= len ==> spec_mark_path(marked, 1, sampled, len)
            == "M "@ + tenths_text(spec_slot_x(len - (sampled - marked[0])) as nat) + " 0 V 26"@,
        marked[0] > sampled || sampled - marked[0] > len ==> spec_mark_path(
            marked,
            1,
            sampled,
            len,
        ).len() == 0,
{
    reveal_with_fuel(spec_mark_path, 2);
    assert(len - (sampled - marked[0]) == marked[0] - (sampled - len));
}

} // verus!
