//! The inline geometry each drawn thing carries.

use vstd::prelude::*;

use crate::atoms::stage::{painted, spec_painted, Paint};
use crate::blame::frame::{Band, Cell, Fine, Meter, Row, Total, TRACK};
use crate::text::{
    digit, digit_char, digits, hundredths_text, nearest_even, percent, percent_text, push_text,
    ratio_nearest_even, wide_decimal,
};

verus! {

/// The blame strip's height in pixels: a lone occupier fills it.
pub const STRIP: u64 = 28;

/// Far past the end of any track that a tick count can reach.
pub const FAR: Fine = 0x1_0000_0000_0000_0000_0000_0000;

/// A number of thousandths, written to three places.
pub open spec fn thousandths_text(x: nat) -> Seq<char> {
    digits(x / 1000).push('.').push(digit(x % 1000 / 100)).push(digit(x % 100 / 10)).push(
        digit(x % 10),
    )
}

/// `num` of `den`, as a percentage to three places.
pub open spec fn share_text(num: nat, den: nat) -> Seq<char> {
    thousandths_text(nearest_even(100_000 * num, den)) + "%"@
}

fn thousandths(x: u128) -> (s: String)
    ensures
        s@ == thousandths_text(x as nat),
{
    let mut s = wide_decimal(x / 1000);
    s.push('.');
    s.push(digit_char((x % 1000 / 100) as u8));
    s.push(digit_char((x % 100 / 10) as u8));
    s.push(digit_char((x % 10) as u8));
    s
}

fn hundredths(x: u128) -> (s: String)
    ensures
        s@ == hundredths_text(x as nat),
{
    let mut s = wide_decimal(x / 100);
    s.push('.');
    s.push(digit_char((x % 100 / 10) as u8));
    s.push(digit_char((x % 10) as u8));
    s
}

fn share(num: u128, den: u128) -> (s: String)
    requires
        num < FAR,
        0 < den < FAR,
    ensures
        s@ == share_text(num as nat, den as nat),
{
    let mut s = thousandths(ratio_nearest_even(100_000 * num, den));
    push_text(&mut s, "%");
    s
}

/// A place and a width along the track.
pub open spec fn along_text(x: nat, w: nat) -> Seq<char> {
    "left:"@ + share_text(x, TRACK as nat) + ";width:"@ + share_text(w, TRACK as nat)
}

fn along(x: Fine, w: Fine) -> (s: String)
    requires
        x < FAR,
        w < FAR,
    ensures
        s@ == along_text(x as nat, w as nat),
{
    let mut s = "left:".to_owned();
    push_text(&mut s, &share(x, TRACK));
    push_text(&mut s, ";width:");
    push_text(&mut s, &share(w, TRACK));
    s
}

/// Where a shut interval stands.
pub fn band_style(b: &Band) -> (s: String)
    requires
        b.x < FAR,
        b.w < FAR,
    ensures
        s@ == along_text(b.x as nat, b.w as nat),
{
    along(b.x, b.w)
}

/// How strongly a cell is drawn, in thousandths: solid while the meter wound across it, faint
/// while it did not, and an echo as much as is left of its fade.
pub open spec fn opacity(c: Cell) -> nat {
    match c.fade {
        Some(p) => nearest_even((850 * (p.of - p.done)) as nat, p.of as nat),
        None => if c.solid {
            1000
        } else {
            200
        },
    }
}

/// How tall a cell is drawn, in hundredths of a pixel: its share of the strip, and an echo what
/// the square of its fade has left of that.
pub open spec fn height(c: Cell) -> nat {
    match c.fade {
        Some(p) => nearest_even(
            (100 * STRIP * (p.of * p.of - p.done * p.done)) as nat,
            (c.n * (p.of * p.of)) as nat,
        ),
        None => nearest_even((100 * STRIP) as nat, c.n as nat),
    }
}

/// What a cell carries: its colour, its strength, its place on the track and its place in the
/// lattice it shares.
pub open spec fn cell_text(c: Cell) -> Seq<char> {
    spec_painted("background"@, c.paint) + ";opacity:"@ + thousandths_text(opacity(c)) + ";"@
        + along_text(c.x as nat, c.w as nat) + ";top:"@ + hundredths_text(
        nearest_even((100 * STRIP * c.pos) as nat, c.n as nat),
    ) + "px;height:"@ + hundredths_text(height(c)) + "px"@
}

fn strength(c: &Cell) -> (o: u128)
    requires
        c.fade matches Some(p) ==> p.done <= p.of && p.of > 0,
    ensures
        o == opacity(*c),
{
    match c.fade {
        Some(p) => ratio_nearest_even(850u128 * (p.of - p.done) as u128, p.of as u128),
        None => if c.solid {
            1000
        } else {
            200
        },
    }
}

fn tall(c: &Cell) -> (h: u128)
    requires
        0 < c.n < 0x1_0000_0000,
        c.fade matches Some(p) ==> p.done <= p.of && 0 < p.of < 0x1_0000_0000,
    ensures
        h == height(*c),
{
    match c.fade {
        Some(p) => {
            let (done, of, n): (u128, u128, u128) = (p.done as u128, p.of as u128, c.n as u128);
            proof {
                assert(done * done <= of * of < 0x1_0000_0000_0000_0000) by (nonlinear_arith)
                    requires
                        done <= of < 0x1_0000_0000,
                ;
                assert(0 < n * (of * of) < 0x1_0000_0000_0000_0000_0000_0000) by (nonlinear_arith)
                    requires
                        0 < n < 0x1_0000_0000,
                        0 < of < 0x1_0000_0000,
                ;
            }
            ratio_nearest_even(2800 * (of * of - done * done), n * (of * of))
        },
        None => ratio_nearest_even(2800, c.n as u128),
    }
}

/// A cell's style. At most a few requests share a lattice and a fade lasts a moment, so neither
/// count comes near the bounds asked for here.
pub fn cell_style(c: &Cell) -> (s: String)
    requires
        c.x < FAR,
        c.w < FAR,
        0 < c.n < 0x1_0000_0000,
        c.fade matches Some(p) ==> p.done <= p.of && 0 < p.of < 0x1_0000_0000,
    ensures
        s@ == cell_text(*c),
{
    let mut s = painted("background", c.paint);
    push_text(&mut s, ";opacity:");
    push_text(&mut s, &thousandths(strength(c)));
    push_text(&mut s, ";");
    push_text(&mut s, &along(c.x, c.w));
    push_text(&mut s, ";top:");
    push_text(
        &mut s,
        &hundredths(ratio_nearest_even(2800u128 * c.pos as u128, c.n as u128)),
    );
    push_text(&mut s, "px;height:");
    push_text(&mut s, &hundredths(tall(c)));
    push_text(&mut s, "px");
    s
}

/// Where a request's bar stands.
pub fn bar_style(r: &Row) -> (s: String)
    requires
        r.x < FAR,
        r.w < FAR,
    ensures
        s@ == along_text(r.x as nat, r.w as nat),
{
    along(r.x, r.w)
}

/// How much of its bar a request spent queued: nothing where it was let in no later than it
/// arrived.
pub open spec fn queued_part(r: Row) -> nat {
    if r.since > r.x {
        (r.since - r.x) as nat
    } else {
        0
    }
}

/// The queued stretch of a bar.
pub fn queued_style(r: &Row) -> (s: String)
    requires
        r.since < FAR,
        0 < r.w < FAR,
    ensures
        s@ == spec_painted("background"@, r.paint) + ";left:0%;width:"@ + share_text(
            queued_part(*r),
            r.w as nat,
        ),
{
    let queued: Fine = if r.since > r.x {
        r.since - r.x
    } else {
        0
    };
    let mut s = painted("background", r.paint);
    push_text(&mut s, ";left:0%;width:");
    push_text(&mut s, &share(queued, r.w));
    s
}

/// How wide the worked stretch of a bar is drawn: its own share of the bar, or the least there is.
pub open spec fn processing_text(r: Row) -> Seq<char> {
    if r.end > r.since && 1000 * (r.end - r.since) > 4 * r.w {
        share_text((r.end - r.since) as nat, r.w as nat)
    } else {
        "0.400%"@
    }
}

/// Where the worked stretch of a bar begins, against the bar.
pub open spec fn from_text(r: Row) -> Seq<char> {
    if r.since >= r.x {
        share_text((r.since - r.x) as nat, r.w as nat)
    } else {
        "-"@ + share_text((r.x - r.since) as nat, r.w as nat)
    }
}

/// The worked stretch of a bar, from where the queued one ends.
pub fn processing_style(r: &Row) -> (s: String)
    requires
        r.x < FAR,
        r.since < FAR,
        r.end < FAR,
        0 < r.w < FAR,
    ensures
        s@ == spec_painted("background"@, r.paint) + ";left:"@ + from_text(*r) + ";width:"@
            + processing_text(*r),
{
    let mut s = painted("background", r.paint);
    push_text(&mut s, ";left:");
    if r.since >= r.x {
        push_text(&mut s, &share(r.since - r.x, r.w));
    } else {
        push_text(&mut s, "-");
        push_text(&mut s, &share(r.x - r.since, r.w));
    }
    assert(s@ =~= spec_painted("background"@, r.paint) + ";left:"@ + from_text(*r));
    push_text(&mut s, ";width:");
    if r.end > r.since && 1000 * (r.end - r.since) > 4 * r.w {
        push_text(&mut s, &share(r.end - r.since, r.w));
    } else {
        push_text(&mut s, "0.400%");
    }
    s
}

/// Where a row's reading stands.
pub fn label_style(r: &Row) -> (s: String)
    requires
        r.label_left < FAR,
    ensures
        s@ == "left:"@ + share_text(r.label_left as nat, TRACK as nat),
{
    let mut s = "left:".to_owned();
    push_text(&mut s, &share(r.label_left, TRACK));
    s
}

/// How strongly a row is drawn: in full while it is live.
pub fn row_opacity(r: &Row) -> (s: &'static str)
    ensures
        s@ == (if r.finished {
            "opacity:0.62"@
        } else {
            "opacity:1.00"@
        }),
{
    if r.finished {
        "opacity:0.62"
    } else {
        "opacity:1.00"
    }
}

/// How strongly a meter is drawn: in full while its lane is taken.
pub fn meter_style(m: &Meter) -> (s: &'static str)
    ensures
        s@ == (if m.taken {
            "opacity:1.00"@
        } else {
            "opacity:0.35"@
        }),
{
    if m.taken {
        "opacity:1.00"
    } else {
        "opacity:0.35"
    }
}

/// A meter's swatch.
pub fn swatch_style(m: &Meter) -> (s: String)
    ensures
        s@ == spec_painted("background"@, m.paint),
{
    painted("background", m.paint)
}

/// How full a meter is drawn.
pub fn fill_style(m: &Meter) -> (s: String)
    requires
        m.filled.of > 0,
    ensures
        s@ == spec_painted("background"@, m.paint) + ";width:"@ + percent_text(
            m.filled.done as nat,
            m.filled.of as nat,
        ),
{
    let mut s = painted("background", m.paint);
    push_text(&mut s, ";width:");
    push_text(&mut s, &percent(m.filled.done as u128, m.filled.of as u128));
    s
}

/// A total's swatch.
pub fn total_swatch(t: &Total) -> (s: String)
    ensures
        s@ == spec_painted("background"@, t.paint),
{
    painted("background", t.paint)
}

/// A tenant's line in the long chart.
pub fn line_style(paint: Paint) -> (s: String)
    ensures
        s@ == spec_painted("stroke"@, paint),
{
    painted("stroke", paint)
}

/// An echo fades out: the further its fade has gone the fainter and the flatter it is drawn, until
/// nothing of it is left.
pub proof fn an_echo_fades_to_nothing(early: Cell, late: Cell)
    requires
        early.n > 0,
        early == (Cell { fade: early.fade, ..late }),
        early.fade matches Some(p) && late.fade matches Some(q) && p.of == q.of && p.of > 0
            && p.done <= q.done <= q.of,
    ensures
        opacity(late) <= opacity(early) <= 850,
        late.fade->0.done == late.fade->0.of ==> opacity(late) == 0 && height(late) == 0,
        height(late) <= height(early),
{
    let (p, q) = (early.fade->0, late.fade->0);
    let of = p.of as nat;
    let (a, b) = ((850 * (p.of - p.done)) as nat, (850 * (q.of - q.done)) as nat);
    nearest_keeps_order(b, a, of);
    nearest_keeps_order(a, 850 * of, of);
    assert(nearest_even(850 * of, of) == 850) by (nonlinear_arith)
        requires
            of > 0,
    ;
    assert(nearest_even(0, of) == 0) by (nonlinear_arith)
        requires
            of > 0,
    ;
    let whole = (early.n * (p.of * p.of)) as nat;
    let (x, y) = (
        (2800 * (p.of * p.of - p.done * p.done)) as nat,
        (2800 * (q.of * q.of - q.done * q.done)) as nat,
    );
    assert(p.done * p.done <= q.done * q.done <= q.of * q.of) by (nonlinear_arith)
        requires
            p.done <= q.done <= q.of,
    ;
    assert(whole > 0) by (nonlinear_arith)
        requires
            whole == early.n * (p.of * p.of),
            early.n > 0,
            p.of > 0,
    ;
    nearest_keeps_order(y, x, whole);
    assert(nearest_even(0, whole) == 0) by (nonlinear_arith)
        requires
            whole > 0,
    ;
}

proof fn nearest_keeps_order(x: nat, y: nat, unit: nat)
    requires
        x <= y,
        unit > 0,
    ensures
        nearest_even(x, unit) <= nearest_even(y, unit),
{
    vstd::arithmetic::div_mod::lemma_div_is_ordered(x as int, y as int, unit as int);
    vstd::arithmetic::div_mod::lemma_fundamental_div_mod(x as int, unit as int);
    vstd::arithmetic::div_mod::lemma_fundamental_div_mod(y as int, unit as int);
    if x / unit == y / unit {
        assert(x % unit <= y % unit);
    }
}

/// A live cell is solid where it mints and a fifth as strong where it does not, and as tall as its
/// share of the strip: as many of them as share it fill it, to within half a hundredth of a pixel
/// each.
pub proof fn live_cells_fill_their_strip(c: Cell)
    requires
        c.fade is None,
        c.n > 0,
    ensures
        opacity(c) == if c.solid { 1000nat } else { 200nat },
        2 * (c.n * height(c)) <= 5600 + c.n,
        5600 <= 2 * (c.n * height(c)) + c.n,
{
    crate::text::a_rounding_is_the_nearest(2800, c.n as nat);
}

/// An echo begins at eighty-five hundredths of full strength and at its whole share of the strip.
pub proof fn an_echo_begins_nearly_whole(c: Cell)
    requires
        c.n > 0,
        c.fade matches Some(p) && p.done == 0 && p.of > 0,
    ensures
        opacity(c) == 850,
        height(c) == height(Cell { fade: None, ..c }),
{
    let p = c.fade->0;
    let of = p.of as int;
    assert((850 * of) / of == 850 && (850 * of) % of == 0) by (nonlinear_arith)
        requires
            of > 0,
    ;
    let (n, sq) = (c.n as int, of * of);
    assert(sq > 0) by (nonlinear_arith)
        requires
            of > 0,
            sq == of * of,
    ;
    assert(p.done * p.done == 0);
    a_scaled_rounding_is_the_same(2800, n, sq);
    assert(2800 * sq == 100 * STRIP * (sq - 0));
}

proof fn a_scaled_rounding_is_the_same(x: int, unit: int, k: int)
    requires
        0 <= x,
        0 < unit,
        0 < k,
    ensures
        nearest_even((x * k) as nat, (unit * k) as nat) == nearest_even(x as nat, unit as nat),
{
    let (q, r) = (x / unit, x % unit);
    vstd::arithmetic::div_mod::lemma_fundamental_div_mod(x, unit);
    assert(x * k == (unit * k) * q + r * k) by (nonlinear_arith)
        requires
            x == unit * q + r,
    ;
    assert(0 <= r * k < unit * k) by (nonlinear_arith)
        requires
            0 <= r < unit,
            0 < k,
    ;
    assert(0 < unit * k) by (nonlinear_arith)
        requires
            0 < unit,
            0 < k,
    ;
    assert((unit * k) * q == q * (unit * k)) by (nonlinear_arith);
    vstd::arithmetic::div_mod::lemma_fundamental_div_mod_converse(x * k, unit * k, q, r * k);
    assert(2 * (r * k) > unit * k <==> 2 * r > unit) by (nonlinear_arith)
        requires
            0 < k,
    ;
    assert(2 * (r * k) == unit * k <==> 2 * r == unit) by (nonlinear_arith)
        requires
            0 < k,
    ;
    assert(0 <= x * k) by (nonlinear_arith)
        requires
            0 <= x,
            0 < k,
    ;
}

/// A bar is parted where its request was let in: the queueing before and the processing after make
/// the bar, and the second starts where the first ends.
pub proof fn a_bar_is_parted_where_it_was_let_in(r: Row)
    requires
        r.x <= r.since <= r.end,
        r.w == r.end - r.x,
        r.w > 0,
    ensures
        queued_part(r) + (r.end - r.since) == r.w,
        from_text(r) == share_text(queued_part(r), r.w as nat),
        1000 * (r.w - queued_part(r)) > 4 * r.w ==> processing_text(r) == share_text(
            (r.w - queued_part(r)) as nat,
            r.w as nat,
        ),
        1000 * (r.w - queued_part(r)) <= 4 * r.w ==> processing_text(r) == "0.400%"@,
{
}

/// A number of thousandths reads as its whole part, a point and three places.
pub proof fn three_places_follow_the_point(a: nat, b: nat, c: nat, d: nat)
    requires
        b < 10,
        c < 10,
        d < 10,
    ensures
        thousandths_text(1000 * a + 100 * b + 10 * c + d) == digits(a) + seq![
            '.',
            digit(b),
            digit(c),
            digit(d),
        ],
{
}

} // verus!
