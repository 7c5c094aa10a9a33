//! Text, built a character at a time so that what a label says can be stated exactly.

use vstd::prelude::*;

verus! {

/// `String::push`: the character is added at the end, and nothing else changes.
pub assume_specification[ String::push ](s: &mut String, c: char)
    ensures
        final(s)@ == old(s)@.push(c),
;

/// The decimal digit `d`, for `d` under ten.
pub open spec fn digit(d: nat) -> char {
    (48 + d) as char
}

/// A number in decimal, without leading zeros.
pub open spec fn digits(n: nat) -> Seq<char>
    decreases n,
{
    if n < 10 {
        seq![digit(n)]
    } else {
        digits(n / 10).push(digit(n % 10))
    }
}

/// The digit for `d`.
pub fn digit_char(d: u8) -> (c: char)
    requires
        d < 10,
    ensures
        c == digit(d as nat),
{
    (48u8 + d) as char
}

/// `n` written in decimal.
pub fn decimal(n: u64) -> (s: String)
    ensures
        s@ == digits(n as nat),
{
    wide_decimal(n as u128)
}

/// `n` written in decimal, however wide.
pub fn wide_decimal(n: u128) -> (s: String)
    ensures
        s@ == digits(n as nat),
    decreases n,
{
    if n < 10 {
        let mut s = String::new();
        s.push(digit_char(n as u8));
        assert(s@ =~= digits(n as nat));
        s
    } else {
        let mut s = wide_decimal(n / 10);
        s.push(digit_char((n % 10) as u8));
        s
    }
}

/// `x` counted in whole `unit`s, to the nearest; a tie goes to the even count.
pub open spec fn nearest_even(x: nat, unit: nat) -> nat {
    if 2 * (x % unit) > unit || 2 * (x % unit) == unit && (x / unit) % 2 == 1 {
        x / unit + 1
    } else {
        x / unit
    }
}

/// `x` counted in whole `unit`s, to the nearest; a tie goes up.
pub open spec fn nearest_up(x: nat, unit: nat) -> nat {
    if 2 * (x % unit) >= unit {
        x / unit + 1
    } else {
        x / unit
    }
}

/// `x` counted in whole `unit`s, to the nearest; a tie goes to the even count.
pub fn to_nearest_even(x: u64, unit: u64) -> (n: u64)
    requires
        1 < unit <= 1_000_000_000_000,
    ensures
        n == nearest_even(x as nat, unit as nat),
{
    let (whole, rest): (u64, u64) = (x / unit, x % unit);
    assert(whole < u64::MAX) by (nonlinear_arith)
        requires
            whole == x / unit,
            unit > 1,
    ;
    if 2 * rest > unit || 2 * rest == unit && whole % 2 == 1 {
        whole + 1
    } else {
        whole
    }
}

/// `x` counted in whole `unit`s, to the nearest; a tie goes up.
pub fn to_nearest_up(x: u64, unit: u64) -> (n: u64)
    requires
        1 < unit <= 1_000_000_000_000,
    ensures
        n == nearest_up(x as nat, unit as nat),
{
    let (whole, rest): (u64, u64) = (x / unit, x % unit);
    assert(whole < u64::MAX) by (nonlinear_arith)
        requires
            whole == x / unit,
            unit > 1,
    ;
    if 2 * rest >= unit {
        whole + 1
    } else {
        whole
    }
}

/// How many times `den` goes into `num`, to the nearest; a tie goes to the even count.
pub fn ratio_nearest_even(num: u128, den: u128) -> (n: u128)
    requires
        0 < den < 0x1_0000_0000_0000_0000_0000_0000_0000,
    ensures
        n == nearest_even(num as nat, den as nat),
{
    let (whole, rest): (u128, u128) = (num / den, num % den);
    if 2 * rest > den || 2 * rest == den && whole % 2 == 1 {
        assert(whole < u128::MAX) by (nonlinear_arith)
            requires
                whole == num / den,
                den > 1,
        ;
        whole + 1
    } else {
        whole
    }
}

/// A number of hundredths, written to two places.
pub open spec fn hundredths_text(x: nat) -> Seq<char> {
    digits(x / 100).push('.').push(digit(x % 100 / 10)).push(digit(x % 10))
}

/// `num` of `den`, as a percentage to two places.
pub open spec fn percent_text(num: nat, den: nat) -> Seq<char> {
    hundredths_text(nearest_even(10_000 * num, den)).push('%')
}

/// `num` of `den`, as a percentage to two places.
pub fn percent(num: u128, den: u128) -> (s: String)
    requires
        0 < den < 0x1_0000_0000_0000_0000_0000_0000_0000,
        num < 0x1_0000_0000_0000_0000_0000_0000_0000,
    ensures
        s@ == percent_text(num as nat, den as nat),
{
    let x: u128 = ratio_nearest_even(10_000 * num, den);
    let mut s = wide_decimal(x / 100);
    s.push('.');
    s.push(digit_char((x % 100 / 10) as u8));
    s.push(digit_char((x % 10) as u8));
    s.push('%');
    s
}

/// A number of tenths, written to one place.
pub open spec fn tenths_text(x: nat) -> Seq<char> {
    digits(x / 10).push('.').push(digit(x % 10))
}

/// A number of tenths, written to one place.
pub fn tenths(x: u64) -> (s: String)
    ensures
        s@ == tenths_text(x as nat),
{
    wide_tenths(x as u128)
}

/// A number of tenths, written to one place, however wide.
pub fn wide_tenths(x: u128) -> (s: String)
    ensures
        s@ == tenths_text(x as nat),
{
    let mut s = wide_decimal(x / 10);
    s.push('.');
    s.push(digit_char((x % 10) as u8));
    s
}

/// A number with its thousands separated.
pub open spec fn grouped_text(n: nat) -> Seq<char>
    decreases n,
{
    if n < 1000 {
        digits(n)
    } else {
        grouped_text(n / 1000) + seq![
            ',',
            digit(n % 1000 / 100),
            digit(n % 100 / 10),
            digit(n % 10),
        ]
    }
}

/// A whole number with its thousands separated.
pub fn grouped(n: u64) -> (s: String)
    ensures
        s@ == grouped_text(n as nat),
    decreases n,
{
    if n < 1000 {
        decimal(n)
    } else {
        let mut s = grouped(n / 1000);
        let ghost front = s@;
        s.push(',');
        s.push(digit_char((n % 1000 / 100) as u8));
        s.push(digit_char((n % 100 / 10) as u8));
        s.push(digit_char((n % 10) as u8));
        assert(s@ =~= front + seq![
            ',',
            digit((n % 1000 / 100) as nat),
            digit((n % 100 / 10) as nat),
            digit((n % 10) as nat),
        ]);
        s
    }
}

/// The characters of `s`, in order.
pub fn chars_of(s: &str) -> (v: Vec<char>)
    ensures
        v@ == s@,
{
    let mut v: Vec<char> = Vec::new();
    for c in iter: s.chars()
        invariant
            iter.seq() == s@,
            v@ == s@.take(iter.index()),
    {
        v.push(c);
        assert(v@ =~= s@.take(iter.index() + 1));
    }
    assert(s@.take(s@.len() as int) =~= s@);
    v
}

/// Add `extra` to the end of `s`.
pub fn push_text(s: &mut String, extra: &str)
    ensures
        final(s)@ == old(s)@ + extra@,
{
    s.append(extra);
}

/// Whether two texts are the same, character for character.
pub fn same_text(a: &str, b: &str) -> (r: bool)
    ensures
        r == (a@ == b@),
{
    let (x, y) = (a.as_bytes(), b.as_bytes());
    if x.len() != y.len() {
        return false;
    }
    let mut i: usize = 0;
    while i < x.len()
        invariant
            i <= x@.len(),
            x@.len() == y@.len(),
            x@ == vstd::utf8::encode_utf8(a@),
            y@ == vstd::utf8::encode_utf8(b@),
            forall|j: int| 0 <= j < i ==> x@[j] == y@[j],
        decreases x@.len() - i,
    {
        if x[i] != y[i] {
            return false;
        }
        i += 1;
    }
    proof {
        assert(x@ =~= y@);
        vstd::utf8::encode_utf8_decode_utf8(a@);
        vstd::utf8::encode_utf8_decode_utf8(b@);
    }
    true
}

/// What a run of digits comes to, read from the left.
pub open spec fn read_as(s: Seq<char>) -> int
    decreases s.len(),
{
    if s.len() == 0 {
        0
    } else {
        10 * read_as(s.drop_last()) + (s.last() as int - 48)
    }
}

/// A number's text reads back as the number, holds digits alone, and does not start with a nought
/// unless it is nought.
pub proof fn digits_read_back(n: nat)
    ensures
        read_as(digits(n)) == n,
        digits(n).len() > 0,
        forall|i: int| 0 <= i < digits(n).len() ==> '0' <= #[trigger] digits(n)[i] <= '9',
        n > 0 ==> digits(n)[0] != '0',
    decreases n,
{
    reveal_with_fuel(read_as, 2);
    if n < 10 {
        assert(digits(n).drop_last() =~= Seq::empty());
    } else {
        digits_read_back(n / 10);
        assert(digits(n).drop_last() =~= digits(n / 10));
    }
}

/// A rounding is within half a unit of what it rounds; a tie goes to the even one of the two, or up,
/// as its name says.
pub proof fn a_rounding_is_the_nearest(x: nat, unit: nat)
    requires
        unit > 0,
    ensures
        2 * (unit * nearest_even(x, unit)) <= 2 * x + unit,
        2 * x <= 2 * (unit * nearest_even(x, unit)) + unit,
        2 * x == 2 * (unit * nearest_even(x, unit)) + unit || 2 * x + unit == 2 * (unit
            * nearest_even(x, unit)) ==> nearest_even(x, unit) % 2 == 0,
        2 * (unit * nearest_up(x, unit)) <= 2 * x + unit,
        2 * x < 2 * (unit * nearest_up(x, unit)) + unit,
{
    let (q, r) = (x / unit, x % unit);
    vstd::arithmetic::div_mod::lemma_fundamental_div_mod(x as int, unit as int);
    assert(unit * (q + 1) == unit * q + unit) by (nonlinear_arith);
}

/// A number of hundredths reads as its whole part, a point and two places; of tenths, one place.
pub proof fn the_point_stands_before_the_places(a: nat, b: nat, c: nat)
    requires
        b < 10,
        c < 10,
    ensures
        hundredths_text(100 * a + 10 * b + c) == digits(a) + seq!['.', digit(b), digit(c)],
        tenths_text(10 * a + b) == digits(a) + seq!['.', digit(b)],
{
}

/// A share reads in hundredths of a percent, to the nearest: the whole is a hundred percent.
pub proof fn a_share_reads_in_percent(num: nat, den: nat)
    requires
        den > 0,
    ensures
        percent_text(den, den) == digits(100) + seq!['.', '0', '0', '%'],
        percent_text(0, den) == seq!['0', '.', '0', '0', '%'],
        exists|h: nat| #[trigger]
            hundredths_text(h).push('%') == percent_text(num, den) && 2 * (den * h) <= 20_000 * num
                + den && 20_000 * num <= 2 * (den * h) + den,
{
    a_rounding_is_the_nearest(10_000 * num, den);
    let h = nearest_even(10_000 * num, den);
    assert(hundredths_text(h).push('%') == percent_text(num, den));
    assert((10_000 * den) / den == 10_000 && (10_000 * den) % den == 0) by (nonlinear_arith)
        requires
            den > 0,
    ;
    assert(nearest_even(10_000 * den, den) == 10_000);
    assert(0nat / den == 0 && 0nat % den == 0) by (nonlinear_arith)
        requires
            den > 0,
    ;
    assert(nearest_even(0, den) == 0);
    the_point_stands_before_the_places(100, 0, 0);
    the_point_stands_before_the_places(0, 0, 0);
}

proof fn a_place_more(x: nat, d: nat)
    requires
        x >= 1,
        d < 10,
    ensures
        digits(10 * x + d) == digits(x).push(digit(d)),
{
    assert((10 * x + d) / 10 == x && (10 * x + d) % 10 == d);
}

proof fn three_places_more(t: nat, h: nat, d: nat, u: nat)
    requires
        t >= 1,
        h < 10,
        d < 10,
        u < 10,
    ensures
        digits(1000 * t + 100 * h + 10 * d + u) == digits(t) + seq![digit(h), digit(d), digit(u)],
{
    a_place_more(t, h);
    a_place_more(10 * t + h, d);
    a_place_more(100 * t + 10 * h + d, u);
    assert(10 * (10 * t + h) + d == 100 * t + 10 * h + d);
    assert(10 * (100 * t + 10 * h + d) + u == 1000 * t + 100 * h + 10 * d + u);
    assert(digits(t).push(digit(h)).push(digit(d)).push(digit(u)) =~= digits(t) + seq![
        digit(h),
        digit(d),
        digit(u),
    ]);
}

proof fn places_of(n: nat)
    ensures
        n == 1000 * (n / 1000) + 100 * (n % 1000 / 100) + 10 * (n % 100 / 10) + n % 10,
        n % 1000 / 100 < 10,
        n % 100 / 10 < 10,
{
    let (t, r) = (n / 1000, n % 1000);
    assert(n == 1000 * t + r);
    assert(r == 100 * (r / 100) + r % 100);
    assert(n % 100 == r % 100);
    assert(n % 10 == r % 100 % 10);
    assert(r % 100 == 10 * (r % 100 / 10) + r % 100 % 10);
}

/// A grouped number is the number with a comma before each three digits from the right: without the
/// commas it is the number's own digits.
pub proof fn commas_are_all_that_grouping_adds(n: nat)
    ensures
        grouped_text(n).filter(|c: char| c != ',') == digits(n),
        n < 1000 ==> grouped_text(n) == digits(n),
        n >= 1000 ==> grouped_text(n)[grouped_text(n).len() - 4] == ',' && grouped_text(n).take(
            grouped_text(n).len() - 4,
        ) == grouped_text(n / 1000),
    decreases n,
{
    let keep = |c: char| c != ',';
    if n < 1000 {
        digits_read_back(n);
        a_run_is_kept_whole(digits(n), keep);
    } else {
        commas_are_all_that_grouping_adds(n / 1000);
        places_of(n);
        three_places_more(n / 1000, n % 1000 / 100, n % 100 / 10, n % 10);
        let tail = seq![digit(n % 1000 / 100), digit(n % 100 / 10), digit(n % 10)];
        let head = grouped_text(n / 1000);
        assert(grouped_text(n) =~= head.push(',') + tail);
        assert(head.push(',').drop_last() =~= head);
        reveal(Seq::filter);
        assert(head.push(',').filter(keep) == head.filter(keep));
        Seq::filter_distributes_over_add(head.push(','), tail, keep);
        a_run_is_kept_whole(tail, keep);
        assert(grouped_text(n).take(grouped_text(n).len() - 4) =~= head);
    }
}

proof fn a_run_is_kept_whole(s: Seq<char>, keep: spec_fn(char) -> bool)
    requires
        forall|i: int| 0 <= i < s.len() ==> keep(#[trigger] s[i]),
    ensures
        s.filter(keep) == s,
    decreases s.len(),
{
    reveal(Seq::filter);
    if s.len() > 0 {
        a_run_is_kept_whole(s.drop_last(), keep);
        assert(keep(s[s.len() - 1]));
        assert(s.drop_last().push(s.last()) =~= s);
    }
}

} // verus!
