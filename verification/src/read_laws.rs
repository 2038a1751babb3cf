//! What numbers and colours say that are read from text.

use vstd::prelude::*;
use crate::double::{bottom, clamped, pow10, top, units_of, written, Double, Written, FINE, WHOLE};
use crate::number::{
    all_digits, decimal, digit_value, is_digit, law_show_reads_back, magnitude, show, signed, unsigned,
};
use crate::pixels::{strengthened, unpremultiplied};
use crate::ratio::ONE;
use crate::text::{lemma_position_is, lower, trim_start, Class, Text};
use crate::theme::{color_text, hex_pair, hex_value};

verus! {

// --- numbers ----------------------------------------------------------------------------

/// Each digit to the right makes what is before it ten times as much and adds what it counts
/// itself.
pub proof fn law_decimal(s: Text, c: char)
    requires
        is_digit(c),
    ensures
        decimal(s.push(c)) == 10 * decimal(s) + digit_value(c),
        0 <= digit_value(c) <= 9,
        decimal(Seq::empty()) == 0,
{
    assert(s.push(c).drop_last() =~= s);
}

/// The digits count from zero to nine.
pub proof fn law_digits()
    ensures
        digit_value('0') == 0 && digit_value('1') == 1 && digit_value('2') == 2 && digit_value('3') == 3,
        digit_value('4') == 4 && digit_value('5') == 5 && digit_value('6') == 6 && digit_value('7') == 7,
        digit_value('8') == 8 && digit_value('9') == 9,
        is_digit('0') && is_digit('9') && !is_digit('-') && !is_digit('+') && !is_digit('.') && !is_digit('a'),
{
}

/// A number may have a plus before it; one with a minus is as much below zero. What is too
/// large, empty, or holds anything but digits is no number.
pub proof fn law_signs(n: nat, min: int, max: int, s: Text)
    requires
        min <= 0 <= max,
    ensures
        n <= max ==> unsigned(seq!['+'] + show(n), max) == Some(n as int),
        n <= max ==> signed(seq!['+'] + show(n), min, max) == Some(n as int),
        n <= -min ==> signed(seq!['-'] + show(n), min, max) == Some(-n),
        n > max ==> unsigned(show(n), max) is None,
        n > -min ==> signed(seq!['-'] + show(n), min, max) is None,
        unsigned(seq!['-'] + show(n), max) is None,
        unsigned(Seq::empty(), max) is None && signed(Seq::empty(), min, max) is None,
        unsigned(seq!['+'], max) is None && signed(seq!['-'], min, max) is None,
        !all_digits(s) ==> magnitude(s, max) is None,
{
    law_show_reads_back(n);
    let d = show(n);
    let p = seq!['+'] + d;
    let m = seq!['-'] + d;
    assert(p[0] == '+' && p.skip(1) =~= d);
    assert(m[0] == '-' && m.skip(1) =~= d);
    assert(is_digit(d[0]));
    assert(!is_digit('-') && !is_digit('+'));
    assert(!all_digits(m)) by {
        assert(!is_digit(m[0]));
    }
    assert(seq!['+'].skip(1).len() == 0);
    assert(seq!['-'].skip(1).len() == 0);
}

// --- colours ----------------------------------------------------------------------------

/// The sixteen digits of a colour; letters count the same in either case.
pub proof fn law_hex()
    ensures
        hex_value('0') == Some(0int) && hex_value('9') == Some(9int),
        hex_value('a') == Some(10int) && hex_value('b') == Some(11int) && hex_value('c') == Some(12int),
        hex_value('d') == Some(13int) && hex_value('e') == Some(14int) && hex_value('f') == Some(15int),
        hex_value('A') == Some(10int) && hex_value('B') == Some(11int) && hex_value('C') == Some(12int),
        hex_value('D') == Some(13int) && hex_value('E') == Some(14int) && hex_value('F') == Some(15int),
        hex_value('g') is None && hex_value('G') is None && hex_value('#') is None,
{
}

proof fn lemma_plain(t: Text)
    requires
        t.len() > 0,
        t[0] != '#',
    ensures
        trim_start(t, Class::Is('#')) == t,
        trim_start(seq!['#'] + t, Class::Is('#')) == t,
{
    let s = seq!['#'] + t;
    assert(s[0] == '#');
    assert(s.drop_first() =~= t);
    reveal_with_fuel(trim_start, 3);
}

/// A colour is red, green and blue, two digits each, and then its opacity, which is full
/// where it is not given; with a `#` before it or without.
pub proof fn law_color_read(t: Text, r: u8, g: u8, b: u8, a: u8)
    requires
        t.len() == 8,
        t[0] != '#',
        hex_pair(t[0], t[1]) == Some(r as int),
        hex_pair(t[2], t[3]) == Some(g as int),
        hex_pair(t[4], t[5]) == Some(b as int),
        hex_pair(t[6], t[7]) == Some(a as int),
    ensures
        color_text(t) == Some((r, g, b, a)),
        color_text(seq!['#'] + t) == Some((r, g, b, a)),
        color_text(t.take(6)) == Some((r, g, b, 0xffu8)),
        color_text(seq!['#'] + t.take(6)) == Some((r, g, b, 0xffu8)),
        color_text(t.take(7)) is None,
        color_text(t.take(3)) is None,
{
    lemma_plain(t);
    lemma_plain(t.take(6));
    lemma_plain(t.take(7));
    lemma_plain(t.take(3));
}

/// The first of two digits counts sixteen times what the second does.
pub proof fn law_hex_pair(x: char, y: char)
    requires
        hex_value(x) is Some,
        hex_value(y) is Some,
    ensures
        hex_pair(x, y) == Some(16 * hex_value(x)->0 + hex_value(y)->0),
        0 <= hex_pair(x, y)->0 <= 255,
{
}

// --- strength ---------------------------------------------------------------------------

/// A colour that was weakened by its opacity gets its strength back, to the nearest step,
/// and no more than there is.
pub proof fn law_strengthened(c: int, a: int)
    requires
        0 <= c <= 255,
        0 < a <= 255,
    ensures
        c <= strengthened(c, a) <= 255 || strengthened(c, a) == 255,
        a == 255 ==> strengthened(c, a) == c,
        strengthened(0, a) == 0,
        c <= a ==> -a <= 2 * (strengthened(c, a) * a - c * 255) <= a,
        c >= a ==> strengthened(c, a) == 255,
{
    let n = c * 255 + a / 2;
    let v = n / a;
    assert(v * a <= n < v * a + a) by (nonlinear_arith)
        requires
            a > 0,
            v == n / a,
    ;
    if c >= a {
        assert(255 * a <= n);
        assert(v >= 255) by (nonlinear_arith)
            requires
                255 * a <= n < v * a + a,
                a > 0,
        ;
    } else {
        assert(v <= 255) by (nonlinear_arith)
            requires
                v * a <= n,
                n < 255 * a + a,
                a > 0,
        ;
    }
    if c == a {
        assert(v <= 255) by (nonlinear_arith)
            requires
                v * a <= n,
                n < 255 * a + a,
                a > 0,
        ;
    }
    assert((a / 2) / a == 0) by (nonlinear_arith)
        requires
            a > 0,
    ;
    if v <= 255 {
        assert(c <= v) by (nonlinear_arith)
            requires
                c * 255 <= n < v * a + a,
                0 <= c <= 255,
                0 < a <= 255,
                n >= c * 255,
        ;
    }
}

/// A picture that is taken over has its colours in the other order; its opacity stays, and so
/// does a pixel that is not seen.
pub proof fn law_taken_over(buf: Seq<u8>, p: int)
    requires
        0 <= p,
        4 * p + 3 < buf.len(),
    ensures
        ({
            let out = unpremultiplied(buf);
            &&& out.len() == buf.len()
            &&& out[4 * p + 3] == buf[4 * p + 3]
            &&& buf[4 * p + 3] == 255 ==> out[4 * p] == buf[4 * p + 2] && out[4 * p + 1] == buf[4 * p + 1] && out[4 * p + 2]
                == buf[4 * p]
            &&& buf[4 * p + 3] == 0 ==> out[4 * p] == buf[4 * p] && out[4 * p + 1] == buf[4 * p + 1] && out[4 * p + 2]
                == buf[4 * p + 2]
        }),
{
    let out = unpremultiplied(buf);
    assert((4 * p) / 4 == p && (4 * p) % 4 == 0);
    assert((4 * p + 1) / 4 == p && (4 * p + 1) % 4 == 1);
    assert((4 * p + 2) / 4 == p && (4 * p + 2) % 4 == 2);
    assert((4 * p + 3) / 4 == p && (4 * p + 3) % 4 == 3);
    if buf[4 * p + 3] == 255 {
        law_strengthened(buf[4 * p] as int, 255);
        law_strengthened(buf[4 * p + 1] as int, 255);
        law_strengthened(buf[4 * p + 2] as int, 255);
    }
}

// --- shares -----------------------------------------------------------------------------

/// A share is between a twentieth and nineteen twentieths, as near as doubles come to them;
/// what is between them it keeps, and what is no number is a half.
pub proof fn law_share_held(d: Double)
    ensures
        -20 <= 20 * clamped(d).units - ONE,
        20 * clamped(d).units - 19 * ONE <= 20,
        d is Nan ==> 2 * clamped(d).units == ONE,
        d is Mag && d->neg ==> 20 * clamped(d).units - ONE <= 20,
        d is Mag && !d->neg && 100 * d->units < 4 * WHOLE ==> 20 * clamped(d).units - ONE <= 20,
        d is Mag && !d->neg && 100 * d->units > 96 * WHOLE ==> -200 <= 20 * clamped(d).units - 19 * ONE,
        d is Mag && !d->neg && 6 * WHOLE <= 100 * d->units <= 94 * WHOLE ==> clamped(d).units * FINE <= d->units
            && d->units < (clamped(d).units + 1) * FINE,
        ONE * FINE == WHOLE,
{
}

// --- numbers with a point ---------------------------------------------------------------

proof fn lemma_not_word(s: Text)
    requires
        s.len() > 0,
        is_digit(s[0]) || s[0] == '.',
    ensures
        lower(s) != "nan"@,
        lower(s) != "inf"@,
        lower(s) != "infinity"@,
{
    reveal_strlit("nan");
    reveal_strlit("inf");
    reveal_strlit("infinity");
    assert("nan"@[0] == 'n' && "inf"@[0] == 'i' && "infinity"@[0] == 'i');
    assert(lower(s)[0] == crate::text::lower_char(s[0]));
    assert(crate::text::lower_char(s[0]) == s[0]);
}

/// Digits with a point among them write the number of the digits, one tenth of it for each
/// that stands behind the point; a minus before them changes nothing but the sign.
pub proof fn law_written(a: Text, b: Text)
    requires
        a.len() > 0,
        all_digits(a),
        all_digits(b),
    ensures
        written(a + seq!['.'] + b) == Some(Written::Decimal { neg: false, digits: a + b, exp: -b.len() }),
        written(seq!['-'] + (a + seq!['.'] + b)) == Some(Written::Decimal { neg: true, digits: a + b, exp: -b.len() }),
        written(seq!['+'] + (a + seq!['.'] + b)) == Some(Written::Decimal { neg: false, digits: a + b, exp: -b.len() }),
{
    let s = a + seq!['.'] + b;
    let n = a.len() as int;
    assert(is_digit(a[0]));
    assert(s[0] == a[0]);
    assert(!Class::Sign.has(s[0]));
    lemma_not_word(s);
    assert forall|j: int| 0 <= j < s.len() implies !Class::Exponent.has(#[trigger] s[j]) by {
        if j < n {
            assert(is_digit(a[j]));
        } else if j > n {
            assert(is_digit(b[j - n - 1]));
        }
    }
    lemma_position_is(s, Class::Exponent, s.len() as int);
    assert forall|j: int| 0 <= j < n implies !Class::Is('.').has(#[trigger] s[j]) by {
        assert(is_digit(a[j]));
    }
    lemma_position_is(s, Class::Is('.'), n);
    assert(s.take(n) =~= a);
    assert(s.skip(n + 1) =~= b);
    let m = seq!['-'] + s;
    let p = seq!['+'] + s;
    assert(m[0] == '-' && m.skip(1) =~= s);
    assert(p[0] == '+' && p.skip(1) =~= s);
}

/// From one on a number is held at one, whichever way it is written.
pub proof fn law_held_at_one(d: nat, k: nat)
    requires
        d >= pow10(k),
    ensures
        units_of(d, -(k as int)) == WHOLE,
        d >= 1 ==> units_of(d, k as int) == WHOLE,
{
    crate::double::lemma_pow10_positive(k);
    assert(top(d, -(k as int)) >= bottom(-(k as int)));
    if d >= 1 {
        assert(d * pow10(k) >= 1) by (nonlinear_arith)
            requires
                d >= 1,
                pow10(k) >= 1,
        ;
    }
}

} // verus!
