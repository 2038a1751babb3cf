//! Decimal fractions in text, read to the nearest double.

use vstd::prelude::*;
use vstd::arithmetic::power2::pow2;
use crate::number::{all_digits, decimal, digit_value, is_digit, show};
use crate::ratio::{
    find_step, last_digits, nearest, nearest_whole, round_half_even, show_parts, show_ratio, step_at,
    Ratio, HALF, LEAST, MOST, ONE,
};
use crate::text::{chars_of, find_from, lower, position, same, string_of, lowered, Class, Text};

verus! {

/// One, in units of 2^-111.
pub const WHOLE: u128 = 2596148429267413814265248164610048;

/// How many units of 2^-111 make one of 2^-57.
pub const FINE: u128 = 18014398509481984;

/// A double read from text. Its size is counted in units of 2^-111 and held at
/// one: nothing here tells larger numbers apart. One unit stands for any smaller size
/// but zero.
#[derive(Clone, Copy, Debug, PartialEq, Eq, Structural)]
pub enum Double {
    Nan,
    Mag { neg: bool, units: u128 },
}

impl Double {
    /// The size is held at one.
    pub open spec fn wf(self) -> bool {
        match self {
            Double::Nan => true,
            Double::Mag { neg, units } => units <= 2 * WHOLE,
        }
    }
}

/// What a text says that writes a number: `digits` read as a whole number, times
/// ten to the `exp`; or one of the two words.
pub ghost enum Written {
    Nan,
    Infinite { neg: bool },
    Decimal { neg: bool, digits: Text, exp: int },
}

/// Ten to the `n`.
pub open spec fn pow10(n: nat) -> nat
    decreases n,
{
    if n == 0 {
        1
    } else {
        10 * pow10((n - 1) as nat)
    }
}

/// An exponent: digits, with or without a sign before them.
pub open spec fn exponent(s: Text) -> Option<int> {
    let neg = s.len() > 0 && s[0] == '-';
    let body = if s.len() > 0 && Class::Sign.has(s[0]) {
        s.skip(1)
    } else {
        s
    };
    if body.len() > 0 && all_digits(body) {
        Some(if neg { -(decimal(body) as int) } else { decimal(body) as int })
    } else {
        None
    }
}

/// Digits, perhaps with a point among or beside them.
pub open spec fn mantissa(neg: bool, s: Text, exp: int) -> Option<Written> {
    let d = position(s, Class::Is('.'));
    let whole = s.take(d);
    let part = if d < s.len() {
        s.skip(d + 1)
    } else {
        Seq::<char>::empty()
    };
    if all_digits(whole) && all_digits(part) && whole.len() + part.len() > 0 {
        Some(Written::Decimal { neg, digits: whole + part, exp: exp - part.len() })
    } else {
        None
    }
}

/// What a number's text says, its sign apart.
pub open spec fn unsigned_text(neg: bool, s: Text) -> Option<Written> {
    if lower(s) == "nan"@ {
        Some(Written::Nan)
    } else if lower(s) == "inf"@ || lower(s) == "infinity"@ {
        Some(Written::Infinite { neg })
    } else {
        let e = position(s, Class::Exponent);
        if e >= s.len() {
            mantissa(neg, s, 0)
        } else {
            match exponent(s.skip(e + 1)) {
                Some(x) => mantissa(neg, s.take(e), x),
                None => None,
            }
        }
    }
}

/// What a text says that writes a number.
pub open spec fn written(s: Text) -> Option<Written> {
    if s.len() > 0 && Class::Sign.has(s[0]) {
        unsigned_text(s[0] == '-', s.skip(1))
    } else {
        unsigned_text(false, s)
    }
}

/// `d` times ten to the `exp` is this number divided by `bottom(exp)`.
pub open spec fn top(d: nat, exp: int) -> nat {
    if exp >= 0 {
        d * pow10(exp as nat)
    } else {
        d
    }
}

/// What `top` is divided by.
pub open spec fn bottom(exp: int) -> nat {
    if exp >= 0 {
        1
    } else {
        pow10((-exp) as nat)
    }
}

/// Whether the double nearest to `d` times ten to the `exp` is not zero: whether the
/// number is more than half of the least double, which is 2^-1074.
pub open spec fn above_zero(d: nat, exp: int) -> bool {
    top(d, exp) * pow2(1075) > bottom(exp)
}

/// `d` times ten to the `exp` as the nearest double, in units of 2^-111, held at
/// one. What is less than a unit but not zero counts as one.
pub open spec fn units_of(d: nat, exp: int) -> nat {
    if top(d, exp) >= bottom(exp) {
        WHOLE as nat
    } else {
        let n = nearest(top(d, exp) * WHOLE as nat, bottom(exp));
        if n == 0 && above_zero(d, exp) {
            1
        } else {
            n
        }
    }
}

/// How many units of 2^-111 there are in full in `d` times ten to the `exp`, held at
/// one.
pub open spec fn full_units(d: nat, exp: int) -> nat {
    if top(d, exp) >= bottom(exp) {
        WHOLE as nat
    } else {
        top(d, exp) * WHOLE as nat / bottom(exp)
    }
}

/// The double that a number in text stands for.
pub open spec fn double_of(w: Written) -> Double {
    match w {
        Written::Nan => Double::Nan,
        Written::Infinite { neg } => Double::Mag { neg, units: WHOLE },
        Written::Decimal { neg, digits, exp } => Double::Mag {
            neg,
            units: units_of(decimal(digits), exp) as u128,
        },
    }
}

/// How many units there are in full in a number in text, its sign apart.
pub open spec fn full_of(w: Written) -> nat {
    match w {
        Written::Nan => 0,
        Written::Infinite { neg } => WHOLE as nat,
        Written::Decimal { neg, digits, exp } => full_units(decimal(digits), exp),
    }
}

/// Whether a text writes a number of at least so many units of 2^-111, exactly.
pub open spec fn writes_at_least(s: Text, units: u128) -> bool {
    match written(s) {
        Some(Written::Infinite { neg }) => !neg,
        Some(Written::Decimal { neg, digits, exp }) => !neg && top(decimal(digits), exp) * WHOLE
            >= units * bottom(exp),
        _ => false,
    }
}

/// The double that a text stands for, where it writes a number.
pub open spec fn double_text(s: Text) -> Option<Double> {
    match written(s) {
        Some(w) => Some(double_of(w)),
        None => None,
    }
}

pub proof fn lemma_pow10_positive(n: nat)
    ensures
        pow10(n) > 0,
    decreases n,
{
    if n > 0 {
        lemma_pow10_positive((n - 1) as nat);
    }
}

proof fn lemma_pow10_mono(a: nat, b: nat)
    requires
        a <= b,
    ensures
        pow10(a) <= pow10(b),
    decreases b,
{
    if a < b {
        lemma_pow10_mono(a, (b - 1) as nat);
        lemma_pow10_positive((b - 1) as nat);
    }
}

proof fn lemma_pow10_plus(a: nat, b: nat)
    ensures
        pow10(a + b) == pow10(a) * pow10(b),
    decreases b,
{
    if b > 0 {
        lemma_pow10_plus(a, (b - 1) as nat);
        assert(pow10(a) * (10 * pow10((b - 1) as nat)) == 10 * (pow10(a) * pow10((b - 1) as nat)))
            by (nonlinear_arith);
    } else {
        assert(pow10(a) * 1 == pow10(a));
    }
}

// --- digits, the lowest first ---------------------------------------------------

/// The number that digits write, the lowest first.
spec fn value_le(s: Seq<u8>) -> nat
    decreases s.len(),
{
    if s.len() == 0 {
        0
    } else {
        value_le(s.drop_last()) + s.last() as nat * pow10((s.len() - 1) as nat)
    }
}

spec fn digits_le(s: Seq<u8>) -> bool {
    forall|i: int| 0 <= i < s.len() ==> #[trigger] s[i] <= 9
}

proof fn lemma_value_bound(s: Seq<u8>)
    requires
        digits_le(s),
    ensures
        value_le(s) < pow10(s.len()),
    decreases s.len(),
{
    if s.len() > 0 {
        assert(digits_le(s.drop_last())) by {
            assert forall|i: int| 0 <= i < s.len() - 1 implies #[trigger] s.drop_last()[i] <= 9 by {
                assert(s[i] <= 9);
            }
        }
        lemma_value_bound(s.drop_last());
        let p = pow10((s.len() - 1) as nat);
        assert(s.last() <= 9);
        assert(s.last() as nat * p <= 9 * p) by (nonlinear_arith)
            requires
                s.last() <= 9,
        ;
    }
}

proof fn lemma_value_zero(s: Seq<u8>)
    ensures
        value_le(s) == 0 <==> (forall|i: int| 0 <= i < s.len() ==> #[trigger] s[i] == 0),
    decreases s.len(),
{
    if s.len() > 0 {
        let t = s.drop_last();
        lemma_value_zero(t);
        lemma_pow10_positive((s.len() - 1) as nat);
        let p = pow10((s.len() - 1) as nat);
        if s.last() == 0 {
            assert(s.last() as nat * p == 0) by (nonlinear_arith)
                requires
                    s.last() == 0,
            ;
            assert forall|i: int| value_le(s) == 0 && 0 <= i < s.len() implies #[trigger] s[i] == 0 by {
                if i < s.len() - 1 {
                    assert(t[i] == s[i]);
                }
            }
            if forall|i: int| 0 <= i < s.len() ==> #[trigger] s[i] == 0 {
                assert forall|i: int| 0 <= i < t.len() implies #[trigger] t[i] == 0 by {
                    assert(t[i] == s[i]);
                }
            }
        } else {
            assert(s.last() as nat * p > 0) by (nonlinear_arith)
                requires
                    s.last() > 0,
                    p > 0,
            ;
            assert(s[s.len() - 1] != 0);
        }
    }
}

/// Doubles the number that the digits write; returns what no longer fits.
fn twice(f: &mut Vec<u8>) -> (bit: u8)
    requires
        digits_le(old(f)@),
    ensures
        final(f)@.len() == old(f)@.len(),
        digits_le(final(f)@),
        bit <= 1,
        value_le(final(f)@) + bit as nat * pow10(old(f)@.len()) == 2 * value_le(old(f)@),
{
    let ghost src = f@;
    let mut carry: u8 = 0;
    let mut i: usize = 0;
    assert(f@.take(0) =~= Seq::<u8>::empty());
    assert(src.take(0) =~= Seq::<u8>::empty());
    assert(0nat * pow10(0) == 0);
    while i < f.len()
        invariant
            i <= f@.len() == src.len(),
            digits_le(src),
            digits_le(f@),
            carry <= 1,
            forall|j: int| i <= j < f@.len() ==> f@[j] == src[j],
            value_le(f@.take(i as int)) + carry as nat * pow10(i as nat) == 2 * value_le(
                src.take(i as int),
            ),
        decreases f@.len() - i,
    {
        let ghost before = f@;
        let d: u8 = f[i];
        assert(d <= 9);
        let t: u8 = 2 * d + carry;
        let low: u8 = if t >= 10 { t - 10 } else { t };
        let up: u8 = if t >= 10 { 1 } else { 0 };
        f.set(i, low);
        proof {
            let p = pow10(i as nat);
            assert(f@.take(i + 1).drop_last() =~= before.take(i as int));
            assert(src.take(i + 1).drop_last() =~= src.take(i as int));
            assert(low as nat * p + up as nat * (10 * p) == 2 * (d as nat * p) + carry as nat * p)
                by (nonlinear_arith)
                requires
                    low + 10 * up == 2 * d + carry,
            ;
        }
        carry = up;
        i += 1;
    }
    assert(f@.take(i as int) =~= f@);
    assert(src.take(i as int) =~= src);
    carry
}

/// Whether every digit is zero.
fn is_zero(f: &Vec<u8>) -> (r: bool)
    ensures
        r == (value_le(f@) == 0),
{
    let mut i: usize = 0;
    while i < f.len()
        invariant
            i <= f@.len(),
            forall|j: int| 0 <= j < i ==> #[trigger] f@[j] == 0,
        decreases f@.len() - i,
    {
        if f[i] != 0 {
            proof {
                lemma_value_zero(f@);
                assert(f@[i as int] != 0);
            }
            return false;
        }
        i += 1;
    }
    proof {
        lemma_value_zero(f@);
    }
    true
}

proof fn lemma_div_mod(a: nat, q: nat, n: nat, f: nat)
    requires
        a == n * q + f,
        f < q,
    ensures
        a / q == n,
        a % q == f,
{
    vstd::arithmetic::div_mod::lemma_fundamental_div_mod_converse(a as int, q as int, n as int, f as int);
}

/// The fraction that the digits write below the point, as the nearest double, and in
/// full units.
fn nearest_fraction(start: Vec<u8>) -> (r: (u128, u128))
    requires
        digits_le(start@),
    ensures
        r.0 == nearest(value_le(start@) * WHOLE as nat, pow10(start@.len())),
        r.0 <= WHOLE * 2,
        r.1 == value_le(start@) * WHOLE as nat / pow10(start@.len()),
{
    let ghost q = pow10(start@.len());
    let ghost d = value_le(start@);
    let mut f = start;
    let mut n: u128 = 0;
    let mut bound: u128 = 1;
    let mut j: u32 = 0;
    proof {
        lemma_value_bound(start@);
        assert(d * 1 == 0 * q + d);
    }
    assert(1u128 << 0u32 == 1) by (bit_vector);
    while j < 111
        invariant
            j <= 111,
            bound == 1u128 << j,
            n < bound,
            digits_le(f@),
            f@.len() == start@.len(),
            q == pow10(start@.len()),
            d * bound as nat == n as nat * q + value_le(f@),
        decreases 111 - j,
    {
        assert(bound <= 0x4000_0000_0000_0000_0000_0000_0000) by (bit_vector)
            requires
                bound == 1u128 << j,
                j < 111,
        ;
        assert(1u128 << ((j + 1) as u32) == 2 * bound) by (bit_vector)
            requires
                bound == 1u128 << j,
                j < 111,
        ;
        let ghost before = value_le(f@);
        let bit: u8 = twice(&mut f);
        proof {
            let after = value_le(f@);
            assert(d * (2 * bound as nat) == (2 * n as nat + bit as nat) * q + after)
                by (nonlinear_arith)
                requires
                    d * bound as nat == n as nat * q + before,
                    after + bit as nat * q == 2 * before,
            ;
        }
        n = 2 * n + bit as u128;
        bound = 2 * bound;
        j += 1;
    }
    assert(1u128 << 111u32 == 2596148429267413814265248164610048u128) by (bit_vector);
    assert(bound == WHOLE);
    let ghost fr = value_le(f@);
    let ghost a = d * WHOLE as nat;
    proof {
        lemma_value_bound(f@);
        lemma_div_mod(a, q, n as nat, fr);
    }
    let u: u128 = find_step(n);
    let k: u128 = n / u;
    let m: u128 = n % u;
    let ghost qu = q * u as nat;
    proof {
        assert(n == k * u + m && m < u) by (nonlinear_arith)
            requires
                u >= 1,
                k == n / u,
                m == n % u,
        ;
        assert(a == k as nat * qu + (m as nat * q + fr)) by (nonlinear_arith)
            requires
                a == n as nat * q + fr,
                n == k * u + m,
                qu == q * u as nat,
        ;
        assert(m as nat * q + fr < qu) by (nonlinear_arith)
            requires
                m + 1 <= u,
                fr < q,
                qu == q * u as nat,
        ;
        lemma_div_mod(a, qu, k as nat, m as nat * q + fr);
    }
    let ghost rem = m as nat * q + fr;
    assert((k + 1) * u == k * u + u) by (nonlinear_arith);
    assert(u <= WHOLE) by (nonlinear_arith)
        requires
            u == 1 || u * 0x10_0000_0000_0000 <= n,
            n < WHOLE,
            WHOLE == 2596148429267413814265248164610048,
    ;
    let up: bool = if u == 1 {
        let bit: u8 = twice(&mut f);
        let rest_zero: bool = is_zero(&f);
        proof {
            assert(m == 0);
            assert(qu == q) by (nonlinear_arith)
                requires
                    qu == q * u as nat,
                    u == 1,
            ;
            assert(rem == fr) by (nonlinear_arith)
                requires
                    rem == m as nat * q + fr,
                    m == 0,
            ;
            lemma_value_bound(f@);
            assert(bit as nat * q == if bit == 1 { q } else { 0 }) by (nonlinear_arith)
                requires
                    bit <= 1,
            ;
        }
        bit == 1 && (!rest_zero || k % 2 == 1)
    } else {
        let h: u128 = u / 2;
        let rest_zero: bool = is_zero(&f);
        proof {
            assert(2 * h == u);
            assert(m < h ==> 2 * rem < qu) by (nonlinear_arith)
                requires
                    rem == m as nat * q + fr,
                    fr < q,
                    qu == q * u as nat,
                    2 * h == u,
            ;
            assert(m > h ==> 2 * rem > qu) by (nonlinear_arith)
                requires
                    rem == m as nat * q + fr,
                    q > 0,
                    qu == q * u as nat,
                    2 * h == u,
            ;
            assert(m == h ==> 2 * rem == qu + 2 * fr) by (nonlinear_arith)
                requires
                    rem == m as nat * q + fr,
                    qu == q * u as nat,
                    2 * h == u,
            ;
        }
        m > h || (m == h && (!rest_zero || k % 2 == 1))
    };
    assert(up == !(2 * rem < qu || (2 * rem == qu && k % 2 == 0)));
    if up {
        ((k + 1) * u, n)
    } else {
        (k * u, n)
    }
}

/// Whether the double nearest to the fraction that the digits write is not zero.
fn is_above_zero(start: Vec<u8>) -> (r: bool)
    requires
        digits_le(start@),
    ensures
        r == (value_le(start@) * pow2(1075) > pow10(start@.len())),
{
    let ghost q = pow10(start@.len());
    let ghost d = value_le(start@);
    let mut f = start;
    let mut j: u32 = 0;
    proof {
        lemma_value_bound(start@);
        vstd::arithmetic::power2::lemma2_to64();
        assert(d * 1 == d);
    }
    while j < 1075
        invariant
            j <= 1075,
            digits_le(f@),
            f@.len() == start@.len(),
            q == pow10(start@.len()),
            d == value_le(start@),
            d * pow2(j as nat) == value_le(f@),
            value_le(f@) < q,
        decreases 1075 - j,
    {
        let ghost before = value_le(f@);
        let bit: u8 = twice(&mut f);
        j += 1;
        proof {
            vstd::arithmetic::power2::lemma_pow2_unfold(j as nat);
            let h = pow2((j - 1) as nat);
            assert(d * (2 * h) == 2 * (d * h)) by (nonlinear_arith);
            lemma_value_bound(f@);
            assert(bit as nat * q == if bit == 1 { q } else { 0 }) by (nonlinear_arith)
                requires
                    bit <= 1,
            ;
        }
        if bit == 1 {
            let more: bool = j < 1075 || !is_zero(&f);
            proof {
                if j < 1075 {
                    let k = (1075 - j) as nat;
                    vstd::arithmetic::power2::lemma_pow2_adds(j as nat, k);
                    vstd::arithmetic::power2::lemma_pow2_unfold(k);
                    vstd::arithmetic::power2::lemma_pow2_pos((k - 1) as nat);
                    assert(d * (pow2(j as nat) * pow2(k)) > q) by (nonlinear_arith)
                        requires
                            d * pow2(j as nat) >= q,
                            q > 0,
                            pow2(k) >= 2,
                    ;
                }
            }
            return more;
        }
    }
    false
}

// --- reading -------------------------------------------------------------------

proof fn lemma_skip_zeros(s: Text, z: int)
    requires
        0 <= z <= s.len(),
        forall|i: int| 0 <= i < z ==> digit_value(#[trigger] s[i]) == 0,
    ensures
        decimal(s.skip(z)) == decimal(s),
    decreases s.len(),
{
    if s.len() > z {
        let t = s.drop_last();
        assert forall|i: int| 0 <= i < z implies digit_value(#[trigger] t[i]) == 0 by {
            assert(digit_value(s[i]) == 0);
        }
        lemma_skip_zeros(t, z);
        assert(s.skip(z).drop_last() =~= t.skip(z));
        assert(s.skip(z).last() == s.last());
    } else if s.len() > 0 {
        let t = s.drop_last();
        assert forall|i: int| 0 <= i < z - 1 implies digit_value(#[trigger] t[i]) == 0 by {
            assert(digit_value(s[i]) == 0);
        }
        lemma_skip_zeros(t, z - 1);
        assert(t.skip(z - 1) =~= Seq::<char>::empty());
        assert(s.skip(z) =~= Seq::<char>::empty());
        assert(s.last() == s[z - 1]);
    }
}

proof fn lemma_decimal_bounds(s: Text)
    requires
        all_digits(s),
    ensures
        decimal(s) < pow10(s.len()),
        s.len() > 0 && digit_value(s[0]) != 0 ==> decimal(s) >= pow10((s.len() - 1) as nat),
    decreases s.len(),
{
    if s.len() > 0 {
        let t = s.drop_last();
        assert forall|i: int| 0 <= i < t.len() implies is_digit(#[trigger] t[i]) by {
            assert(is_digit(s[i]));
        }
        lemma_decimal_bounds(t);
        assert(is_digit(s.last()));
        if s.len() == 1 {
            assert(decimal(t) == 0);
            assert(is_digit(s[0]));
            assert(pow10(1) == 10 * pow10(0));
        } else {
            assert(t[0] == s[0]);
        }
    }
}

/// The digits of the text from `from` up to `to`, the lowest first.
fn lowest_first(v: &Vec<char>, from: usize) -> (r: Vec<u8>)
    requires
        from <= v@.len(),
        all_digits(v@.skip(from as int)),
    ensures
        r@.len() == v@.len() - from,
        digits_le(r@),
        value_le(r@) == decimal(v@.skip(from as int)),
{
    let ghost s = v@.skip(from as int);
    let mut r: Vec<u8> = Vec::new();
    let mut i: usize = v.len();
    assert(s.take(s.len() as int) =~= s);
    assert(decimal(s.take(s.len() as int)) * pow10(0) == decimal(s)) by (nonlinear_arith)
        requires
            s.take(s.len() as int) == s,
            pow10(0) == 1,
    ;
    while i > from
        invariant
            from <= i <= v@.len(),
            s == v@.skip(from as int),
            all_digits(s),
            r@.len() == v@.len() - i,
            digits_le(r@),
            value_le(r@) + decimal(s.take(i - from)) * pow10((v@.len() - i) as nat) == decimal(s),
        decreases i,
    {
        i -= 1;
        let c: char = v[i];
        assert(is_digit(s[i - from]));
        let d: u8 = (c as u32 - 48) as u8;
        let ghost before = r@;
        r.push(d);
        proof {
            let p = pow10(before.len());
            let t = s.take(i - from + 1);
            assert(t.drop_last() =~= s.take(i - from));
            assert(r@.drop_last() =~= before);
            let hi = decimal(s.take(i - from));
            assert(decimal(t) == hi * 10 + d as nat);
            assert((hi * 10 + d as nat) * p == d as nat * p + hi * (10 * p)) by (nonlinear_arith);
            assert(pow10(before.len() + 1) == 10 * p);
        }
    }
    assert(s.take(0) =~= Seq::<char>::empty());
    assert(decimal(s.take(0)) * pow10((v@.len() - from) as nat) == 0) by (nonlinear_arith)
        requires
            decimal(s.take(0)) == 0,
    ;
    r
}

proof fn lemma_nearest_zero(a: nat, q: nat)
    requires
        2 * a < q,
    ensures
        nearest(a, q) == 0,
{
    lemma_div_mod(a, q, 0, a);
    assert(step_at(0) == 1);
    assert(q * 1 == q);
    assert(round_half_even(a, q) == 0);
}

/// The digits of `v` from `z` on, the lowest first, with as many zeros above them as
/// `place` is below zero.
fn padded(v: &Vec<char>, z: usize, place: i128) -> (r: Vec<u8>)
    requires
        z <= v@.len(),
        all_digits(v@.skip(z as int)),
        -400 < place <= 0,
    ensures
        digits_le(r@),
        value_le(r@) == decimal(v@.skip(z as int)),
        r@.len() == v@.len() - z - place,
{
    let ghost d = decimal(v@.skip(z as int));
    let mut le = lowest_first(v, z);
    let mut pad: i128 = place;
    while pad < 0
        invariant
            -400 <= pad <= 0,
            place <= pad,
            digits_le(le@),
            value_le(le@) == d,
            le@.len() == v@.len() - z + (pad - place),
        decreases -pad,
    {
        let ghost before = le@;
        le.push(0);
        proof {
            assert(le@.drop_last() =~= before);
            assert(0nat * pow10(before.len()) == 0);
        }
        pad += 1;
    }
    le
}

/// The digits of `v`, read as a whole number, times ten to the `point` less their
/// count: as the nearest double, and in full units.
fn read_units(v: &Vec<char>, point: i128) -> (r: (u128, u128))
    requires
        all_digits(v@),
        -0x4000_0000_0000_0000_0000_0000_0000_0000 < point < 0x4000_0000_0000_0000_0000_0000_0000_0000,
    ensures
        r.0 == units_of(decimal(v@), point - v@.len()),
        r.0 <= 2 * WHOLE,
        r.1 == full_units(decimal(v@), point - v@.len()),
{
    let mut z: usize = 0;
    while z < v.len() && v[z] as u32 == 48
        invariant
            z <= v@.len(),
            forall|i: int| 0 <= i < z ==> digit_value(#[trigger] v@[i]) == 0,
        decreases v@.len() - z,
    {
        z += 1;
    }
    let ghost d = decimal(v@);
    let ghost exp = point - v@.len();
    let ghost t = v@.skip(z as int);
    proof {
        lemma_skip_zeros(v@, z as int);
        assert forall|i: int| 0 <= i < t.len() implies is_digit(#[trigger] t[i]) by {
            assert(is_digit(v@[i + z]));
        }
        lemma_decimal_bounds(t);
        if exp < 0 {
            lemma_pow10_positive((-exp) as nat);
        } else {
            lemma_pow10_positive(exp as nat);
        }
    }
    if z == v.len() {
        proof {
            assert(d == 0);
            lemma_units_zero(exp);
        }
        return (0, 0);
    }
    let place: i128 = point - z as i128;
    assert(digit_value(v@[z as int]) != 0 && t[0] == v@[z as int]);
    if place >= 1 {
        proof {
            if exp >= 0 {
                assert(d * pow10(exp as nat) >= 1) by (nonlinear_arith)
                    requires
                        d >= 1,
                        pow10(exp as nat) >= 1,
                ;
            } else {
                lemma_pow10_mono((-exp) as nat, (t.len() - 1) as nat);
            }
        }
        return (WHOLE, WHOLE);
    }
    assert(exp < 0);
    if place <= -400 {
        proof {
            lemma_units_small(t, exp);
        }
        return (0, 0);
    }
    let digits = padded(v, z, place);
    proof {
        assert(digits@.len() == -exp);
        lemma_value_bound(digits@);
    }
    let (n, full) = nearest_fraction(digits);
    if n == 0 && is_above_zero(padded(v, z, place)) {
        (1, full)
    } else {
        (n, full)
    }
}

/// Ten to the ten times `m` is more than two to the 33 times `m`, or as much.
proof fn lemma_ten_two(m: nat)
    ensures
        pow10(10 * m) >= pow2(33 * m),
    decreases m,
{
    if m == 0 {
        vstd::arithmetic::power2::lemma2_to64();
    } else {
        let k = (m - 1) as nat;
        lemma_ten_two(k);
        lemma_pow10_plus(10 * k, 10);
        reveal_with_fuel(pow10, 11);
        vstd::arithmetic::power2::lemma_pow2_adds(33 * k, 33);
        vstd::arithmetic::power2::lemma2_to64();
        vstd::arithmetic::power2::lemma2_to64_rest();
        assert(pow10(10) == 10000000000);
        assert(pow2(33) == 0x2_0000_0000);
        let (a, b) = (pow10(10 * k), pow2(33 * k));
        assert(a * 10000000000 >= b * 0x2_0000_0000) by (nonlinear_arith)
            requires
                a >= b,
        ;
    }
}

proof fn lemma_four_hundred()
    ensures
        pow10(400) > 2 * WHOLE as nat,
        pow10(400) >= pow2(1075),
{
    lemma_ten_two(40);
    vstd::arithmetic::power2::lemma_pow2_strictly_increases(1075, 1320);
    vstd::arithmetic::power2::lemma_pow2_strictly_increases(120, 1320);
    vstd::arithmetic::power2::lemma_pow2_adds(60, 60);
    vstd::arithmetic::power2::lemma2_to64();
    vstd::arithmetic::power2::lemma2_to64_rest();
    assert(pow2(60) == 0x1000_0000_0000_0000);
    assert(pow2(120) == 0x1000_0000_0000_0000 * 0x1000_0000_0000_0000);
}

/// Reads an exponent, held at 10^20 on both sides.
fn read_exponent(v: &Vec<char>, from: usize) -> (r: Option<i128>)
    requires
        from <= v@.len(),
    ensures
        r is Some <==> exponent(v@.skip(from as int)) is Some,
        r is Some ==> {
            let x = exponent(v@.skip(from as int))->0;
            &&& -100000000000000000000 <= r->0 <= 100000000000000000000
            &&& -100000000000000000000 < x < 100000000000000000000 ==> r->0 == x
            &&& x >= 100000000000000000000 ==> r->0 == 100000000000000000000
            &&& x <= -100000000000000000000 ==> r->0 == -100000000000000000000
        },
{
    let ghost s = v@.skip(from as int);
    let neg: bool = from < v.len() && v[from] == '-';
    let start: usize = if from < v.len() && Class::Sign.test(v[from]) { from + 1 } else { from };
    let ghost body = v@.skip(start as int);
    assert(s.len() > 0 && Class::Sign.has(s[0]) ==> s.skip(1) =~= body);
    assert(!(s.len() > 0 && Class::Sign.has(s[0])) ==> s =~= body);
    if start == v.len() {
        return None;
    }
    let mut acc: i128 = 0;
    let mut i: usize = start;
    while i < v.len()
        invariant
            start <= i <= v@.len(),
            s == v@.skip(from as int),
            body == v@.skip(start as int),
            exponent(s) is Some ==> all_digits(body),
            all_digits(body.take(i - start)),
            0 <= acc <= 100000000000000000000,
            decimal(body.take(i - start)) < 100000000000000000000 ==> acc == decimal(
                body.take(i - start),
            ),
            decimal(body.take(i - start)) >= 100000000000000000000 ==> acc == 100000000000000000000,
        decreases v@.len() - i,
    {
        let u: u32 = v[i] as u32;
        assert(body[i - start] == v@[i as int]);
        if u < 48 || u > 57 {
            assert(!is_digit(body[i - start]));
            return None;
        }
        proof {
            assert(body.take(i - start + 1).drop_last() =~= body.take(i - start));
            assert forall|j: int| 0 <= j < i - start + 1 implies is_digit(
                #[trigger] body.take(i - start + 1)[j],
            ) by {
                if j < i - start {
                    assert(body.take(i - start)[j] == body[j]);
                }
            }
        }
        let wide: i128 = acc * 10 + (u - 48) as i128;
        acc = if wide > 100000000000000000000 { 100000000000000000000 } else { wide };
        i += 1;
    }
    assert(body.take(i - start) =~= body);
    if neg {
        Some(-acc)
    } else {
        Some(acc)
    }
}

proof fn lemma_units_zero(exp: int)
    ensures
        units_of(0, exp) == 0,
        full_units(0, exp) == 0,
{
    lemma_pow10_positive(if exp >= 0 { exp as nat } else { (-exp) as nat });
    let q = bottom(exp);
    let p = top(0, exp);
    assert(p == 0 && p * WHOLE as nat == 0 && p * pow2(1075) == 0) by (nonlinear_arith)
        requires
            p == 0 || p == 0 * pow10(exp as nat),
    ;
    lemma_div_mod(0, q, 0, 0);
    lemma_nearest_zero(0, q);
}

proof fn lemma_units_large(d: nat, exp: int)
    requires
        exp >= 0,
    ensures
        units_of(d, exp) == if d == 0 {
            0
        } else {
            WHOLE as nat
        },
        full_units(d, exp) == units_of(d, exp),
{
    lemma_pow10_positive(exp as nat);
    let p = d * pow10(exp as nat);
    if d == 0 {
        lemma_units_zero(exp);
    } else {
        assert(p >= 1) by (nonlinear_arith)
            requires
                p == d * pow10(exp as nat),
                d >= 1,
                pow10(exp as nat) >= 1,
        ;
    }
}

proof fn lemma_units_small(s: Text, exp: int)
    requires
        all_digits(s),
        exp <= -(s.len() + 400),
    ensures
        units_of(decimal(s), exp) == 0,
        full_units(decimal(s), exp) == 0,
{
    let d = decimal(s);
    let q = pow10((-exp) as nat);
    lemma_decimal_bounds(s);
    lemma_pow10_mono((s.len() + 400) as nat, (-exp) as nat);
    lemma_pow10_plus(s.len(), 400);
    lemma_four_hundred();
    let big = pow10(400);
    let two = pow2(1075);
    assert(q > 2 * (d * WHOLE as nat) && q > d && d * two <= q) by (nonlinear_arith)
        requires
            q >= pow10(s.len()) * big,
            d < pow10(s.len()),
            big > 2 * WHOLE as nat,
            big >= two,
            WHOLE >= 1,
    ;
    lemma_nearest_zero(d * WHOLE as nat, q);
    lemma_div_mod(d * WHOLE as nat, q, 0, d * WHOLE as nat);
}

/// Whether the characters from `from` up to `to` are all digits.
fn digits_between(v: &Vec<char>, from: usize, to: usize) -> (r: bool)
    requires
        from <= to <= v@.len(),
    ensures
        r == all_digits(v@.subrange(from as int, to as int)),
{
    let mut i: usize = from;
    while i < to
        invariant
            from <= i <= to <= v@.len(),
            forall|j: int| from <= j < i ==> is_digit(#[trigger] v@[j]),
        decreases to - i,
    {
        let u: u32 = v[i] as u32;
        if u < 48 || u > 57 {
            assert(!is_digit(v@.subrange(from as int, to as int)[i - from]));
            return false;
        }
        i += 1;
    }
    true
}

/// The double that digits with a point stand for, and how many units they write in full.
spec fn mantissa_read(neg: bool, s: Text, exp: int) -> Option<(Double, u128)> {
    match mantissa(neg, s, exp) {
        Some(w) => Some((double_of(w), full_of(w) as u128)),
        None => None,
    }
}

proof fn lemma_far_exponents(neg: bool, s: Text, a: int, b: int)
    requires
        s.len() <= u64::MAX,
        (a >= 100000000000000000000 && b >= 100000000000000000000) || (a <= -100000000000000000000
            && b <= -100000000000000000000),
    ensures
        mantissa_read(neg, s, a) == mantissa_read(neg, s, b),
{
    crate::text::lemma_position(s, Class::Is('.'));
    let d = position(s, Class::Is('.'));
    let whole = s.take(d);
    let part = if d < s.len() {
        s.skip(d + 1)
    } else {
        Seq::<char>::empty()
    };
    if all_digits(whole) && all_digits(part) && whole.len() + part.len() > 0 {
        let digits = whole + part;
        assert forall|k: int| 0 <= k < digits.len() implies is_digit(#[trigger] digits[k]) by {
            if k < whole.len() {
                assert(is_digit(whole[k]));
            } else {
                assert(is_digit(part[k - whole.len()]));
            }
        }
        if a > 0 {
            lemma_units_large(decimal(digits), a - part.len());
            lemma_units_large(decimal(digits), b - part.len());
        } else {
            lemma_units_small(digits, a - part.len());
            lemma_units_small(digits, b - part.len());
        }
    }
}

/// Reads the digits, and perhaps a point, from `from` up to `to`.
fn read_mantissa(neg: bool, v: &Vec<char>, from: usize, to: usize, exp: i128) -> (r: Option<
    (Double, u128),
>)
    requires
        from <= to <= v@.len(),
        -100000000000000000000 <= exp <= 100000000000000000000,
    ensures
        r == mantissa_read(neg, v@.subrange(from as int, to as int), exp as int),
        r is Some ==> r->Some_0.0.wf(),
{
    let ghost mant = v@.subrange(from as int, to as int);
    let mut d: usize = from;
    while d < to && v[d] != '.'
        invariant
            from <= d <= to <= v@.len(),
            forall|j: int| from <= j < d ==> !Class::Is('.').has(#[trigger] v@[j]),
        decreases to - d,
    {
        d += 1;
    }
    proof {
        assert forall|j: int| 0 <= j < d - from implies !Class::Is('.').has(#[trigger] mant[j]) by {
            assert(mant[j] == v@[j + from]);
        }
        if d < to {
            assert(mant[d - from] == v@[d as int]);
        }
        crate::text::lemma_position_is(mant, Class::Is('.'), d - from);
    }
    let after: usize = if d < to { d + 1 } else { d };
    let ghost whole = v@.subrange(from as int, d as int);
    let ghost part = v@.subrange(after as int, to as int);
    assert(whole =~= mant.take(d - from));
    assert(d < to ==> part =~= mant.skip(d - from + 1));
    assert(d >= to ==> part =~= Seq::<char>::empty());
    if !digits_between(v, from, d) || !digits_between(v, after, to) {
        return None;
    }
    if d == from && after == to {
        return None;
    }
    let mut digits: Vec<char> = Vec::new();
    let mut i: usize = from;
    while i < d
        invariant
            from <= i <= d <= v@.len(),
            digits@ == v@.subrange(from as int, i as int),
        decreases d - i,
    {
        digits.push(v[i]);
        i += 1;
        assert(digits@ =~= v@.subrange(from as int, i as int));
    }
    let mut j: usize = after;
    assert(digits@ =~= whole + v@.subrange(after as int, after as int));
    while j < to
        invariant
            after <= j <= to <= v@.len(),
            digits@ == whole + v@.subrange(after as int, j as int),
        decreases to - j,
    {
        digits.push(v[j]);
        j += 1;
        assert(digits@ =~= whole + v@.subrange(after as int, j as int));
    }
    proof {
        assert forall|k: int| 0 <= k < digits@.len() implies is_digit(#[trigger] digits@[k]) by {
            if k < whole.len() {
                assert(is_digit(whole[k]));
            } else {
                assert(is_digit(part[k - whole.len()]));
            }
        }
    }
    let (units, full) = read_units(&digits, (d - from) as i128 + exp);
    Some((Double::Mag { neg, units }, full))
}

proof fn lemma_full_units(d: nat, exp: int, units: u128)
    requires
        units <= WHOLE,
    ensures
        full_units(d, exp) <= WHOLE,
        full_units(d, exp) >= units <==> top(d, exp) * WHOLE >= units * bottom(exp),
{
    lemma_pow10_positive(if exp >= 0 { exp as nat } else { (-exp) as nat });
    let p = top(d, exp);
    let q = bottom(exp);
    let a = p * WHOLE as nat;
    if p >= q {
        assert(a >= units * q) by (nonlinear_arith)
            requires
                a == p * WHOLE as nat,
                p >= q,
                units <= WHOLE,
        ;
    } else {
        let n = a / q;
        assert(n * q <= a < (n + 1) * q) by (nonlinear_arith)
            requires
                n == a / q,
                q > 0,
        ;
        assert(n <= WHOLE) by (nonlinear_arith)
            requires
                n * q <= a,
                a == p * WHOLE as nat,
                p < q,
        ;
        assert(n >= units <==> a >= units * q) by (nonlinear_arith)
            requires
                n * q <= a < (n + 1) * q,
                q > 0,
        ;
    }
}

impl Double {
    /// Reads a number: a whole number or a decimal fraction, with or without a sign
    /// and an exponent, or one of the words for an infinite or an absent number.
    pub fn parse(s: &str) -> (r: Option<Double>)
        ensures
            r == double_text(s@),
            r is Some ==> r->0.wf(),
    {
        match Double::read(s) {
            Some((d, full)) => Some(d),
            None => None,
        }
    }

    /// Whether a text writes a number of at least so many units of 2^-111.
    pub fn reads_at_least(s: &str, units: u128) -> (r: bool)
        requires
            units <= WHOLE,
        ensures
            r == writes_at_least(s@, units),
    {
        match Double::read(s) {
            Some((Double::Mag { neg, units: near }, full)) => {
                proof {
                    if let Some(Written::Decimal { neg, digits, exp }) = written(s@) {
                        lemma_full_units(decimal(digits), exp, units);
                    }
                }
                !neg && full >= units
            },
            _ => false,
        }
    }

    /// Reads a number, as a double and in full units.
    fn read(s: &str) -> (r: Option<(Double, u128)>)
        ensures
            r == (match written(s@) {
                Some(w) => Some((double_of(w), full_of(w) as u128)),
                None => None,
            }),
            r is Some ==> r->Some_0.0.wf(),
    {
        let v = chars_of(s);
        let signed: bool = v.len() > 0 && Class::Sign.test(v[0]);
        let neg: bool = v.len() > 0 && v[0] == '-';
        let from: usize = if signed { 1 } else { 0 };
        let ghost body = v@.skip(from as int);
        assert(body =~= v@.subrange(from as int, v@.len() as int));
        assert(!signed ==> body =~= s@);
        let word = lowered(string_of(&v, from, v.len()).as_str());
        if same(word.as_str(), "nan") {
            return Some((Double::Nan, 0));
        }
        if same(word.as_str(), "inf") || same(word.as_str(), "infinity") {
            return Some((Double::Mag { neg, units: WHOLE }, WHOLE));
        }
        let e: usize = find_from(&v, from, Class::Exponent);
        let ghost mant = v@.subrange(from as int, e as int);
        if e == v.len() {
            assert(mant =~= body);
            return read_mantissa(neg, &v, from, e, 0);
        }
        assert(body.skip(e - from + 1) =~= v@.skip(e + 1));
        assert(body.take(e - from) =~= mant);
        match read_exponent(&v, e + 1) {
            Some(x) => {
                proof {
                    let exact = exponent(v@.skip(e + 1))->0;
                    if exact != x {
                        lemma_far_exponents(neg, mant, exact, x as int);
                    }
                }
                read_mantissa(neg, &v, from, e, x)
            },
            None => None,
        }
    }
}

/// A double brought into the range of shares. What is not a number counts as a half.
pub open spec fn clamped(d: Double) -> Ratio {
    match d {
        Double::Nan => Ratio { units: HALF },
        Double::Mag { neg, units } => if neg || units < LEAST as u128 * FINE {
            Ratio { units: LEAST }
        } else if units > MOST as u128 * FINE {
            Ratio { units: MOST }
        } else {
            Ratio { units: (units / FINE) as u64 }
        },
    }
}

/// The share with the double added to it, or taken from it. What is not a number
/// changes nothing.
pub open spec fn nudged(r: Ratio, d: Double, minus: bool) -> Ratio {
    match d {
        Double::Nan => r,
        Double::Mag { neg, units } => {
            let sum = r.units * FINE + if neg == minus {
                units as int
            } else {
                -(units as int)
            };
            if sum <= 0 {
                Ratio { units: LEAST }
            } else {
                clamped(Double::Mag { neg: false, units: nearest(sum as nat, 1) as u128 })
            }
        },
    }
}

impl Double {
    /// The double brought into the range of shares.
    pub fn clamp(self) -> (r: Ratio)
        ensures
            r == clamped(self),
            r.wf(),
    {
        match self {
            Double::Nan => Ratio { units: HALF },
            Double::Mag { neg, units } => if neg || units < LEAST as u128 * FINE {
                Ratio { units: LEAST }
            } else if units > MOST as u128 * FINE {
                Ratio { units: MOST }
            } else {
                Ratio { units: (units / FINE) as u64 }
            },
        }
    }
}

impl Ratio {
    /// Adds a double to the share, or takes it off.
    pub fn nudge(self, d: Double, minus: bool) -> (r: Ratio)
        requires
            self.wf(),
            d.wf(),
        ensures
            r == nudged(self, d, minus),
            r.wf(),
    {
        match d {
            Double::Nan => self,
            Double::Mag { neg, units } => {
                let base: u128 = self.units as u128 * FINE;
                if neg == minus {
                    let p: u128 = nearest_whole(base + units);
                    Double::Mag { neg: false, units: p }.clamp()
                } else if units >= base {
                    Ratio { units: LEAST }
                } else {
                    let p: u128 = nearest_whole(base - units);
                    Double::Mag { neg: false, units: p }.clamp()
                }
            },
        }
    }
}

// --- writing and reading back ----------------------------------------------------

proof fn lemma_step_scaled(x: nat, j: nat, p: nat)
    requires
        p == vstd::arithmetic::power2::pow2(j),
        0x10_0000_0000_0000 * p <= x < 0x20_0000_0000_0000 * p,
    ensures
        step_at(x) == p,
    decreases j,
{
    if j == 0 {
        vstd::arithmetic::power2::lemma2_to64();
    } else {
        vstd::arithmetic::power2::lemma_pow2_unfold(j);
        let h = vstd::arithmetic::power2::pow2((j - 1) as nat);
        assert(p == 2 * h);
        vstd::arithmetic::power2::lemma_pow2_pos((j - 1) as nat);
        lemma_step_scaled(x / 2, (j - 1) as nat, h);
    }
}

/// The ten-thousandths that a share can come to.
spec fn part_units(k: nat) -> nat {
    nearest(k * WHOLE as nat, 10000)
}

proof fn lemma_round_error(a: nat, b: nat)
    requires
        b > 0,
    ensures
        2 * a - b <= 2 * (round_half_even(a, b) * b) <= 2 * a + b,
{
    let q = a / b;
    let m = a % b;
    assert(a == q * b + m && m < b) by (nonlinear_arith)
        requires
            b > 0,
            q == a / b,
            m == a % b,
    ;
    assert((q + 1) * b == q * b + b) by (nonlinear_arith);
}

proof fn lemma_round_is(a: nat, b: nat, k: nat)
    requires
        2 * (k * b) - b < 2 * a < 2 * (k * b) + b,
    ensures
        round_half_even(a, b) == k,
{
    if a >= k * b {
        lemma_div_mod(a, b, k, (a - k * b) as nat);
    } else {
        assert(k >= 1) by (nonlinear_arith)
            requires
                0 <= a < k * b,
        ;
        let l = (k - 1) as nat;
        assert(l * b == k * b - b) by (nonlinear_arith)
            requires
                l == k - 1,
        ;
        lemma_div_mod(a, b, l, (a - l * b) as nat);
    }
}

proof fn lemma_part_case(k: nat, j: nat, p: nat, c: nat)
    requires
        500 <= k <= 9500,
        p == vstd::arithmetic::power2::pow2(j),
        p == c * FINE as nat,
        1 <= c <= 16,
        0x10_0000_0000_0000 * p <= (k * WHOLE as nat) / 10000 < 0x20_0000_0000_0000 * p,
    ensures
        round_half_even((part_units(k) / FINE as nat) * 10000, ONE as nat) == k,
        2 * (k * WHOLE as nat) - 10000 * p <= 20000 * part_units(k) <= 2 * (k * WHOLE as nat) + 10000
            * p,
        part_units(k) == round_half_even(k * WHOLE as nat, 10000 * p) * p,
        2 * (k * ONE) - 160000 <= 20000 * (part_units(k) / FINE as nat) <= 2 * (k * ONE) + 160000,
{
    let a = k * WHOLE as nat;
    lemma_step_scaled(a / 10000, j, p);
    let b = 10000 * p;
    lemma_round_error(a, b);
    let r = round_half_even(a, b);
    let u = r * p;
    assert(r * b == 10000 * u) by (nonlinear_arith)
        requires
            b == 10000 * p,
            u == r * p,
    ;
    let m = c * r;
    assert(u == m * FINE as nat) by (nonlinear_arith)
        requires
            u == r * p,
            p == c * FINE as nat,
            m == c * r,
    ;
    lemma_div_mod(u, FINE as nat, m, 0);
    lemma_round_is(m * 10000, ONE as nat, k);
}

proof fn lemma_part_units(k: nat)
    requires
        500 <= k <= 9500,
    ensures
        LEAST as nat * FINE as nat <= part_units(k) <= MOST as nat * FINE as nat,
        round_half_even((part_units(k) / FINE as nat) * 10000, ONE as nat) == k,
        2 * (k * ONE) - 160000 <= 20000 * (part_units(k) / FINE as nat) <= 2 * (k * ONE) + 160000,
{
    let x = (k * WHOLE as nat) / 10000;
    vstd::arithmetic::power2::lemma2_to64();
    vstd::arithmetic::power2::lemma2_to64_rest();
    if x < 0x20_0000_0000_0000 * 0x40_0000_0000_0000nat {
        lemma_part_case(k, 54, 0x40_0000_0000_0000, 1);
        if k == 500 {
            assert(round_half_even(500 * WHOLE as nat, 10000 * 0x40_0000_0000_0000nat) == LEAST);
        }
    } else if x < 0x20_0000_0000_0000 * 0x80_0000_0000_0000nat {
        lemma_part_case(k, 55, 0x80_0000_0000_0000, 2);
    } else if x < 0x20_0000_0000_0000 * 0x100_0000_0000_0000nat {
        lemma_part_case(k, 56, 0x100_0000_0000_0000, 4);
    } else if x < 0x20_0000_0000_0000 * 0x200_0000_0000_0000nat {
        lemma_part_case(k, 57, 0x200_0000_0000_0000, 8);
    } else {
        lemma_part_case(k, 58, 0x400_0000_0000_0000, 16);
        if k == 9500 {
            assert(round_half_even(9500 * WHOLE as nat, 10000 * 0x400_0000_0000_0000nat) * 16 == MOST);
        }
    }
}

proof fn lemma_last_digits(k: nat, places: nat)
    ensures
        last_digits(k, places).len() == places,
        all_digits(last_digits(k, places)),
        decimal(last_digits(k, places)) == k % pow10(places),
    decreases places,
{
    lemma_pow10_positive(places);
    if places == 0 {
        assert(k % 1 == 0);
    } else {
        let q = (places - 1) as nat;
        lemma_last_digits(k / 10, q);
        lemma_pow10_positive(q);
        let s = last_digits(k, places);
        assert(s.drop_last() =~= last_digits(k / 10, q));
        assert forall|i: int| 0 <= i < s.len() implies is_digit(#[trigger] s[i]) by {
            if i < q {
                assert(is_digit(last_digits(k / 10, q)[i]));
            }
        }
        vstd::arithmetic::div_mod::lemma_breakdown(k as int, 10, pow10(q) as int);
    }
}

proof fn lemma_text_of_parts(k: nat)
    requires
        k < 10000,
    ensures
        double_text(show_parts(k, 4)) == Some(
            Double::Mag { neg: false, units: units_of(k, -4) as u128 },
        ),
{
    let s = show_parts(k, 4);
    let d = last_digits(k, 4);
    reveal_with_fuel(pow10, 5);
    lemma_last_digits(k, 4);
    assert(pow10(4) == 10000);
    assert(k / 10000 == 0 && k % 10000 == k);
    assert(show(0) =~= seq!['0']);
    assert(s =~= seq!['0', '.'] + d);
    assert forall|i: int| 0 <= i < 4 implies is_digit(#[trigger] d[i]) && s[i + 2] == d[i] by {}
    assert(lower(s).len() == 6 && lower(s)[0] == '0');
    reveal_strlit("nan");
    reveal_strlit("inf");
    reveal_strlit("infinity");
    assert(lower(s) != "nan"@);
    assert(lower(s) != "inf"@);
    assert(lower(s) != "infinity"@);
    assert forall|i: int| 0 <= i < 6 implies !Class::Exponent.has(#[trigger] s[i]) by {
        if i >= 2 {
            assert(is_digit(d[i - 2]));
        }
    }
    crate::text::lemma_position_is(s, Class::Exponent, 6);
    crate::text::lemma_position_is(s, Class::Is('.'), 1);
    assert(s.take(1) =~= seq!['0']);
    assert(s.skip(2) =~= d);
    let digits = s.take(1) + s.skip(2);
    assert(digits.skip(1) =~= d);
    lemma_skip_zeros(digits, 1);
    assert(decimal(digits) == k);
}

/// A share as four decimals give it.
pub open spec fn to_four_places(r: Ratio) -> Ratio {
    clamped(double_text(show_ratio(r, 4))->0)
}

/// Whether two shares differ by no more than 0.00005.
pub open spec fn close(r: Ratio, s: Ratio) -> bool {
    -ONE <= 20000 * (r.units - s.units) <= ONE
}

/// Whether two shares differ by no more than 0.00005 and half the distance that doubles
/// have below one, which is 2^-53.
pub open spec fn nearly_close(r: Ratio, s: Ratio) -> bool {
    -(ONE + 160000) <= 20000 * (r.units - s.units) <= ONE + 160000
}

/// Whether a share lies in the middle between two numbers of four decimals, within half
/// the distance that doubles have below one.
pub open spec fn halfway(r: Ratio) -> bool {
    ONE - 160000 < (20000 * r.units) % (2 * ONE) < ONE + 160000
}

/// The number of ten-thousandths that is written for a share is within 0.00005 of it.
pub proof fn law_written_share(r: Ratio)
    ensures
        ({
            let k = round_half_even(r.units as nat * 10000, ONE as nat);
            &&& show_ratio(r, 4) == show_parts(k, 4)
            &&& -ONE <= 20000 * r.units - 2 * (k * ONE) <= ONE
        }),
{
    reveal_with_fuel(pow10, 5);
    lemma_round_error(r.units as nat * 10000, ONE as nat);
}

/// A share written with four decimals reads back as a share that is written the
/// same and is within 0.00005 of it. One in the middle between two numbers of four
/// decimals may be half the distance of two doubles farther off.
pub proof fn law_ratio_round_trip(r: Ratio)
    requires
        r.wf(),
    ensures
        close(r, to_four_places(r)) || halfway(r),
        nearly_close(r, to_four_places(r)),
        double_text(show_ratio(r, 4)) is Some,
        to_four_places(r).wf(),
        show_ratio(to_four_places(r), 4) == show_ratio(r, 4),
{
    reveal_with_fuel(pow10, 5);
    let k = round_half_even(r.units as nat * 10000, ONE as nat);
    assert(500 <= k <= 9500);
    lemma_text_of_parts(k);
    lemma_part_units(k);
    assert(units_of(k, -4) == part_units(k)) by {
        assert(LEAST as nat * FINE as nat > 0);
    }
    lemma_round_error(r.units as nat * 10000, ONE as nat);
    let x = 20000 * r.units as int;
    let two = 2 * ONE as int;
    if ONE - 160000 >= x - k * two >= 0 {
        vstd::arithmetic::div_mod::lemma_fundamental_div_mod_converse(x, two, k as int, x - k * two);
    } else if 0 > x - k * two >= -(ONE - 160000) {
        vstd::arithmetic::div_mod::lemma_fundamental_div_mod_converse(x, two, k - 1, x - (k - 1) * two);
    }
}

} // verus!
