//! Shares of a split: double arithmetic on whole numbers.

use vstd::prelude::*;
use crate::number::{digit_char, push_u64, show, to_digit};
use crate::text::Text;

verus! {

/// The number of units that make up one: 2^57.
pub const ONE: u64 = 144115188075855872;

/// Half of one.
pub const HALF: u64 = 72057594037927936;

/// The double next to 0.05.
pub const LEAST: u64 = 7205759403792794;

/// The double next to 0.95.
pub const MOST: u64 = 136909428672063072;

/// The share of a split that its first child gets: a double between 0.05 and
/// 0.95, held as a whole number of units of 2^-57.
#[derive(Clone, Copy, Debug, PartialEq, Eq, Structural)]
pub struct Ratio {
    pub units: u64,
}

impl Ratio {
    /// A share lies between 0.05 and 0.95.
    pub open spec fn wf(self) -> bool {
        LEAST <= self.units <= MOST
    }
}

/// `a / b` to the nearest whole number, to the even one of two that are as near.
pub open spec fn round_half_even(a: nat, b: nat) -> nat {
    if 2 * (a % b) < b || (2 * (a % b) == b && (a / b) % 2 == 0) {
        a / b
    } else {
        a / b + 1
    }
}

/// The distance of the doubles around `x`, where whole numbers are the closest
/// that they lie: the power of two that leaves `x` its 53 leading bits.
pub open spec fn step_at(x: nat) -> nat
    decreases x,
{
    if x < 0x20_0000_0000_0000 {
        1
    } else {
        2 * step_at(x / 2)
    }
}

/// The double nearest to `a / b`.
pub open spec fn nearest(a: nat, b: nat) -> nat {
    let step = step_at(a / b);
    round_half_even(a, b * step) * step
}

/// How many of `avail` pixels the share takes: the product as a double, to the
/// nearest pixel, halves upwards.
pub open spec fn share(avail: nat, r: Ratio) -> nat {
    (nearest(avail * r.units as nat, 1) + HALF as nat) / ONE as nat
}

/// What the share leaves of one.
pub open spec fn rest_of_one(r: Ratio) -> Ratio {
    Ratio { units: nearest((ONE - r.units) as nat, 1) as u64 }
}

/// The distance of the doubles around `x`.
pub fn find_step(x: u128) -> (u: u128)
    ensures
        u == step_at(x as nat),
        u == 1 || (u % 2 == 0 && u * 0x10_0000_0000_0000 <= x),
        u >= 1,
        x < u * 0x20_0000_0000_0000,
{
    let mut y: u128 = x;
    let mut u: u128 = 1;
    while y >= 0x20_0000_0000_0000
        invariant
            step_at(x as nat) == u * step_at(y as nat),
            u * y <= x < u * (y + 1),
            u >= 1,
            u == 1 || (u % 2 == 0 && y >= 0x10_0000_0000_0000),
        decreases y,
    {
        assert(u * y <= x ==> 2 * u <= x && 2 * u * (y / 2) <= x && x < 2 * u * (y / 2 + 1)) by (nonlinear_arith)
            requires
                y >= 2,
                u * y <= x < u * (y + 1),
        ;
        assert(u * (2 * step_at((y / 2) as nat)) == (2 * u) * step_at((y / 2) as nat)) by (nonlinear_arith);
        y = y / 2;
        u = u * 2;
    }
    assert(u * step_at(y as nat) == u) by (nonlinear_arith)
        requires step_at(y as nat) == 1;
    assert(u * 0x10_0000_0000_0000 <= u * y || u == 1) by (nonlinear_arith)
        requires u == 1 || y >= 0x10_0000_0000_0000, u >= 1;
    assert(u * (y + 1) <= u * 0x20_0000_0000_0000) by (nonlinear_arith)
        requires y + 1 <= 0x20_0000_0000_0000, u >= 1;
    u
}

/// The double nearest to `x`.
pub fn nearest_whole(x: u128) -> (r: u128)
    requires
        x < 0x100_0000_0000_0000_0000_0000_0000_0000,
    ensures
        r == nearest(x as nat, 1),
        r <= x + x / 0x10_0000_0000_0000 + 1,
{
    let u: u128 = find_step(x);
    let q: u128 = x / u;
    let m: u128 = x % u;
    assert(x == q * u + m && m < u) by (nonlinear_arith)
        requires u >= 1, q == x / u, m == x % u;
    assert(u <= x / 0x10_0000_0000_0000 + 1) by (nonlinear_arith)
        requires u == 1 || u * 0x10_0000_0000_0000 <= x;
    assert((q + 1) * u == q * u + u) by (nonlinear_arith);
    assert(1 * step_at(x as nat) == step_at(x as nat));
    if 2 * m < u || (2 * m == u && q % 2 == 0) {
        q * u
    } else {
        (q + 1) * u
    }
}

proof fn lemma_step_bound(x: nat)
    ensures
        step_at(x) >= 1,
        step_at(x) == 1 || step_at(x) * 0x10_0000_0000_0000 <= x,
    decreases x,
{
    if x >= 0x20_0000_0000_0000 {
        lemma_step_bound(x / 2);
    }
}

/// A share never takes more than there is.
pub proof fn law_share_fits(avail: nat, r: Ratio)
    requires
        r.wf(),
        avail <= i32::MAX,
    ensures
        share(avail, r) <= avail,
{
    let n = r.units;
    let x = avail * n as nat;
    assert(x <= avail * MOST) by (nonlinear_arith)
        requires
            x == avail * n as nat,
            n <= MOST,
    ;
    lemma_step_bound(x);
    let u = step_at(x);
    let q = x / u;
    assert(x / 1 == x && 1 * u == u);
    assert((q + 1) * u <= x + u && q * u <= x) by (nonlinear_arith)
        requires
            q == x / u,
            u >= 1,
    ;
    assert(u <= x / 0x10_0000_0000_0000 + 1) by (nonlinear_arith)
        requires
            u == 1 || u * 0x10_0000_0000_0000 <= x,
    ;
    let p = nearest(x, 1);
    assert(p <= x + u);
    assert(p + HALF < (avail + 1) * ONE) by (nonlinear_arith)
        requires
            p <= x + x / 0x10_0000_0000_0000 + 1,
            x <= avail * MOST,
            avail <= 0x7fff_ffff,
            MOST == 136909428672063072,
            ONE == 144115188075855872,
            HALF == 72057594037927936,
    ;
    assert((p + HALF) / ONE as int <= avail) by (nonlinear_arith)
        requires
            p + HALF < (avail + 1) * ONE,
            ONE == 144115188075855872,
    ;
}

pub proof fn lemma_rest_in_range(x: nat)
    requires
        ONE - MOST <= x <= ONE - LEAST,
    ensures
        LEAST <= nearest(x, 1) <= MOST,
{
    reveal_with_fuel(step_at, 6);
    let step = step_at(x);
    assert(x / 1 == x);
    assert(1 * step == step);
    if x < 0x20_0000_0000_0000 {
        assert(step == 1);
    } else if x < 0x40_0000_0000_0000 {
        assert(step == 2);
    } else if x < 0x80_0000_0000_0000 {
        assert(step == 4);
    } else if x < 0x100_0000_0000_0000 {
        assert(step == 8);
    } else {
        assert(step == 16);
    }
}

impl Ratio {
    /// How many of `avail` pixels the share takes.
    pub fn share(self, avail: i32) -> (r: i32)
        requires
            self.wf(),
            avail >= 0,
        ensures
            r == share(avail as nat, self),
            0 <= r <= avail,
    {
        let n: u64 = self.units;
        assert(0 <= avail * n <= 0x7fff_ffff * MOST && avail * n <= avail * MOST) by (nonlinear_arith)
            requires 0 <= avail <= 0x7fff_ffff, n <= MOST;
        let x: u128 = avail as u128 * n as u128;
        let p: u128 = nearest_whole(x);
        assert(p + HALF < (avail + 1) * ONE) by (nonlinear_arith)
            requires
                p <= x + x / 0x10_0000_0000_0000 + 1,
                x <= avail * MOST,
                0 <= avail <= 0x7fff_ffff,
                MOST == 136909428672063072,
                ONE == 144115188075855872,
                HALF == 72057594037927936,
        ;
        let w: u128 = (p + HALF as u128) / ONE as u128;
        assert(w < avail + 1) by (nonlinear_arith)
            requires
                p + HALF < (avail + 1) * ONE,
                w == (p + HALF) / ONE as int,
                ONE == 144115188075855872,
                avail >= 0,
        ;
        w as i32
    }

    /// What the share leaves of one.
    pub fn complement(self) -> (r: Ratio)
        requires
            self.wf(),
        ensures
            r == rest_of_one(self),
            r.wf(),
    {
        let n: u64 = self.units;
        let x: u128 = (ONE - n) as u128;
        let p: u128 = nearest_whole(x);
        proof {
            lemma_rest_in_range(x as nat);
        }
        Ratio { units: p as u64 }
    }
}

// --- writing -------------------------------------------------------------------

/// The last `places` digits of a number.
pub open spec fn last_digits(k: nat, places: nat) -> Text
    decreases places,
{
    if places == 0 {
        Seq::empty()
    } else {
        last_digits(k / 10, (places - 1) as nat).push(digit_char((k % 10) as int))
    }
}

/// `k` hundredths, or ten-thousandths, as a decimal fraction.
pub open spec fn show_parts(k: nat, places: nat) -> Text {
    show(k / crate::double::pow10(places)) + seq!['.'] + last_digits(k, places)
}

/// A share with `places` decimals, the last one rounded, ties to the even digit.
pub open spec fn show_ratio(r: Ratio, places: nat) -> Text {
    show_parts(round_half_even(r.units as nat * crate::double::pow10(places), ONE as nat), places)
}

/// Writes the last `places` digits of a number.
fn push_last_digits(out: &mut String, k: u64, places: u64)
    ensures
        final(out)@ == old(out)@ + last_digits(k as nat, places as nat),
    decreases places,
{
    if places > 0 {
        push_last_digits(out, k / 10, places - 1);
        out.push(to_digit(k % 10));
    }
    assert(out@ =~= old(out)@ + last_digits(k as nat, places as nat));
}

/// Writes `k` parts of `ten` as a decimal fraction with `places` decimals.
pub fn push_parts(out: &mut String, k: u64, places: u64, ten: u64)
    requires
        ten == crate::double::pow10(places as nat),
        ten > 0,
    ensures
        final(out)@ == old(out)@ + show_parts(k as nat, places as nat),
{
    push_u64(out, k / ten);
    out.push('.');
    push_last_digits(out, k, places);
    assert(out@ =~= old(out)@ + show_parts(k as nat, places as nat));
}

/// `n * ten / one` to the nearest whole number, ties to the even one.
pub fn round_parts(n: u128, ten: u64, one: u128) -> (k: u128)
    requires
        ten <= 10000,
        0 < one <= 0x1_0000_0000_0000_0000_0000_0000_0000,
        n <= one,
    ensures
        k == round_half_even(n as nat * ten as nat, one as nat),
        k <= ten,
{
    assert(n * ten <= one * ten) by (nonlinear_arith)
        requires
            n <= one,
    ;
    assert(one * ten <= 0x1_0000_0000_0000_0000_0000_0000_0000 * 10000) by (nonlinear_arith)
        requires
            one <= 0x1_0000_0000_0000_0000_0000_0000_0000,
            ten <= 10000,
    ;
    let a: u128 = n * ten as u128;
    let q: u128 = a / one;
    let m: u128 = a % one;
    assert(a == q * one + m && m < one) by (nonlinear_arith)
        requires
            one > 0,
            q == a / one,
            m == a % one,
    ;
    assert(q < ten || (q == ten && m == 0)) by (nonlinear_arith)
        requires
            a == q * one + m,
            a <= one * ten,
            m < one,
            one > 0,
    ;
    if 2 * m < one || (2 * m == one && q % 2 == 0) {
        q
    } else {
        q + 1
    }
}

impl Ratio {
    /// Writes the share with four decimals, or with two.
    pub fn push_text(self, out: &mut String, fine: bool)
        requires
            self.wf(),
        ensures
            final(out)@ == old(out)@ + show_ratio(self, if fine { 4 } else { 2 }),
    {
        let n: u64 = self.units;
        reveal_with_fuel(crate::double::pow10, 5);
        let ten: u64 = if fine { 10000 } else { 100 };
        let places: u64 = if fine { 4 } else { 2 };
        let k: u128 = round_parts(n as u128, ten, ONE as u128);
        push_parts(out, k as u64, places, ten);
    }
}

} // verus!
