//! Whole numbers written in decimal and in hexadecimal.

use vstd::prelude::*;
use crate::text::{chars_of, Text};

verus! {

/// Whether the character is a decimal digit.
pub open spec fn is_digit(c: char) -> bool {
    '0' as u32 <= c as u32 <= '9' as u32
}

/// What a decimal digit counts.
pub open spec fn digit_value(c: char) -> int {
    c as u32 - '0' as u32
}

/// The digit that counts `d`.
pub open spec fn digit_char(d: int) -> char {
    if d == 0 {
        '0'
    } else if d == 1 {
        '1'
    } else if d == 2 {
        '2'
    } else if d == 3 {
        '3'
    } else if d == 4 {
        '4'
    } else if d == 5 {
        '5'
    } else if d == 6 {
        '6'
    } else if d == 7 {
        '7'
    } else if d == 8 {
        '8'
    } else {
        '9'
    }
}

/// Whether the text holds digits only.
pub open spec fn all_digits(s: Text) -> bool {
    forall|i: int| 0 <= i < s.len() ==> is_digit(#[trigger] s[i])
}

/// The number that a text of digits writes.
pub open spec fn decimal(s: Text) -> nat
    decreases s.len(),
{
    if s.len() == 0 {
        0
    } else {
        (decimal(s.drop_last()) * 10 + digit_value(s.last())) as nat
    }
}

/// The number that a nonempty text of digits writes, where it is at most `max`.
pub open spec fn magnitude(s: Text, max: int) -> Option<int> {
    if s.len() > 0 && all_digits(s) && decimal(s) <= max {
        Some(decimal(s) as int)
    } else {
        None
    }
}

/// An unsigned number: digits, with or without a plus before them.
pub open spec fn unsigned(s: Text, max: int) -> Option<int> {
    if s.len() > 0 && s[0] == '+' {
        magnitude(s.skip(1), max)
    } else {
        magnitude(s, max)
    }
}

/// A signed number: digits, with or without a sign before them.
pub open spec fn signed(s: Text, min: int, max: int) -> Option<int> {
    if s.len() > 0 && s[0] == '-' {
        match magnitude(s.skip(1), -min) {
            Some(m) => Some(-m),
            None => None,
        }
    } else {
        unsigned(s, max)
    }
}

proof fn lemma_decimal_prefix(s: Text, i: int)
    requires
        0 <= i <= s.len(),
        all_digits(s),
    ensures
        decimal(s.take(i)) <= decimal(s),
    decreases s.len() - i,
{
    if i < s.len() {
        lemma_decimal_prefix(s, i + 1);
        assert(s.take(i + 1).drop_last() =~= s.take(i));
        assert(is_digit(s[i]));
    } else {
        assert(s.take(i) =~= s);
    }
}

/// Reads the digits from `from` on.
pub fn read_magnitude(v: &Vec<char>, from: usize, max: u64) -> (r: Option<u64>)
    requires
        from <= v@.len(),
    ensures
        r is Some <==> magnitude(v@.skip(from as int), max as int) is Some,
        r is Some ==> r->0 == magnitude(v@.skip(from as int), max as int)->0,
{
    let ghost s = v@.skip(from as int);
    if from == v.len() {
        return None;
    }
    let mut i: usize = from;
    let mut acc: u64 = 0;
    while i < v.len()
        invariant
            from <= i <= v@.len(),
            s == v@.skip(from as int),
            all_digits(s.take(i - from)),
            acc == decimal(s.take(i - from)),
            acc <= max,
        decreases v@.len() - i,
    {
        let c: char = v[i];
        let u: u32 = c as u32;
        assert(s[i - from] == c);
        if u < 48 || u > 57 {
            assert(!is_digit(s[i - from]));
            return None;
        }
        let d: u64 = (u - 48) as u64;
        assert(s.take(i - from + 1).drop_last() =~= s.take(i - from));
        assert(s.take(i - from + 1).last() == c);
        let wide: u128 = acc as u128 * 10 + d as u128;
        assert(wide == decimal(s.take(i - from + 1)));
        if wide > max as u128 {
            proof {
                if all_digits(s) {
                    lemma_decimal_prefix(s, i - from + 1);
                }
            }
            return None;
        }
        acc = wide as u64;
        assert forall|j: int| 0 <= j < i - from + 1 implies is_digit(
            #[trigger] s.take(i - from + 1)[j],
        ) by {
            if j < i - from {
                assert(s.take(i - from)[j] == s[j]);
            }
        }
        i += 1;
    }
    assert(s.take(i - from) =~= s);
    Some(acc)
}

/// Reads an unsigned number of at most `max`.
pub fn parse_unsigned(s: &str, max: u64) -> (r: Option<u64>)
    ensures
        r is Some <==> unsigned(s@, max as int) is Some,
        r is Some ==> r->0 == unsigned(s@, max as int)->0,
{
    let v = chars_of(s);
    if v.len() > 0 && v[0] == '+' {
        read_magnitude(&v, 1, max)
    } else {
        assert(v@.skip(0) =~= v@);
        read_magnitude(&v, 0, max)
    }
}

/// Reads a `u64`.
pub fn parse_u64(s: &str) -> (r: Option<u64>)
    ensures
        r is Some <==> unsigned(s@, u64::MAX as int) is Some,
        r is Some ==> r->0 == unsigned(s@, u64::MAX as int)->0,
{
    parse_unsigned(s, u64::MAX)
}

/// Reads a `usize`.
pub fn parse_usize(s: &str) -> (r: Option<usize>)
    ensures
        r is Some <==> unsigned(s@, usize::MAX as int) is Some,
        r is Some ==> r->0 == unsigned(s@, usize::MAX as int)->0,
{
    match parse_unsigned(s, usize::MAX as u64) {
        Some(n) => Some(n as usize),
        None => None,
    }
}

/// Reads a `u32`.
pub fn parse_u32(s: &str) -> (r: Option<u32>)
    ensures
        r is Some <==> unsigned(s@, u32::MAX as int) is Some,
        r is Some ==> r->0 == unsigned(s@, u32::MAX as int)->0,
{
    match parse_unsigned(s, 0xffff_ffff) {
        Some(n) => Some(n as u32),
        None => None,
    }
}

/// What a text writes as an `i32`.
pub open spec fn signed32(s: Text) -> Option<int> {
    signed(s, i32::MIN as int, i32::MAX as int)
}

/// Reads an `i32`.
pub fn parse_i32(s: &str) -> (r: Option<i32>)
    ensures
        r is Some <==> signed32(s@) is Some,
        r is Some ==> r->0 == signed32(s@)->0,
{
    let v = chars_of(s);
    if v.len() > 0 && v[0] == '-' {
        match read_magnitude(&v, 1, 0x8000_0000) {
            Some(n) => Some((-(n as i64)) as i32),
            None => None,
        }
    } else {
        match parse_unsigned(s, 0x7fff_ffff) {
            Some(n) => Some(n as i32),
            None => None,
        }
    }
}

/// What a text writes as an `i64`.
pub open spec fn signed64(s: Text) -> Option<int> {
    signed(s, i64::MIN as int, i64::MAX as int)
}

/// Reads an `i64`.
pub fn parse_i64(s: &str) -> (r: Option<i64>)
    ensures
        r is Some <==> signed64(s@) is Some,
        r is Some ==> r->0 == signed64(s@)->0,
{
    let v = chars_of(s);
    if v.len() > 0 && v[0] == '-' {
        match read_magnitude(&v, 1, 0x8000_0000_0000_0000) {
            Some(n) => Some((-(n as i128)) as i64),
            None => None,
        }
    } else {
        match parse_unsigned(s, 0x7fff_ffff_ffff_ffff) {
            Some(n) => Some(n as i64),
            None => None,
        }
    }
}

// --- writing -------------------------------------------------------------------

/// A number written in decimal, without leading zeros.
pub open spec fn show(n: nat) -> Text
    decreases n,
{
    if n < 10 {
        seq![digit_char(n as int)]
    } else {
        show(n / 10).push(digit_char((n % 10) as int))
    }
}

/// A signed number written in decimal.
pub open spec fn show_int(n: int) -> Text {
    if n < 0 {
        seq!['-'] + show((-n) as nat)
    } else {
        show(n as nat)
    }
}

/// The digit that counts `d`.
pub fn to_digit(d: u64) -> (c: char)
    requires
        d < 10,
    ensures
        c == digit_char(d as int),
{
    match d {
        0 => '0',
        1 => '1',
        2 => '2',
        3 => '3',
        4 => '4',
        5 => '5',
        6 => '6',
        7 => '7',
        8 => '8',
        _ => '9',
    }
}

/// Writes a number at the end of a string.
pub fn push_u64(out: &mut String, n: u64)
    ensures
        final(out)@ == old(out)@ + show(n as nat),
    decreases n,
{
    if n >= 10 {
        push_u64(out, n / 10);
    }
    out.push(to_digit(n % 10));
    assert(out@ =~= old(out)@ + show(n as nat));
}

/// Writes a signed number at the end of a string.
pub fn push_i64(out: &mut String, n: i64)
    requires
        n > i64::MIN,
    ensures
        final(out)@ == old(out)@ + show_int(n as int),
{
    if n < 0 {
        out.push('-');
        push_u64(out, (-n) as u64);
        assert(out@ =~= old(out)@ + show_int(n as int));
    } else {
        push_u64(out, n as u64);
    }
}

/// A number as a string.
pub fn u64_text(n: u64) -> (r: String)
    ensures
        r@ == show(n as nat),
{
    let mut r = String::new();
    push_u64(&mut r, n);
    assert(Seq::<char>::empty() + show(n as nat) =~= show(n as nat));
    r
}

/// A signed number as a string.
pub fn i64_text(n: i64) -> (r: String)
    requires
        n > i64::MIN,
    ensures
        r@ == show_int(n as int),
{
    let mut r = String::new();
    push_i64(&mut r, n);
    assert(Seq::<char>::empty() + show_int(n as int) =~= show_int(n as int));
    r
}

/// A written number holds digits only, at least one, and reads back as itself.
pub proof fn law_show_reads_back(n: nat)
    ensures
        show(n).len() > 0,
        all_digits(show(n)),
        decimal(show(n)) == n,
    decreases n,
{
    if n < 10 {
        assert(show(n).drop_last() =~= Seq::<char>::empty());
        assert(decimal(Seq::<char>::empty()) == 0);
    } else {
        law_show_reads_back(n / 10);
        assert(show(n).drop_last() =~= show(n / 10));
        assert forall|i: int| 0 <= i < show(n).len() implies is_digit(#[trigger] show(n)[i]) by {
            if i < show(n / 10).len() {
                assert(is_digit(show(n / 10)[i]));
            }
        }
    }
}

/// A written unsigned number reads back as itself.
pub proof fn law_unsigned_round_trip(n: nat, max: int)
    requires
        n <= max,
    ensures
        unsigned(show(n), max) == Some(n as int),
{
    law_show_reads_back(n);
    assert(is_digit(show(n)[0]));
}

/// A written signed number reads back as itself.
pub proof fn law_signed_round_trip(n: int, min: int, max: int)
    requires
        min <= n <= max,
    ensures
        signed(show_int(n), min, max) == Some(n),
{
    if n < 0 {
        law_show_reads_back((-n) as nat);
        assert(show_int(n).skip(1) =~= show((-n) as nat));
    } else {
        law_show_reads_back(n as nat);
        assert(is_digit(show(n as nat)[0]));
    }
}

} // verus!
