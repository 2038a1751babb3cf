//! Colours and settings.

use vstd::prelude::*;
use crate::double::{Double, WHOLE};
use crate::frame::LayoutMode;
use crate::number::digit_char;
use crate::ratio::{push_parts, round_half_even, round_parts, show_parts};
use crate::text::{chars_of, strip_start, trim_start, Class, Text};

verus! {

/// Red, green, blue and opacity.
pub type Color = (u8, u8, u8, u8);

/// What a hexadecimal digit counts.
pub open spec fn hex_value(c: char) -> Option<int> {
    let u = c as u32;
    if '0' as u32 <= u <= '9' as u32 {
        Some(u - '0' as u32)
    } else if 'a' as u32 <= u <= 'f' as u32 {
        Some(u - 'a' as u32 + 10)
    } else if 'A' as u32 <= u <= 'F' as u32 {
        Some(u - 'A' as u32 + 10)
    } else {
        None
    }
}

/// The byte that two characters write: two hexadecimal digits, or a plus and one.
pub open spec fn hex_pair(a: char, b: char) -> Option<int> {
    match (hex_value(a), hex_value(b)) {
        (Some(x), Some(y)) => Some(16 * x + y),
        (None, Some(y)) => if a == '+' {
            Some(y)
        } else {
            None
        },
        _ => None,
    }
}

/// The colour that a text writes: three or four bytes, after any number of `#`.
pub open spec fn color_text(s: Text) -> Option<Color> {
    let t = trim_start(s, Class::Is('#'));
    if t.len() == 6 {
        match (hex_pair(t[0], t[1]), hex_pair(t[2], t[3]), hex_pair(t[4], t[5])) {
            (Some(r), Some(g), Some(b)) => Some((r as u8, g as u8, b as u8, 0xffu8)),
            _ => None,
        }
    } else if t.len() == 8 {
        match (
            hex_pair(t[0], t[1]),
            hex_pair(t[2], t[3]),
            hex_pair(t[4], t[5]),
            hex_pair(t[6], t[7]),
        ) {
            (Some(r), Some(g), Some(b), Some(a)) => Some((r as u8, g as u8, b as u8, a as u8)),
            _ => None,
        }
    } else {
        None
    }
}

/// What a hexadecimal digit counts.
fn read_hex(c: char) -> (r: Option<u8>)
    ensures
        r is Some <==> hex_value(c) is Some,
        r is Some ==> r->0 == hex_value(c)->0,
        r is Some ==> r->0 < 16,
{
    let u: u32 = c as u32;
    if 48 <= u && u <= 57 {
        Some((u - 48) as u8)
    } else if 97 <= u && u <= 102 {
        Some((u - 97 + 10) as u8)
    } else if 65 <= u && u <= 70 {
        Some((u - 65 + 10) as u8)
    } else {
        None
    }
}

/// The byte that two characters write.
fn read_pair(a: char, b: char) -> (r: Option<u8>)
    ensures
        r is Some <==> hex_pair(a, b) is Some,
        r is Some ==> r->0 == hex_pair(a, b)->0,
{
    match (read_hex(a), read_hex(b)) {
        (Some(x), Some(y)) => Some(16 * x + y),
        (None, Some(y)) => if a == '+' {
            Some(y)
        } else {
            None
        },
        _ => None,
    }
}

/// Reads a colour: `#rrggbb` or `#rrggbbaa`.
pub fn parse_color(s: &str) -> (r: Option<Color>)
    ensures
        r == color_text(s@),
{
    let t = chars_of(strip_start(s, Class::Is('#')).as_str());
    if t.len() == 6 {
        match (read_pair(t[0], t[1]), read_pair(t[2], t[3]), read_pair(t[4], t[5])) {
            (Some(r), Some(g), Some(b)) => Some((r, g, b, 0xff)),
            _ => None,
        }
    } else if t.len() == 8 {
        match (
            read_pair(t[0], t[1]),
            read_pair(t[2], t[3]),
            read_pair(t[4], t[5]),
            read_pair(t[6], t[7]),
        ) {
            (Some(r), Some(g), Some(b), Some(a)) => Some((r, g, b, a)),
            _ => None,
        }
    } else {
        None
    }
}

/// The hexadecimal digit, in lower case, that counts `d`.
pub open spec fn hex_char(d: int) -> char {
    if d < 10 {
        digit_char(d)
    } else if d == 10 {
        'a'
    } else if d == 11 {
        'b'
    } else if d == 12 {
        'c'
    } else if d == 13 {
        'd'
    } else if d == 14 {
        'e'
    } else {
        'f'
    }
}

/// A byte in two hexadecimal digits.
pub open spec fn hex_byte(b: u8) -> Text {
    seq![hex_char(b as int / 16), hex_char(b as int % 16)]
}

/// A colour written `#rrggbbaa`.
pub open spec fn show_color(c: Color) -> Text {
    seq!['#'] + hex_byte(c.0) + hex_byte(c.1) + hex_byte(c.2) + hex_byte(c.3)
}

/// The hexadecimal digit that counts `d`.
fn write_hex(d: u8) -> (c: char)
    requires
        d < 16,
    ensures
        c == hex_char(d as int),
{
    match d {
        10 => 'a',
        11 => 'b',
        12 => 'c',
        13 => 'd',
        14 => 'e',
        15 => 'f',
        _ => crate::number::to_digit(d as u64),
    }
}

fn push_byte(out: &mut String, b: u8)
    ensures
        final(out)@ == old(out)@ + hex_byte(b),
{
    out.push(write_hex(b / 16));
    out.push(write_hex(b % 16));
    assert(out@ =~= old(out)@ + hex_byte(b));
}

/// A colour as a string.
pub fn color_string(c: Color) -> (r: String)
    ensures
        r@ == show_color(c),
{
    let mut r = String::new();
    r.push('#');
    push_byte(&mut r, c.0);
    push_byte(&mut r, c.1);
    push_byte(&mut r, c.2);
    push_byte(&mut r, c.3);
    assert(r@ =~= show_color(c));
    r
}

proof fn lemma_hex_back(b: u8)
    ensures
        hex_pair(hex_char(b as int / 16), hex_char(b as int % 16)) == Some(b as int),
{
}

/// A colour reads back as it was written.
pub proof fn law_color_round_trip(c: Color)
    ensures
        color_text(show_color(c)) == Some(c),
{
    let s = show_color(c);
    let t = s.skip(1);
    assert(t =~= hex_byte(c.0) + hex_byte(c.1) + hex_byte(c.2) + hex_byte(c.3));
    assert(s.drop_first() =~= t);
    assert(t[0] == hex_char(c.0 as int / 16));
    assert(trim_start(t, Class::Is('#')) == t);
    assert(trim_start(s, Class::Is('#')) == t);
    lemma_hex_back(c.0);
    lemma_hex_back(c.1);
    lemma_hex_back(c.2);
    lemma_hex_back(c.3);
}

/// Each channel widened to 32 bits: the byte repeated in each of the four.
pub open spec fn widened(c: u8) -> int {
    c as int * 0x0101_0101
}

/// Widens each channel of a colour to 32 bits.
pub fn expand_color(c: Color) -> (r: (u32, u32, u32, u32))
    ensures
        r.0 == widened(c.0),
        r.1 == widened(c.1),
        r.2 == widened(c.2),
        r.3 == widened(c.3),
{
    (
        c.0 as u32 * 0x0101_0101,
        c.1 as u32 * 0x0101_0101,
        c.2 as u32 * 0x0101_0101,
        c.3 as u32 * 0x0101_0101,
    )
}

/// The look of notifications.
#[derive(Clone, Copy, Debug)]
pub struct NotifTheme {
    pub bg: Color,
    pub fg: Color,
    pub body_fg: Color,
    pub accent: Color,
    pub accent_critical: Color,
    pub width: i32,
    /// How long one stays that asks for the default, in milliseconds; for good where
    /// this is zero.
    pub timeout_ms: i32,
}

/// The look of notifications that nothing was set of.
pub open spec fn default_notif_theme() -> NotifTheme {
    NotifTheme {
        bg: (0x1du8, 0x25u8, 0x2bu8, 0xffu8),
        fg: (0xf7u8, 0xf8u8, 0xf3u8, 0xffu8),
        body_fg: (0xc9u8, 0xccu8, 0xc4u8, 0xffu8),
        accent: (0x4eu8, 0x9bu8, 0xcfu8, 0xffu8),
        accent_critical: (0xffu8, 0x4du8, 0x65u8, 0xffu8),
        width: 380,
        timeout_ms: 5000,
    }
}

impl Default for NotifTheme {
    fn default() -> (r: NotifTheme)
        ensures
            r == default_notif_theme(),
    {
        NotifTheme {
            bg: (0x1d, 0x25, 0x2b, 0xff),
            fg: (0xf7, 0xf8, 0xf3, 0xff),
            body_fg: (0xc9, 0xcc, 0xc4, 0xff),
            accent: (0x4e, 0x9b, 0xcf, 0xff),
            accent_critical: (0xff, 0x4d, 0x65, 0xff),
            width: 380,
            timeout_ms: 5000,
        }
    }
}

/// The look of the launcher.
#[derive(Clone, Copy, Debug)]
pub struct LauncherTheme {
    /// What lies over the rest of the screen.
    pub dim: Color,
    pub bg: Color,
    pub fg: Color,
    pub sel_bg: Color,
    pub sel_fg: Color,
    pub width: i32,
}

/// The look of the launcher that nothing was set of.
pub open spec fn default_launcher_theme() -> LauncherTheme {
    LauncherTheme {
        dim: (0x0au8, 0x0cu8, 0x0fu8, 0xc8u8),
        bg: (0x1du8, 0x25u8, 0x2bu8, 0xffu8),
        fg: (0xf7u8, 0xf8u8, 0xf3u8, 0xffu8),
        sel_bg: (0x4eu8, 0x9bu8, 0xcfu8, 0xffu8),
        sel_fg: (0xffu8, 0xffu8, 0xffu8, 0xffu8),
        width: 760,
    }
}

impl Default for LauncherTheme {
    fn default() -> (r: LauncherTheme)
        ensures
            r == default_launcher_theme(),
    {
        LauncherTheme {
            dim: (0x0a, 0x0c, 0x0f, 0xc8),
            bg: (0x1d, 0x25, 0x2b, 0xff),
            fg: (0xf7, 0xf8, 0xf3, 0xff),
            sel_bg: (0x4e, 0x9b, 0xcf, 0xff),
            sel_fg: (0xff, 0xff, 0xff, 0xff),
            width: 760,
        }
    }
}

/// How strongly windows without the focus are dimmed: a double between 0 and 1.
/// What is not a number counts as 0.
pub open spec fn dimming(d: Double) -> Double {
    match d {
        Double::Nan => Double::Mag { neg: false, units: 0 },
        Double::Mag { neg, units } => if neg && units > 0 {
            Double::Mag { neg: false, units: 0 }
        } else if units > WHOLE {
            Double::Mag { neg: false, units: WHOLE }
        } else {
            d
        },
    }
}

/// Brings a double into the range from 0 to 1.
pub fn to_dimming(d: Double) -> (r: Double)
    ensures
        r == dimming(d),
{
    match d {
        Double::Nan => Double::Mag { neg: false, units: 0 },
        Double::Mag { neg, units } => if neg && units > 0 {
            Double::Mag { neg: false, units: 0 }
        } else if units > WHOLE {
            Double::Mag { neg: false, units: WHOLE }
        } else {
            d
        },
    }
}

/// A strength of dimming: a number between 0 and 1.
pub open spec fn is_dimming(d: Double) -> bool {
    match d {
        Double::Nan => false,
        Double::Mag { neg, units } => units <= WHOLE && (neg ==> units == 0),
    }
}

/// Whether there is any dimming.
pub open spec fn dims(d: Double) -> bool {
    match d {
        Double::Nan => false,
        Double::Mag { neg, units } => !neg && units > 0,
    }
}

/// Whether there is any dimming.
pub fn is_dimmed(d: Double) -> (r: bool)
    ensures
        r == dims(d),
{
    match d {
        Double::Nan => false,
        Double::Mag { neg, units } => !neg && units > 0,
    }
}

/// A strength of dimming with two decimals.
pub open spec fn show_dimming(d: Double) -> Text {
    match d {
        Double::Nan => "NaN"@,
        Double::Mag { neg, units } => {
            let digits = show_parts(round_half_even(units as nat * 100, WHOLE as nat), 2);
            if neg {
                seq!['-'] + digits
            } else {
                digits
            }
        },
    }
}

/// A strength of dimming as a string.
pub fn dimming_string(d: Double) -> (r: String)
    requires
        is_dimming(d),
    ensures
        r@ == show_dimming(d),
{
    let mut r = String::new();
    match d {
        Double::Nan => {
            r.append("NaN");
            assert(r@ =~= "NaN"@);
        },
        Double::Mag { neg, units } => {
            reveal_with_fuel(crate::double::pow10, 3);
            if neg {
                r.push('-');
            }
            let k: u128 = round_parts(units, 100, WHOLE);
            push_parts(&mut r, k as u64, 2, 100);
            assert(r@ =~= show_dimming(d));
        },
    }
    r
}

/// What `set` sets.
#[derive(Clone, Copy, Debug)]
pub struct Settings {
    /// The room between frames and at the edges.
    pub window_gap: i32,
    pub border_width: i32,
    pub border_active: Color,
    pub border_normal: Color,
    pub border_urgent: Color,
    /// Whether a window gets the focus when the pointer comes over it.
    pub focus_follows_mouse: bool,
    /// Whether a floating window comes to the top when it gets the focus.
    pub raise_on_focus: bool,
    /// Whether the gap is left out round a frame that is alone.
    pub smart_frame_surroundings: bool,
    /// Whether the border is left out round a window that is alone.
    pub smart_window_surroundings: bool,
    /// How the first frame of a new tag is arranged.
    pub default_frame_layout: LayoutMode,
    pub inactive_dim: Double,
    pub notif_theme: NotifTheme,
    pub launcher_theme: LauncherTheme,
}

} // verus!
