//! Touchpad gestures: their names, their recognition and what they are bound to.

use vstd::prelude::*;
use crate::frame::Dir;
use crate::keys::args_from;
use crate::number::{parse_unsigned, push_u64, show, unsigned};
use crate::reply::{err, err_text, ok, ok_text, three, two};
use crate::state::{State, World};
use crate::table::{drop_key, find_name, put, put_name, remove_name, value_of};
use crate::text::{
    chars_of, find_from, has_prefix, position, same, starts_with, string_of, Class, Text,
};

verus! {

/// What is said of a text that names no gesture.
pub open spec fn no_gesture(spec: Text) -> Text {
    "bad gesture '"@ + spec + "' (want swipe<fingers>-<left|right|up|down>)"@
}

/// Whether the word is a side.
pub open spec fn is_side(s: Text) -> bool {
    s == "left"@ || s == "right"@ || s == "up"@ || s == "down"@
}

/// The gesture that a text names, `swipe<fingers>-<side>`, written the one way.
pub open spec fn gesture_text(spec: Text) -> Result<Text, Text> {
    if !has_prefix(spec, "swipe"@) {
        Err(no_gesture(spec))
    } else {
        let rest = spec.skip(5);
        let p = position(rest, Class::Is('-'));
        if p >= rest.len() {
            Err(no_gesture(spec))
        } else {
            match unsigned(rest.take(p), 255) {
                None => Err("bad finger count in '"@ + spec + "'"@),
                Some(n) => if n < 2 || n > 5 {
                    Err("bad finger count in '"@ + spec + "' (want 2-5)"@)
                } else if !is_side(rest.skip(p + 1)) {
                    Err("bad direction in '"@ + spec + "' (want left|right|up|down)"@)
                } else {
                    Ok(gesture_name(n, rest.skip(p + 1)))
                },
            }
        }
    }
}

/// The name of a gesture.
pub open spec fn gesture_name(fingers: int, side: Text) -> Text {
    "swipe"@ + show(fingers as nat) + "-"@ + side
}

/// A result that says what a result of texts says.
pub open spec fn names(r: Result<String, String>, t: Result<Text, Text>) -> bool {
    match t {
        Ok(s) => r is Ok && r->Ok_0@ == s,
        Err(e) => r is Err && r->Err_0@ == e,
    }
}

/// The name of a gesture.
fn write_gesture(fingers: u64, side: &str) -> (r: String)
    ensures
        r@ == gesture_name(fingers as int, side@),
{
    let mut r = "swipe".to_owned();
    push_u64(&mut r, fingers);
    r.append("-");
    r.append(side);
    r
}

/// Reads the name of a gesture.
pub fn parse_spec(spec: &str) -> (r: Result<String, String>)
    ensures
        names(r, gesture_text(spec@)),
{
    if !starts_with(spec, "swipe") {
        return Err(three("bad gesture '", spec, "' (want swipe<fingers>-<left|right|up|down>)"));
    }
    proof {
        reveal_strlit("swipe");
    }
    let v = chars_of(spec);
    let ghost rest = v@.skip(5);
    let p: usize = find_from(&v, 5, Class::Is('-'));
    if p == v.len() {
        return Err(three("bad gesture '", spec, "' (want swipe<fingers>-<left|right|up|down>)"));
    }
    let n = string_of(&v, 5, p);
    let side = string_of(&v, p + 1, v.len());
    assert(n@ =~= rest.take(p - 5));
    assert(side@ =~= rest.skip(p - 5 + 1));
    match parse_unsigned(n.as_str(), 255) {
        None => Err(three("bad finger count in '", spec, "'")),
        Some(fingers) => {
            if fingers < 2 || fingers > 5 {
                return Err(three("bad finger count in '", spec, "' (want 2-5)"));
            }
            let s = side.as_str();
            if !(same(s, "left") || same(s, "right") || same(s, "up") || same(s, "down")) {
                return Err(three("bad direction in '", spec, "' (want left|right|up|down)"));
            }
            Ok(write_gesture(fingers, s))
        },
    }
}

/// A gesture's own name reads as that name.
pub proof fn law_gesture_name_stays(fingers: int, side: Text)
    requires
        2 <= fingers <= 5,
        is_side(side),
    ensures
        gesture_text(gesture_name(fingers, side)) == Ok::<Text, Text>(gesture_name(fingers, side)),
{
    let s = gesture_name(fingers, side);
    reveal_strlit("swipe");
    reveal_strlit("-");
    crate::number::law_show_reads_back(fingers as nat);
    crate::number::law_unsigned_round_trip(fingers as nat, 255);
    let n = show(fingers as nat);
    assert(n.len() == 1);
    let rest = s.skip(5);
    assert(s.take(5) =~= "swipe"@);
    assert(rest =~= n + seq!['-'] + side);
    assert(crate::number::is_digit(n[0]));
    assert(rest[0] == n[0] && rest[1] == '-');
    crate::text::lemma_position_is(rest, Class::Is('-'), 1);
    assert(rest.take(1) =~= n);
    assert(rest.skip(2) =~= side);
}

// --- recognition -----------------------------------------------------------------------------

/// The size of a double, given by its bits: the bits without the sign, which lie in the
/// order of the sizes.
pub open spec fn size_bits(b: u64) -> u64 {
    if b >= 0x8000_0000_0000_0000 {
        (b - 0x8000_0000_0000_0000) as u64
    } else {
        b
    }
}

/// Whether the bits are those of a number.
pub open spec fn is_number(b: u64) -> bool {
    size_bits(b) <= 0x7ff0_0000_0000_0000
}

/// Whether one double is at least as large as another, their signs apart.
pub open spec fn no_smaller(a: u64, b: u64) -> bool {
    is_number(a) && is_number(b) && size_bits(a) >= size_bits(b)
}

/// The bits of 40, the least way that counts as a swipe.
pub const LEAST_WAY: u64 = 0x4044_0000_0000_0000;

/// The side that a swipe goes to, from the bits of how far it went across and down: the
/// longer of the two ways counts, where it is long enough.
pub open spec fn swipe_side(dx: u64, dy: u64) -> Option<Dir> {
    if no_smaller(dx, dy) {
        if no_smaller(dx, LEAST_WAY) {
            Some(
                if dx >= 0x8000_0000_0000_0000 {
                    Dir::Left
                } else {
                    Dir::Right
                },
            )
        } else {
            None
        }
    } else if no_smaller(dy, LEAST_WAY) {
        Some(
            if dy >= 0x8000_0000_0000_0000 {
                Dir::Up
            } else {
                Dir::Down
            },
        )
    } else {
        None
    }
}

/// Whether one double is at least as large as another, their signs apart.
fn at_least_as_large(a: u64, b: u64) -> (r: bool)
    ensures
        r == no_smaller(a, b),
{
    let x: u64 = if a >= 0x8000_0000_0000_0000 { a - 0x8000_0000_0000_0000 } else { a };
    let y: u64 = if b >= 0x8000_0000_0000_0000 { b - 0x8000_0000_0000_0000 } else { b };
    x <= 0x7ff0_0000_0000_0000 && y <= 0x7ff0_0000_0000_0000 && x >= y
}

/// The side that a swipe goes to, from the bits of how far it went across and down.
pub fn classify(dx: u64, dy: u64) -> (r: Option<Dir>)
    ensures
        r == swipe_side(dx, dy),
{
    if at_least_as_large(dx, dy) {
        if at_least_as_large(dx, LEAST_WAY) {
            Some(
                if dx >= 0x8000_0000_0000_0000 {
                    Dir::Left
                } else {
                    Dir::Right
                },
            )
        } else {
            None
        }
    } else if at_least_as_large(dy, LEAST_WAY) {
        Some(
            if dy >= 0x8000_0000_0000_0000 {
                Dir::Up
            } else {
                Dir::Down
            },
        )
    } else {
        None
    }
}

/// The name of a side.
pub open spec fn side_name(d: Dir) -> Text {
    match d {
        Dir::Left => "left"@,
        Dir::Right => "right"@,
        Dir::Up => "up"@,
        Dir::Down => "down"@,
    }
}

/// The name of the gesture that a swipe made, where it made one.
pub fn swipe_name(fingers: i32, dx: u64, dy: u64) -> (r: Option<String>)
    ensures
        match swipe_side(dx, dy) {
            Some(d) => r is Some && r->0@ == "swipe"@ + crate::number::show_int(fingers as int) + "-"@
                + side_name(d),
            None => r is None,
        },
{
    match classify(dx, dy) {
        Some(d) => {
            let mut r = "swipe".to_owned();
            crate::number::push_i64(&mut r, fingers as i64);
            r.append("-");
            r.append(
                match d {
                    Dir::Left => "left",
                    Dir::Right => "right",
                    Dir::Up => "up",
                    Dir::Down => "down",
                },
            );
            Some(r)
        },
        None => None,
    }
}

// --- bindings ----------------------------------------------------------------------------------

/// `gesturebind <gesture> <command>...`.
pub open spec fn gesturebind(w: World, a: Seq<Text>) -> (World, Text) {
    if a.len() < 2 {
        (w, err_text("gesturebind: expected <swipeN-dir> <command...>"@))
    } else {
        match gesture_text(a[0]) {
            Err(e) => (w, err_text("gesturebind: "@ + e)),
            Ok(g) => (World { gesturebinds: put(w.gesturebinds, g, a.skip(1)), ..w }, ok_text()),
        }
    }
}

pub fn cmd_gesturebind(state: &mut State, a: &[String]) -> (r: String)
    requires
        old(state)@.wf(),
    ensures
        (final(state)@, r@) == gesturebind(old(state)@, a.deep_view()),
        final(state)@.wf(),
{
    if a.len() < 2 {
        return err("gesturebind: expected <swipeN-dir> <command...>");
    }
    assert(a.deep_view()[0] == a@[0]@);
    match parse_spec(a[0].as_str()) {
        Err(e) => err(two("gesturebind: ", e.as_str()).as_str()),
        Ok(g) => {
            put_name(&mut state.gesturebinds, g, args_from(a, 1));
            ok()
        },
    }
}

/// `gestureunbind [gesture|--all]`.
pub open spec fn gestureunbind(w: World, a: Seq<Text>) -> (World, Text) {
    if a.len() == 0 || a[0] == "--all"@ {
        (World { gesturebinds: Seq::empty(), ..w }, ok_text())
    } else {
        match gesture_text(a[0]) {
            Err(e) => (w, err_text("gestureunbind: "@ + e)),
            Ok(g) => if value_of(w.gesturebinds, g) is Some {
                (World { gesturebinds: drop_key(w.gesturebinds, g), ..w }, ok_text())
            } else {
                (w, err_text("gestureunbind: no binding for "@ + g))
            },
        }
    }
}

pub fn cmd_gestureunbind(state: &mut State, a: &[String]) -> (r: String)
    requires
        old(state)@.wf(),
    ensures
        (final(state)@, r@) == gestureunbind(old(state)@, a.deep_view()),
        final(state)@.wf(),
{
    assert(a@.len() > 0 ==> a.deep_view()[0] == a@[0]@);
    if a.len() == 0 || same(a[0].as_str(), "--all") {
        state.gesturebinds.clear();
        assert(state@.gesturebinds =~= Seq::empty());
        return ok();
    }
    match parse_spec(a[0].as_str()) {
        Err(e) => err(two("gestureunbind: ", e.as_str()).as_str()),
        Ok(g) => if remove_name(&mut state.gesturebinds, g.as_str()) {
            ok()
        } else {
            err(two("gestureunbind: no binding for ", g.as_str()).as_str())
        },
    }
}

/// The command that a gesture is bound to.
pub fn gesture_command(state: &State, name: &str) -> (r: Option<Vec<String>>)
    ensures
        r.deep_view() == value_of(state@.gesturebinds, name@),
{
    let i: usize = find_name(&state.gesturebinds, name);
    if i < state.gesturebinds.len() {
        assert(state@.gesturebinds[i as int].1 == state.gesturebinds@[i as int].1.deep_view());
        let r = args_from(state.gesturebinds[i].1.as_slice(), 0);
        assert(r.deep_view() =~= state.gesturebinds@[i as int].1.deep_view());
        Some(r)
    } else {
        None
    }
}

} // verus!
