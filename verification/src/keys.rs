//! Key, button and gesture bindings.

use vstd::prelude::*;
use crate::reply::{err, err_text, ok, ok_text, three, two};
use crate::state::{bump, bumped, Binding, Deed, Effect, KeyBind, MouseBind, State, World};
use crate::text::{
    chars_of, fields, find_from, lower, lowered, nonempty, same, split_nonempty, Class, Text,
};

verus! {

// --- modifiers and buttons ----------------------------------------------------------------

/// The bit of a modifier, by its name in lower case.
pub open spec fn modifier_bit(name: Text) -> Option<u32> {
    if name == "mod4"@ || name == "super"@ || name == "logo"@ || name == "win"@ || name == "mod"@ {
        Some(64u32)
    } else if name == "mod1"@ || name == "alt"@ {
        Some(8u32)
    } else if name == "control"@ || name == "ctrl"@ {
        Some(4u32)
    } else if name == "shift"@ {
        Some(1u32)
    } else if name == "mod3"@ {
        Some(32u32)
    } else if name == "mod5"@ {
        Some(128u32)
    } else {
        None
    }
}

/// The bits of modifiers, or what is said of the first that is not known.
pub open spec fn modifier_bits(names: Seq<Text>) -> Result<u32, Text>
    decreases names.len(),
{
    if names.len() == 0 {
        Ok(0u32)
    } else {
        match modifier_bits(names.drop_last()) {
            Err(e) => Err(e),
            Ok(m) => match modifier_bit(lower(names.last())) {
                Some(b) => Ok(m | b),
                None => Err("unknown modifier '"@ + lower(names.last()) + "'"@),
            },
        }
    }
}

/// The bit of a modifier, by its name in lower case.
fn find_modifier(name: &str) -> (r: Option<u32>)
    ensures
        r == modifier_bit(name@),
{
    if same(name, "mod4") || same(name, "super") || same(name, "logo") || same(name, "win") || same(
        name,
        "mod",
    ) {
        Some(64)
    } else if same(name, "mod1") || same(name, "alt") {
        Some(8)
    } else if same(name, "control") || same(name, "ctrl") {
        Some(4)
    } else if same(name, "shift") {
        Some(1)
    } else if same(name, "mod3") {
        Some(32)
    } else if same(name, "mod5") {
        Some(128)
    } else {
        None
    }
}

/// Reads the modifiers before the last word.
pub fn parse_mods(words: &Vec<String>, count: usize) -> (r: Result<u32, String>)
    requires
        count <= words@.len(),
    ensures
        match modifier_bits(words.deep_view().take(count as int)) {
            Ok(m) => r == Ok::<u32, String>(m),
            Err(e) => r is Err && r->Err_0@ == e,
        },
{
    let ghost all = words.deep_view();
    let mut mods: u32 = 0;
    let mut i: usize = 0;
    assert(all.take(0) =~= Seq::<Text>::empty());
    while i < count
        invariant
            i <= count <= words@.len(),
            all == words.deep_view(),
            modifier_bits(all.take(i as int)) == Ok::<u32, Text>(mods),
        decreases count - i,
    {
        assert(all.take(i + 1).drop_last() =~= all.take(i as int));
        assert(all.take(i + 1).last() == words@[i as int]@);
        let low = lowered(words[i].as_str());
        match find_modifier(low.as_str()) {
            Some(b) => {
                mods = mods | b;
            },
            None => {
                proof {
                    lemma_first_error(all, i as int, count as int);
                }
                return Err(three("unknown modifier '", low.as_str(), "'"));
            },
        }
        i += 1;
    }
    Ok(mods)
}

proof fn lemma_first_error(names: Seq<Text>, i: int, count: int)
    requires
        0 <= i < count <= names.len(),
        modifier_bits(names.take(i + 1)) is Err,
    ensures
        modifier_bits(names.take(count)) == modifier_bits(names.take(i + 1)),
    decreases count,
{
    if i + 1 < count {
        lemma_first_error(names, i, count - 1);
        assert(names.take(count).drop_last() =~= names.take(count - 1));
    }
}

/// The words of a binding: its parts between plus and minus signs.
pub open spec fn binding_words(spec: Text) -> Seq<Text> {
    nonempty(fields(spec, Class::Sign))
}

/// The code of a button.
pub open spec fn button_code(name: Text) -> Option<u32> {
    if name == "Button1"@ {
        Some(0x110u32)
    } else if name == "Button2"@ {
        Some(0x112u32)
    } else if name == "Button3"@ {
        Some(0x111u32)
    } else if name == "Button4"@ {
        Some(0x113u32)
    } else if name == "Button5"@ {
        Some(0x114u32)
    } else {
        None
    }
}

/// The modifiers and the button that a binding names.
pub open spec fn button_binding(spec: Text) -> Result<(u32, u32), Text> {
    let p = binding_words(spec);
    if p.len() == 0 {
        Err("empty mousebind '"@ + spec + "'"@)
    } else {
        match modifier_bits(p.drop_last()) {
            Err(e) => Err(e),
            Ok(m) => match button_code(p.last()) {
                Some(b) => Ok((m, b)),
                None => Err("unknown button '"@ + p.last() + "'"@),
            },
        }
    }
}

/// A result that says what a result of texts says.
pub open spec fn binds(r: Result<(u32, u32), String>, t: Result<(u32, u32), Text>) -> bool {
    match t {
        Ok(b) => r == Ok::<(u32, u32), String>(b),
        Err(e) => r is Err && r->Err_0@ == e,
    }
}

/// Reads the binding of a button.
pub fn parse_mousebutton(spec: &str) -> (r: Result<(u32, u32), String>)
    ensures
        binds(r, button_binding(spec@)),
{
    let p = split_nonempty(spec, Class::Sign);
    let ghost all = binding_words(spec@);
    assert(p.deep_view() == all);
    if p.len() == 0 {
        return Err(three("empty mousebind '", spec, "'"));
    }
    let last: usize = p.len() - 1;
    assert(all.drop_last() =~= all.take(last as int));
    assert(all.last() == p@[last as int]@);
    match parse_mods(&p, last) {
        Err(e) => Err(e),
        Ok(m) => {
            let name = p[last].as_str();
            let code: u32 = if same(name, "Button1") {
                0x110
            } else if same(name, "Button2") {
                0x112
            } else if same(name, "Button3") {
                0x111
            } else if same(name, "Button4") {
                0x113
            } else if same(name, "Button5") {
                0x114
            } else {
                return Err(three("unknown button '", name, "'"));
            };
            Ok((m, code))
        },
    }
}

// --- keys ---------------------------------------------------------------------------------

/// The modifiers of a key's binding and the name of its key.
pub open spec fn key_words(spec: Text) -> Result<(u32, Text), Text> {
    let p = binding_words(spec);
    if p.len() == 0 {
        Err("empty binding '"@ + spec + "'"@)
    } else {
        match modifier_bits(p.drop_last()) {
            Err(e) => Err(e),
            Ok(m) => Ok((m, p.last())),
        }
    }
}

/// The binding of a key whose number is known; zero is the number of no key.
pub open spec fn key_bound(mods: u32, name: Text, keysym: u32) -> Result<(u32, u32), Text> {
    if keysym == 0 {
        Err("unknown key '"@ + name + "'"@)
    } else {
        Ok((mods, keysym))
    }
}

/// Reads the modifiers of a key's binding and the name of its key.
pub fn parse_key_words(spec: &str) -> (r: Result<(u32, String), String>)
    ensures
        match key_words(spec@) {
            Ok((m, name)) => r is Ok && (r->Ok_0).0 == m && (r->Ok_0).1@ == name,
            Err(e) => r is Err && r->Err_0@ == e,
        },
{
    let p = split_nonempty(spec, Class::Sign);
    let ghost all = binding_words(spec@);
    assert(p.deep_view() == all);
    if p.len() == 0 {
        return Err(three("empty binding '", spec, "'"));
    }
    let last: usize = p.len() - 1;
    assert(all.drop_last() =~= all.take(last as int));
    assert(all.last() == p@[last as int]@);
    match parse_mods(&p, last) {
        Err(e) => Err(e),
        Ok(m) => Ok((m, p[last].clone())),
    }
}

/// Makes the binding of a key whose number is known.
pub fn bind_key(mods: u32, name: &str, keysym: u32) -> (r: Result<(u32, u32), String>)
    ensures
        binds(r, key_bound(mods, name@, keysym)),
{
    if keysym == 0 {
        Err(three("unknown key '", name, "'"))
    } else {
        Ok((mods, keysym))
    }
}

/// Whether a string holds a zero character, which no key's name does.
pub fn holds_zero(s: &str) -> (r: bool)
    ensures
        r == s@.contains('\0'),
{
    let v = chars_of(s);
    let i: usize = find_from(&v, 0, Class::Is('\0'));
    if i < v.len() {
        assert(s@[i as int] == '\0');
        true
    } else {
        false
    }
}

/// `keybind <key> <command>...`, once the key is known.
pub open spec fn keybind_to(
    w: World,
    bound: Result<(u32, u32), Text>,
    a: Seq<Text>,
) -> (World, Text) {
    match bound {
        Err(e) => (w, err_text("keybind: "@ + e)),
        Ok((mods, keysym)) => if !w.globals.xkb_bindings {
            (w, err_text("keybind: river_xkb_bindings_v1 unavailable"@))
        } else if w.globals.seats == 0 {
            (w, err_text("keybind: no seat available yet"@))
        } else {
            (
                (World {
                    keybinds: w.keybinds.push(
                        Binding { id: w.next_bind, spec: a[0], command: a.skip(1) },
                    ),
                    next_bind: bump(w.next_bind),
                    ..w
                }).then_do(Deed::BindKey { id: w.next_bind, mods, keysym }).manage(),
                ok_text(),
            )
        },
    }
}

/// The arguments from `from` on.
pub fn args_from(a: &[String], from: usize) -> (r: Vec<String>)
    requires
        from <= a@.len(),
    ensures
        r.deep_view() == a.deep_view().skip(from as int),
        r@.len() == a@.len() - from,
{
    let mut r: Vec<String> = Vec::new();
    let mut i: usize = from;
    while i < a.len()
        invariant
            from <= i <= a@.len(),
            r.deep_view() == a.deep_view().subrange(from as int, i as int),
            r@.len() == i - from,
        decreases a@.len() - i,
    {
        let ghost before = r.deep_view();
        r.push(a[i].clone());
        i += 1;
        assert(r.deep_view() =~= before.push(a@[i - 1]@));
        assert(a.deep_view().subrange(from as int, i as int) =~= before.push(a@[i - 1]@));
    }
    assert(a.deep_view().subrange(from as int, i as int) =~= a.deep_view().skip(from as int));
    r
}

/// Carries out `keybind` once the key is known.
pub fn keybind_known(state: &mut State, bound: Result<(u32, u32), String>, a: &[String]) -> (r: String)
    requires
        old(state)@.wf(),
        a@.len() >= 2,
    ensures
        (final(state)@, r@) == keybind_to(
            old(state)@,
            match bound {
                Ok(b) => Ok(b),
                Err(e) => Err(e@),
            },
            a.deep_view(),
        ),
        final(state)@.wf(),
{
    assert(a.deep_view()[0] == a@[0]@);
    match bound {
        Err(e) => err(two("keybind: ", e.as_str()).as_str()),
        Ok((mods, keysym)) => {
            if !state.globals.xkb_bindings {
                return err("keybind: river_xkb_bindings_v1 unavailable");
            }
            if state.globals.seats == 0 {
                return err("keybind: no seat available yet");
            }
            let id: u64 = state.next_bind;
            let bind = KeyBind { id, spec: a[0].clone(), command: args_from(a, 1) };
            state.keybinds.push(bind);
            assert(state@.keybinds =~= old(state)@.keybinds.push(bind.deep_view()));
            state.next_bind = bumped(id);
            state.perform(Effect::BindKey { id, mods, keysym });
            state.request_manage();
            ok()
        },
    }
}

/// `keyunbind`: no key bindings left.
pub open spec fn keyunbind(w: World) -> (World, Text) {
    (
        (World { keybinds: Seq::empty(), ..w }).then_do(Deed::UnbindKeys).manage(),
        ok_text(),
    )
}

pub fn cmd_keyunbind(state: &mut State) -> (r: String)
    requires
        old(state)@.wf(),
    ensures
        (final(state)@, r@) == keyunbind(old(state)@),
        final(state)@.wf(),
{
    state.keybinds.clear();
    assert(state@.keybinds =~= Seq::empty());
    state.perform(Effect::UnbindKeys);
    state.request_manage();
    ok()
}

/// `mousebind <button> <move|resize|zoom>`.
pub open spec fn mousebind(w: World, a: Seq<Text>) -> (World, Text) {
    if a.len() < 2 {
        (w, err_text("mousebind: expected <mods+ButtonN> <move|resize|zoom>"@))
    } else {
        match button_binding(a[0]) {
            Err(e) => (w, err_text("mousebind: "@ + e)),
            Ok((mods, button)) => if a[1] != "move"@ && a[1] != "resize"@ && a[1] != "zoom"@ {
                (w, err_text("mousebind: unknown action '"@ + a[1] + "'"@))
            } else if w.globals.seats == 0 {
                (w, err_text("mousebind: no seat available yet"@))
            } else {
                (
                    (World {
                        mousebinds: w.mousebinds.push(
                            MouseBind { id: w.next_bind, resize: a[1] != "move"@ },
                        ),
                        next_bind: bump(w.next_bind),
                        ..w
                    }).then_do(Deed::BindButton { id: w.next_bind, mods, button }).manage(),
                    ok_text(),
                )
            },
        }
    }
}

pub fn cmd_mousebind(state: &mut State, a: &[String]) -> (r: String)
    requires
        old(state)@.wf(),
    ensures
        (final(state)@, r@) == mousebind(old(state)@, a.deep_view()),
        final(state)@.wf(),
{
    if a.len() < 2 {
        return err("mousebind: expected <mods+ButtonN> <move|resize|zoom>");
    }
    assert(a.deep_view()[0] == a@[0]@ && a.deep_view()[1] == a@[1]@);
    match parse_mousebutton(a[0].as_str()) {
        Err(e) => err(two("mousebind: ", e.as_str()).as_str()),
        Ok((mods, button)) => {
            let action = a[1].as_str();
            let moves: bool = same(action, "move");
            if !moves && !same(action, "resize") && !same(action, "zoom") {
                return err(three("mousebind: unknown action '", action, "'").as_str());
            }
            if state.globals.seats == 0 {
                return err("mousebind: no seat available yet");
            }
            let id: u64 = state.next_bind;
            state.mousebinds.push(MouseBind { id, resize: !moves });
            state.next_bind = bumped(id);
            state.perform(Effect::BindButton { id, mods, button });
            state.request_manage();
            ok()
        },
    }
}

/// `mouseunbind`: no button bindings left.
pub open spec fn mouseunbind(w: World) -> (World, Text) {
    ((World { mousebinds: Seq::empty(), ..w }).then_do(Deed::UnbindButtons), ok_text())
}

pub fn cmd_mouseunbind(state: &mut State) -> (r: String)
    requires
        old(state)@.wf(),
    ensures
        (final(state)@, r@) == mouseunbind(old(state)@),
        final(state)@.wf(),
{
    state.mousebinds.clear();
    state.perform(Effect::UnbindButtons);
    ok()
}

} // verus!
