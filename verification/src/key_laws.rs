//! What the words of a binding mean, and what becomes of bindings that are taken back.

use vstd::prelude::*;
use crate::gestures::{gesture_name, gesturebind, gestureunbind, is_side};
use crate::keys::{
    binding_words, button_binding, button_code, key_bound, key_words, keybind_to, keyunbind, modifier_bit, modifier_bits,
    mousebind, mouseunbind,
};
use crate::round_trip::{lemma_fields_concat, lemma_fields_single};
use crate::state::{Deed, World};
use crate::table::{law_drop_key, law_put, value_of};
use crate::text::{fields, lower, nonempty, Class, Text};

verus! {

/// A word of a binding: it is not empty and holds no sign.
pub open spec fn is_word(s: Text) -> bool {
    s.len() > 0 && forall|i: int| 0 <= i < s.len() ==> (#[trigger] s[i]) != '+' && s[i] != '-'
}

proof fn lemma_word(s: Text)
    requires
        is_word(s),
    ensures
        fields(s, Class::Sign) == seq![s],
{
    assert forall|i: int| 0 <= i < s.len() implies !Class::Sign.has(#[trigger] s[i]) by {}
    lemma_fields_single(s, Class::Sign);
}

proof fn lemma_one(key: Text)
    requires
        is_word(key),
    ensures
        binding_words(key) == seq![key],
{
    lemma_word(key);
    reveal_with_fuel(nonempty, 2);
    assert(seq![key].drop_last() =~= Seq::<Text>::empty());
    assert(nonempty(seq![key]) =~= seq![key]);
}

proof fn lemma_two(m: Text, sign: char, key: Text)
    requires
        is_word(m),
        is_word(key),
        sign == '+' || sign == '-',
    ensures
        binding_words(m + seq![sign] + key) == seq![m, key],
{
    lemma_word(m);
    lemma_word(key);
    lemma_fields_concat(m, sign, key, Class::Sign);
    let both = seq![m, key];
    assert(seq![m] + seq![key] =~= both);
    reveal_with_fuel(nonempty, 3);
    assert(both.drop_last() =~= seq![m]);
    assert(seq![m].drop_last() =~= Seq::<Text>::empty());
    assert(nonempty(both) =~= both);
}

proof fn lemma_three(m: Text, n: Text, sign: char, key: Text)
    requires
        is_word(m),
        is_word(n),
        is_word(key),
        sign == '+' || sign == '-',
    ensures
        binding_words(m + seq![sign] + (n + seq![sign] + key)) == seq![m, n, key],
{
    lemma_word(m);
    lemma_word(n);
    lemma_word(key);
    lemma_fields_concat(n, sign, key, Class::Sign);
    lemma_fields_concat(m, sign, n + seq![sign] + key, Class::Sign);
    let all = seq![m, n, key];
    assert(seq![m] + (seq![n] + seq![key]) =~= all);
    reveal_with_fuel(nonempty, 4);
    assert(all.drop_last() =~= seq![m, n]);
    assert(seq![m, n].drop_last() =~= seq![m]);
    assert(seq![m].drop_last() =~= Seq::<Text>::empty());
    assert(nonempty(all) =~= all);
}

/// A key alone is bound without modifiers; words before it, with a plus or a minus between,
/// are modifiers that must all be held. One that is not known is complained of.
pub proof fn law_key_words(m: Text, n: Text, sign: char, key: Text)
    requires
        is_word(m),
        is_word(n),
        is_word(key),
        sign == '+' || sign == '-',
    ensures
        key_words(key) == Ok::<(u32, Text), Text>((0u32, key)),
        modifier_bit(lower(m)) is Some ==> key_words(m + seq![sign] + key) == Ok::<(u32, Text), Text>(
            (modifier_bit(lower(m))->0, key),
        ),
        modifier_bit(lower(m)) is None ==> key_words(m + seq![sign] + key) is Err,
        modifier_bit(lower(m)) is Some && modifier_bit(lower(n)) is Some ==> key_words(
            m + seq![sign] + (n + seq![sign] + key),
        ) == Ok::<(u32, Text), Text>((modifier_bit(lower(m))->0 | modifier_bit(lower(n))->0, key)),
{
    lemma_one(key);
    lemma_two(m, sign, key);
    lemma_three(m, n, sign, key);
    assert(seq![key].drop_last() =~= Seq::<Text>::empty());
    assert(seq![m, key].drop_last() =~= seq![m]);
    assert(seq![m, n, key].drop_last() =~= seq![m, n]);
    assert(seq![m, n].drop_last() =~= seq![m]);
    assert(seq![m].drop_last() =~= Seq::<Text>::empty());
    reveal_with_fuel(modifier_bits, 3);
    if modifier_bit(lower(m)) is Some {
        let b = modifier_bit(lower(m))->0;
        assert(0u32 | b == b) by (bit_vector);
    }
}

/// A button is bound by its name, with the modifiers before it.
pub proof fn law_button_words(m: Text, sign: char)
    requires
        is_word(m),
        sign == '+' || sign == '-',
        modifier_bit(lower(m)) is Some,
    ensures
        button_binding("Button1"@) == Ok::<(u32, u32), Text>((0u32, 0x110u32)),
        button_binding(m + seq![sign] + "Button1"@) == Ok::<(u32, u32), Text>((modifier_bit(lower(m))->0, 0x110u32)),
        button_binding(m + seq![sign] + "Button2"@) == Ok::<(u32, u32), Text>((modifier_bit(lower(m))->0, 0x112u32)),
        button_binding(m + seq![sign] + "Button3"@) == Ok::<(u32, u32), Text>((modifier_bit(lower(m))->0, 0x111u32)),
{
    lemma_buttons();
    lemma_one("Button1"@);
    lemma_two(m, sign, "Button1"@);
    lemma_two(m, sign, "Button2"@);
    lemma_two(m, sign, "Button3"@);
    let none = Seq::<Text>::empty();
    assert(seq!["Button1"@].drop_last() =~= none);
    assert(seq![m, "Button1"@].drop_last() =~= seq![m]);
    assert(seq![m, "Button2"@].drop_last() =~= seq![m]);
    assert(seq![m, "Button3"@].drop_last() =~= seq![m]);
    assert(seq![m].drop_last() =~= none);
    reveal_with_fuel(modifier_bits, 2);
    let b = modifier_bit(lower(m))->0;
    assert(0u32 | b == b) by (bit_vector);
}

proof fn lemma_buttons()
    ensures
        is_word("Button1"@) && is_word("Button2"@) && is_word("Button3"@),
        button_code("Button1"@) == Some(0x110u32),
        button_code("Button2"@) == Some(0x112u32),
        button_code("Button3"@) == Some(0x111u32),
{
    reveal_strlit("Button1");
    reveal_strlit("Button2");
    reveal_strlit("Button3");
    assert("Button1"@[6] == '1' && "Button2"@[6] == '2' && "Button3"@[6] == '3');
}

/// The buttons of a mouse by their names: the left, the middle, the right, and two more.
pub proof fn law_buttons()
    ensures
        button_code("Button1"@) == Some(0x110u32),
        button_code("Button2"@) == Some(0x112u32),
        button_code("Button3"@) == Some(0x111u32),
        button_code("Button4"@) == Some(0x113u32),
        button_code("Button5"@) == Some(0x114u32),
{
    lemma_buttons();
    reveal_strlit("Button1");
    reveal_strlit("Button2");
    reveal_strlit("Button3");
    reveal_strlit("Button4");
    reveal_strlit("Button5");
    assert("Button1"@[6] == '1' && "Button2"@[6] == '2' && "Button3"@[6] == '3' && "Button4"@[6] == '4'
        && "Button5"@[6] == '5');
}

/// Each modifier has a bit of its own, under each of its names.
pub proof fn law_modifiers()
    ensures
        modifier_bit("shift"@) == Some(1u32),
        modifier_bit("control"@) == Some(4u32),
        modifier_bit("ctrl"@) == Some(4u32),
        modifier_bit("alt"@) == Some(8u32),
        modifier_bit("mod1"@) == Some(8u32),
        modifier_bit("mod3"@) == Some(32u32),
        modifier_bit("super"@) == Some(64u32),
        modifier_bit("mod4"@) == Some(64u32),
        modifier_bit("logo"@) == Some(64u32),
        modifier_bit("win"@) == Some(64u32),
        modifier_bit("mod"@) == Some(64u32),
        modifier_bit("mod5"@) == Some(128u32),
{
    reveal_strlit("shift");
    reveal_strlit("control");
    reveal_strlit("ctrl");
    reveal_strlit("alt");
    reveal_strlit("mod1");
    reveal_strlit("mod3");
    reveal_strlit("super");
    reveal_strlit("mod4");
    reveal_strlit("logo");
    reveal_strlit("win");
    reveal_strlit("mod");
    reveal_strlit("mod5");
    assert("shift"@.len() == 5 && "control"@.len() == 7 && "ctrl"@.len() == 4 && "alt"@.len() == 3);
    assert("mod1"@.len() == 4 && "mod3"@.len() == 4 && "mod4"@.len() == 4 && "mod5"@.len() == 4 && "mod"@.len() == 3);
    assert("super"@.len() == 5 && "logo"@.len() == 4 && "win"@.len() == 3);
    assert("mod1"@[3] == '1' && "mod3"@[3] == '3' && "mod4"@[3] == '4' && "mod5"@[3] == '5');
    assert("shift"@[1] == 'h' && "super"@[1] == 'u' && "alt"@[0] == 'a' && "win"@[0] == 'w' && "mod"@[0] == 'm');
    assert("logo"@[0] == 'l' && "ctrl"@[0] == 'c' && "mod1"@[0] == 'm' && "mod3"@[0] == 'm' && "mod5"@[0] == 'm'
        && "mod4"@[0] == 'm');
}

/// A key that has no number is not bound; one that has is asked for with its modifiers.
pub proof fn law_key_asked(w: World, mods: u32, name: Text, keysym: u32, a: Seq<Text>)
    requires
        w.globals.xkb_bindings,
        w.globals.seats > 0,
        a.len() > 1,
        keysym != 0,
    ensures
        key_bound(mods, name, 0) is Err,
        keybind_to(w, key_bound(mods, name, 0), a).0 == w,
        keybind_to(w, key_bound(mods, name, keysym), a).0.effects.contains(
            Deed::BindKey { id: w.next_bind, mods, keysym },
        ),
        keybind_to(World { globals: crate::state::Globals { seats: 0, ..w.globals }, ..w }, key_bound(mods, name, keysym), a).0.keybinds
            == w.keybinds,
{
    let v = keybind_to(w, key_bound(mods, name, keysym), a).0;
    assert(v.effects[w.effects.len() as int] == (Deed::BindKey { id: w.next_bind, mods, keysym }));
}

/// A button is asked for with its modifiers.
pub proof fn law_button_asked(w: World, spec: Text, mods: u32, button: u32)
    requires
        w.globals.seats > 0,
        button_binding(spec) == Ok::<(u32, u32), Text>((mods, button)),
    ensures
        mousebind(w, seq![spec, "move"@]).0.effects.contains(Deed::BindButton { id: w.next_bind, mods, button }),
{
    let v = mousebind(w, seq![spec, "move"@]).0;
    assert(v.effects[w.effects.len() as int] == (Deed::BindButton { id: w.next_bind, mods, button }));
}

/// Bindings that are taken back are gone, all of them, and nothing else is.
pub proof fn law_unbound(w: World)
    ensures
        keyunbind(w).0.keybinds.len() == 0 && keyunbind(w).0.mousebinds == w.mousebinds,
        keyunbind(w).0.effects.contains(Deed::UnbindKeys),
        mouseunbind(w).0.mousebinds.len() == 0 && mouseunbind(w).0.keybinds == w.keybinds,
        mouseunbind(w).0.effects.contains(Deed::UnbindButtons),
        keyunbind(w).0.gesturebinds == w.gesturebinds && mouseunbind(w).0.gesturebinds == w.gesturebinds,
        gestureunbind(w, Seq::empty()).0.gesturebinds.len() == 0,
        gestureunbind(w, seq!["--all"@]).0.gesturebinds.len() == 0,
        gestureunbind(w, seq!["--all"@]).0.keybinds == w.keybinds,
{
    assert(keyunbind(w).0.effects[w.effects.len() as int] == Deed::UnbindKeys);
    assert(mouseunbind(w).0.effects[w.effects.len() as int] == Deed::UnbindButtons);
}

/// A swipe that is bound leads to its command, and to the last that it was bound to; taken
/// back it leads nowhere, and other swipes are as they were.
pub proof fn law_swipe_bound(w: World, fingers: int, side: Text, command: Seq<Text>, other: Text)
    requires
        crate::table::keys_differ(w.gesturebinds),
        2 <= fingers <= 5,
        is_side(side),
        command.len() > 0,
        other != gesture_name(fingers, side),
        gesture_name(fingers, side) != "--all"@,
    ensures
        ({
            let g = gesture_name(fingers, side);
            let v = gesturebind(w, seq![g] + command).0;
            let u = gestureunbind(v, seq![g]).0;
            &&& value_of(v.gesturebinds, g) == Some(command)
            &&& value_of(v.gesturebinds, other) == value_of(w.gesturebinds, other)
            &&& value_of(u.gesturebinds, g) is None
            &&& value_of(u.gesturebinds, other) == value_of(w.gesturebinds, other)
        }),
{
    let g = gesture_name(fingers, side);
    crate::gestures::law_gesture_name_stays(fingers, side);
    let a = seq![g] + command;
    assert(a[0] == g);
    assert(a.skip(1) =~= command);
    law_put(w.gesturebinds, g, command, other);
    let v = gesturebind(w, a).0;
    law_drop_key(v.gesturebinds, g, other);
}

} // verus!
