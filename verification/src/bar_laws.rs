//! What the words of the bar say, and what its modules, the tray and menus do when they are
//! told or clicked.

use vstd::prelude::*;
use crate::bar::{ExecMode, Part, Reader};
use crate::cmd_bar::{add_executor, bar_add, bar_word, reader_word, tray_word, BarWish, ReaderWish};
use crate::menu::{columns_of, spot};
use crate::number::{law_signed_round_trip, law_unsigned_round_trip, show, show_int};
use crate::rules::DockAnchor;
use crate::state::{Deed, World};
use crate::surfaces::{
    bar_scrolled, item_place, items_with, items_without, menu_clicked, module_text_set, reader_place, zone_place,
};
use crate::text::{after, Text};
use crate::theme::{law_color_round_trip, show_color, Color};
use crate::tray::{Errand, TrayEntry};

verus! {

// --- words ------------------------------------------------------------------------------

proof fn lemma_own(key: Text, v: Text)
    ensures
        after(key + v, key) == Some(v),
{
    assert((key + v).take(key.len() as int) =~= key);
    assert((key + v).skip(key.len() as int) =~= v);
}

proof fn lemma_other(key: Text, v: Text, other: Text, i: int)
    requires
        0 <= i < key.len(),
        i < other.len(),
        key[i] != other[i],
    ensures
        after(key + v, other) is None,
{
    if (key + v).len() >= other.len() && (key + v).take(other.len() as int) == other {
        assert((key + v).take(other.len() as int)[i] == key[i]);
    }
}

/// A word with a value is none of those without one.
proof fn lemma_not_word(key: Text, v: Text)
    requires
        key.len() >= 2,
        key[0] != 't',
        key[0] != 'c',
        key[1] != 'o' || key[0] != 'b',
    ensures
        key + v != "top"@,
        key + v != "bottom"@,
        key + v != "continuous"@,
{
    lemma_keys();
    let w = key + v;
    assert(w[0] == key[0] && w[1] == key[1]);
}

proof fn lemma_keys()
    ensures
        "bg="@.len() == 3,
        "color="@.len() == 6,
        "family="@.len() == 7,
        "fg="@.len() == 3,
        "font="@.len() == 5,
        "height="@.len() == 7,
        "interval="@.len() == 9,
        "lclick="@.len() == 7,
        "margin="@.len() == 7,
        "marginx="@.len() == 8,
        "marginy="@.len() == 8,
        "mon="@.len() == 4,
        "pad="@.len() == 4,
        "rclick="@.len() == 7,
        "size="@.len() == 5,
        "spacing="@.len() == 8,
        "style="@.len() == 6,
        "bg="@[0] == 'b',
        "bg="@[1] == 'g',
        "family="@[0] == 'f',
        "family="@[1] == 'a',
        "fg="@[0] == 'f',
        "fg="@[1] == 'g',
        "font="@[0] == 'f',
        "font="@[1] == 'o',
        "height="@[0] == 'h',
        "interval="@[0] == 'i',
        "lclick="@[0] == 'l',
        "margin="@[0] == 'm',
        "margin="@[1] == 'a',
        "margin="@[6] == '=',
        "marginx="@[0] == 'm',
        "marginx="@[1] == 'a',
        "marginx="@[6] == 'x',
        "marginy="@[0] == 'm',
        "marginy="@[1] == 'a',
        "marginy="@[6] == 'y',
        "mon="@[0] == 'm',
        "mon="@[1] == 'o',
        "pad="@[0] == 'p',
        "rclick="@[0] == 'r',
        "size="@[0] == 's',
        "size="@[1] == 'i',
        "spacing="@[1] == 'p',
        "top"@.len() == 3 && "bottom"@.len() == 6 && "continuous"@.len() == 10,
        "top"@[0] == 't' && "bottom"@[1] == 'o' && "bottom"@[0] == 'b' && "continuous"@[0] == 'c',
{
    reveal_strlit("bg=");
    reveal_strlit("color=");
    reveal_strlit("family=");
    reveal_strlit("fg=");
    reveal_strlit("font=");
    reveal_strlit("height=");
    reveal_strlit("interval=");
    reveal_strlit("lclick=");
    reveal_strlit("margin=");
    reveal_strlit("marginx=");
    reveal_strlit("marginy=");
    reveal_strlit("mon=");
    reveal_strlit("pad=");
    reveal_strlit("rclick=");
    reveal_strlit("size=");
    reveal_strlit("spacing=");
    reveal_strlit("style=");
    reveal_strlit("top");
    reveal_strlit("bottom");
    reveal_strlit("continuous");
}

/// Each word of `bar create` sets what it names, to what it says, and nothing else.
pub proof fn law_bar_words(o: BarWish, n: i32, c: Color)
    requires
        n >= 1,
    ensures
        bar_word(o, "height="@ + show_int(n as int)) == Some(BarWish { height: n, ..o }),
        bar_word(o, "marginx="@ + show_int(n as int)) == Some(BarWish { margin_x: n, ..o }),
        bar_word(o, "marginy="@ + show_int(n as int)) == Some(BarWish { margin_y: n, ..o }),
        bar_word(o, "margin="@ + show_int(n as int)) == Some(BarWish { margin_x: n, margin_y: n, ..o }),
        bar_word(o, "bg="@ + show_color(c)) == Some(BarWish { bg: c, ..o }),
        bar_word(o, "fg="@ + show_color(c)) == Some(BarWish { fg: c, ..o }),
{
    lemma_keys();
    law_signed_round_trip(n as int, i32::MIN as int, i32::MAX as int);
    law_color_round_trip(c);
    {
        let v = show_int(n as int);
        lemma_own("height="@, v);
        lemma_not_word("height="@, v);
    }
    {
        let v = show_int(n as int);
        lemma_own("marginx="@, v);
        lemma_not_word("marginx="@, v);
        lemma_other("marginx="@, v, "height="@, 0);
        lemma_other("marginx="@, v, "mon="@, 1);
    }
    {
        let v = show_int(n as int);
        lemma_own("marginy="@, v);
        lemma_not_word("marginy="@, v);
        lemma_other("marginy="@, v, "height="@, 0);
        lemma_other("marginy="@, v, "mon="@, 1);
        lemma_other("marginy="@, v, "marginx="@, 6);
    }
    {
        let v = show_int(n as int);
        lemma_own("margin="@, v);
        lemma_not_word("margin="@, v);
        lemma_other("margin="@, v, "height="@, 0);
        lemma_other("margin="@, v, "mon="@, 1);
        lemma_other("margin="@, v, "marginx="@, 6);
        lemma_other("margin="@, v, "marginy="@, 6);
    }
    {
        let v = show_color(c);
        lemma_own("bg="@, v);
        lemma_not_word("bg="@, v);
        lemma_other("bg="@, v, "height="@, 0);
        lemma_other("bg="@, v, "mon="@, 0);
        lemma_other("bg="@, v, "marginx="@, 0);
        lemma_other("bg="@, v, "marginy="@, 0);
        lemma_other("bg="@, v, "margin="@, 0);
    }
    {
        let v = show_color(c);
        lemma_own("fg="@, v);
        lemma_not_word("fg="@, v);
        lemma_other("fg="@, v, "height="@, 0);
        lemma_other("fg="@, v, "mon="@, 0);
        lemma_other("fg="@, v, "marginx="@, 0);
        lemma_other("fg="@, v, "marginy="@, 0);
        lemma_other("fg="@, v, "margin="@, 0);
        lemma_other("fg="@, v, "bg="@, 0);
    }
}

/// Each word of a module sets what it names, to what it says, and nothing else.
pub proof fn law_executor_words(p: ReaderWish, n: i32, secs: u64, c: Color, t: Text)
    requires
        n >= 0,
    ensures
        reader_word(p, "interval="@ + show(secs as nat)) == Ok::<ReaderWish, Text>(ReaderWish { mode: ExecMode::Interval(secs), ..p }),
        reader_word(p, "fg="@ + show_color(c)) == Ok::<ReaderWish, Text>(ReaderWish { reader: Reader { fg: Some(c), ..p.reader }, ..p }),
        reader_word(p, "bg="@ + show_color(c)) == Ok::<ReaderWish, Text>(ReaderWish { reader: Reader { bg: Some(c), ..p.reader }, ..p }),
        reader_word(p, "pad="@ + show_int(n as int)) == Ok::<ReaderWish, Text>(ReaderWish { reader: Reader { pad: n, ..p.reader }, ..p }),
        reader_word(p, "lclick="@ + t) == Ok::<ReaderWish, Text>(ReaderWish { reader: Reader { lclick: Some(t), ..p.reader }, ..p }),
        reader_word(p, "rclick="@ + t) == Ok::<ReaderWish, Text>(ReaderWish { reader: Reader { rclick: Some(t), ..p.reader }, ..p }),
        reader_word(p, "family="@ + t) == Ok::<ReaderWish, Text>(ReaderWish { reader: Reader { family: Some(t), ..p.reader }, ..p }),
{
    lemma_keys();
    law_signed_round_trip(n as int, i32::MIN as int, i32::MAX as int);
    law_color_round_trip(c);
    law_unsigned_round_trip(secs as nat, u64::MAX as int);
    {
        let v = show(secs as nat);
        lemma_own("interval="@, v);
        lemma_not_word("interval="@, v);
    }
    {
        let v = show_color(c);
        lemma_own("fg="@, v);
        lemma_not_word("fg="@, v);
        lemma_other("fg="@, v, "interval="@, 0);
    }
    {
        let v = show_color(c);
        lemma_own("bg="@, v);
        lemma_not_word("bg="@, v);
        lemma_other("bg="@, v, "interval="@, 0);
        lemma_other("bg="@, v, "fg="@, 0);
    }
    {
        let v = show_int(n as int);
        lemma_own("pad="@, v);
        lemma_not_word("pad="@, v);
        lemma_other("pad="@, v, "interval="@, 0);
        lemma_other("pad="@, v, "fg="@, 0);
        lemma_other("pad="@, v, "bg="@, 0);
    }
    {
        let v = t;
        lemma_own("lclick="@, v);
        lemma_not_word("lclick="@, v);
        lemma_other("lclick="@, v, "interval="@, 0);
        lemma_other("lclick="@, v, "fg="@, 0);
        lemma_other("lclick="@, v, "bg="@, 0);
        lemma_other("lclick="@, v, "pad="@, 0);
    }
    {
        let v = t;
        lemma_own("rclick="@, v);
        lemma_not_word("rclick="@, v);
        lemma_other("rclick="@, v, "interval="@, 0);
        lemma_other("rclick="@, v, "fg="@, 0);
        lemma_other("rclick="@, v, "bg="@, 0);
        lemma_other("rclick="@, v, "pad="@, 0);
        lemma_other("rclick="@, v, "lclick="@, 0);
    }
    {
        let v = t;
        lemma_own("family="@, v);
        lemma_not_word("family="@, v);
        lemma_other("family="@, v, "interval="@, 0);
        lemma_other("family="@, v, "fg="@, 1);
        lemma_other("family="@, v, "bg="@, 0);
        lemma_other("family="@, v, "pad="@, 0);
        lemma_other("family="@, v, "lclick="@, 0);
        lemma_other("family="@, v, "rclick="@, 0);
    }
}

/// `top` puts a bar at the upper edge, and `bottom` at the lower.
pub proof fn law_bar_edges(o: BarWish)
    ensures
        bar_word(o, "top"@) == Some(BarWish { anchor: DockAnchor::Top, ..o }),
        bar_word(o, "bottom"@) == Some(BarWish { anchor: DockAnchor::Bottom, ..o }),
{
    lemma_keys();
}

/// `size=` sets the size of the icons of a tray, and `spacing=` the room between them.
pub proof fn law_tray_words(p: (i32, i32), n: i32)
    requires
        n >= 0,
    ensures
        tray_word(p, "size="@ + show_int(n as int)) == Ok::<(i32, i32), Text>((n, p.1)),
        tray_word(p, "spacing="@ + show_int(n as int)) == Ok::<(i32, i32), Text>((p.0, n)),
{
    lemma_keys();
    law_signed_round_trip(n as int, i32::MIN as int, i32::MAX as int);
    let v = show_int(n as int);
    lemma_own("size="@, v);
    lemma_own("spacing="@, v);
    lemma_other("spacing="@, v, "size="@, 1);
}

// --- modules ----------------------------------------------------------------------------

/// A module that is added comes behind those that there are; a command is started under the
/// number of its module.
pub proof fn law_module_added(w: World, command: Text)
    requires
        w.bar is Some,
    ensures
        ({
            let b = w.bar->0;
            let v = add_executor(w, seq![command]).0;
            let u = bar_add(w, seq!["spacer"@]).0;
            &&& v.bar is Some
            &&& v.bar->0.parts.len() == b.parts.len() + 1
            &&& v.bar->0.parts.take(b.parts.len() as int) == b.parts
            &&& v.bar->0.parts.last() is Reader
            &&& v.bar->0.parts.last()->Reader_0.id == w.next_bar_module
            &&& v.effects.contains(
                Deed::StartModule { id: w.next_bar_module, command, mode: ExecMode::Interval(0) },
            )
            &&& u.bar is Some && u.bar->0.parts == b.parts.push(Part::Spacer)
        }),
{
    let a = seq![command];
    assert(a.skip(1) =~= Seq::<Text>::empty());
    let v = add_executor(w, a).0;
    let b = w.bar->0;
    assert(v.bar->0.parts.take(b.parts.len() as int) =~= b.parts);
    assert(v.effects[w.effects.len() as int] == (Deed::StartModule {
        id: w.next_bar_module,
        command,
        mode: ExecMode::Interval(0),
    }));
    reveal_strlit("spacer");
    reveal_strlit("executor");
    reveal_strlit("separator");
    assert("spacer"@.len() == 6 && "executor"@.len() == 8 && "separator"@.len() == 9);
}

proof fn lemma_reader_place(parts: Seq<Part>, id: u64)
    ensures
        0 <= reader_place(parts, id) <= parts.len(),
        reader_place(parts, id) < parts.len() ==> parts[reader_place(parts, id)] is Reader
            && parts[reader_place(parts, id)]->Reader_0.id == id,
        forall|i: int|
            0 <= i < reader_place(parts, id) ==> !((#[trigger] parts[i]) is Reader && parts[i]->Reader_0.id == id),
    decreases parts.len(),
{
    if parts.len() > 0 && !(parts[0] is Reader && parts[0]->Reader_0.id == id) {
        lemma_reader_place(parts.drop_first(), id);
        assert forall|i: int| 0 <= i < reader_place(parts, id) implies !((#[trigger] parts[i]) is Reader
            && parts[i]->Reader_0.id == id) by {
            if i > 0 {
                assert(parts.drop_first()[i - 1] == parts[i]);
            }
        }
    }
}

/// What a command prints is shown by its own module, and by no other.
pub proof fn law_module_told(w: World, id: u64, text: Text, k: int)
    requires
        w.bar is Some,
        0 <= k < w.bar->0.parts.len(),
    ensures
        ({
            let b = w.bar->0;
            let v = module_text_set(w, id, text);
            let p = reader_place(b.parts, id);
            &&& v.bar is Some && v.bar->0.parts.len() == b.parts.len()
            &&& k != p ==> v.bar->0.parts[k] == b.parts[k]
            &&& k == p ==> v.bar->0.parts[k] == Part::Reader(Reader { text, ..b.parts[k]->Reader_0 })
            &&& b.parts[k] is Reader && b.parts[k]->Reader_0.id == id ==> p <= k
        }),
{
    lemma_reader_place(w.bar->0.parts, id);
}

/// A turn of the wheel over an item tells it which way it went: on for more, back for less.
pub proof fn law_wheel(w: World, horizontal: bool, turn: int, key: Text)
    requires
        w.bar is Some,
        w.globals.tray,
        zone_place(w.bar->0.hit, w.bar_pointer.0 as int) < w.bar->0.hit.len(),
        w.bar->0.hit[zone_place(w.bar->0.hit, w.bar_pointer.0 as int)].goal == crate::bar::Goal::Tray(key),
    ensures
        turn > 0 ==> bar_scrolled(w, horizontal, turn).effects == w.effects.push(
            Deed::TellTray(Errand::Scroll { key, delta: 1, horizontal }),
        ),
        turn < 0 ==> bar_scrolled(w, horizontal, turn).effects == w.effects.push(
            Deed::TellTray(Errand::Scroll { key, delta: -1i32, horizontal }),
        ),
        turn == 0 ==> bar_scrolled(w, horizontal, turn) == w,
{
}

// --- the tray ---------------------------------------------------------------------------

proof fn lemma_item_place(items: Seq<TrayEntry>, key: Text)
    ensures
        0 <= item_place(items, key) <= items.len(),
        item_place(items, key) < items.len() ==> items[item_place(items, key)].key == key,
        forall|i: int| 0 <= i < item_place(items, key) ==> (#[trigger] items[i]).key != key,
    decreases items.len(),
{
    if items.len() > 0 && items[0].key != key {
        lemma_item_place(items.drop_first(), key);
        assert forall|i: int| 0 <= i < item_place(items, key) implies (#[trigger] items[i]).key != key by {
            if i > 0 {
                assert(items.drop_first()[i - 1] == items[i]);
            }
        }
    }
}

/// An item that changes stays in its place, one that is new comes last, and every other stays.
pub proof fn law_item_there(items: Seq<TrayEntry>, e: TrayEntry, i: int)
    requires
        0 <= i < items.len(),
    ensures
        ({
            let now = items_with(items, e);
            let known = item_place(items, e.key) < items.len();
            &&& items[i].key != e.key ==> now[i] == items[i]
            &&& known ==> now.len() == items.len() && now[item_place(items, e.key)] == e
            &&& !known ==> now == items.push(e)
        }),
{
    lemma_item_place(items, e.key);
}

/// An item that is gone is not among the items, and every other one is.
pub proof fn law_item_gone(items: Seq<TrayEntry>, key: Text)
    ensures
        forall|i: int|
            0 <= i < items_without(items, key).len() ==> (#[trigger] items_without(items, key)[i]).key != key,
        forall|e: TrayEntry|
            e.key != key ==> (#[trigger] items_without(items, key).contains(e) <==> items.contains(e)),
    decreases items.len(),
{
    if items.len() > 0 {
        let front = items.drop_last();
        law_item_gone(front, key);
        let before = items_without(front, key);
        let now = items_without(items, key);
        assert forall|i: int| 0 <= i < now.len() implies (#[trigger] now[i]).key != key by {
            if i < before.len() {
                assert(now[i] == before[i]);
            }
        }
        assert forall|e: TrayEntry| e.key != key implies (#[trigger] now.contains(e) <==> items.contains(e)) by {
            if now.contains(e) {
                let i = choose|i: int| 0 <= i < now.len() && now[i] == e;
                if i < before.len() {
                    assert(before[i] == e);
                    assert(before.contains(e));
                    let j = choose|j: int| 0 <= j < front.len() && front[j] == e;
                    assert(items[j] == e);
                } else {
                    assert(items[items.len() - 1] == e);
                }
            }
            if items.contains(e) {
                let j = choose|j: int| 0 <= j < items.len() && items[j] == e;
                if j < front.len() {
                    assert(front[j] == e);
                    assert(before.contains(e));
                    let i = choose|i: int| 0 <= i < before.len() && before[i] == e;
                    assert(now[i] == e);
                } else {
                    assert(now[now.len() - 1] == e);
                }
            }
        }
    }
}

// --- menus ------------------------------------------------------------------------------

/// A click on a row that can be clicked and leads no further tells the item the number of
/// that row and closes the menu; on one that leads on it opens that menu; on one that cannot
/// be clicked, and on a line between rows, it does nothing; beside the menu it closes it.
pub proof fn law_menu_click(w: World, x: i32, y: i32)
    requires
        w.tray_menu is Some,
        w.globals.tray,
    ensures
        ({
            let m = w.tray_menu->0;
            let cols = columns_of(m.root, m.open_path);
            let v = menu_clicked(w, x, y);
            match spot(m.columns, x as int, y as int) {
                None => v.tray_menu is None,
                Some((c, r)) => c < cols.len() && r < cols[c as int].len() ==> {
                    let l = cols[c as int][r as int];
                    &&& l.is_separator || !l.enabled ==> v == w
                    &&& !l.is_separator && l.enabled && !l.has_submenu ==> v.tray_menu is None && v.effects.contains(
                        Deed::TellTray(Errand::MenuClicked { key: m.key, id: l.id }),
                    )
                    &&& !l.is_separator && l.enabled && l.has_submenu ==> v.tray_menu is Some
                        && v.tray_menu->0.open_path.len() > 0 && v.tray_menu->0.open_path.last() == r
                },
            }
        }),
{
    let m = w.tray_menu->0;
    let cols = columns_of(m.root, m.open_path);
    match spot(m.columns, x as int, y as int) {
        None => {},
        Some((c, r)) => {
            if c < cols.len() && r < cols[c as int].len() {
                let l = cols[c as int][r as int];
                let v = menu_clicked(w, x, y);
                if !l.is_separator && l.enabled && !l.has_submenu {
                    assert(v.effects[w.effects.len() as int] == Deed::TellTray(
                        Errand::MenuClicked { key: m.key, id: l.id },
                    ));
                }
            }
        },
    }
}

} // verus!
