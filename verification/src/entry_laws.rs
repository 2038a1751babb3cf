//! What desktop entries and the menus of tray items say, and how what they offer is found.

use vstd::prelude::*;
use crate::launcher::{
    app_place, by_name, cleaned, described, entry_app, entry_line, entry_lines, keyed, lowercase, matches_of, opened,
    rank, scores_of, search, stroke_of, visible_text, without_codes, Entry, LauncherModel, Stroke,
};
use crate::text::{after, is_white, lower, trimmed, Class, Text};
use crate::table::text_before;
use crate::tray_menu::{as_number, item_of, item_with, items_of, property, unmarked, ItemModel, MenuValue};
use crate::tray_watch::{item_key, item_place, menu_place, without_text};

verus! {

// --- desktop entries --------------------------------------------------------------------

proof fn lemma_trimmed(s: Text)
    requires
        s.len() > 0,
        !is_white(s[0]),
        !is_white(s.last()),
    ensures
        trimmed(s) == s,
{
    assert(!Class::White.has(s[0]));
    assert(!Class::White.has(s.last()));
}

proof fn lemma_own(key: Text, v: Text)
    ensures
        after(key + v, key) == Some(v),
{
    assert((key + v).take(key.len() as int) =~= key);
    assert((key + v).skip(key.len() as int) =~= v);
}

proof fn lemma_other(key: Text, v: Text, other: Text, i: int)
    requires
        0 <= i < key.len(),
        i < other.len(),
        key[i] != other[i],
    ensures
        after(key + v, other) is None,
{
    if (key + v).len() >= other.len() && (key + v).take(other.len() as int) == other {
        assert((key + v).take(other.len() as int)[i] == key[i]);
    }
}

proof fn lemma_keys()
    ensures
        "Name="@.len() == 5 && "Name="@[0] == 'N' && "Name="@[1] == 'a',
        "Exec="@.len() == 5 && "Exec="@[0] == 'E',
        "Type="@.len() == 5 && "Type="@[0] == 'T',
        "NoDisplay="@.len() == 10 && "NoDisplay="@[0] == 'N' && "NoDisplay="@[1] == 'o',
        "Hidden="@.len() == 7 && "Hidden="@[0] == 'H',
        "[Desktop Entry]"@.len() == 15 && "[Desktop Entry]"@[0] == '[' && "[Desktop Entry]"@[14] == ']',
        !is_white('N') && !is_white('E') && !is_white('T') && !is_white('H') && !is_white('[') && !is_white(']'),
{
    reveal_strlit("Name=");
    reveal_strlit("Exec=");
    reveal_strlit("Type=");
    reveal_strlit("NoDisplay=");
    reveal_strlit("Hidden=");
    reveal_strlit("[Desktop Entry]");
}

/// Each line of the group sets what it names and nothing else: of names and commands the
/// first counts, of kinds the last, and what is hidden once stays so.
pub proof fn law_entry_line(e: Entry, v: Text)
    requires
        e.inside,
        v.len() > 0,
        !is_white(v.last()),
    ensures
        entry_line(e, "Name="@ + v) == (Entry {
            name: if e.name is Some {
                e.name
            } else {
                Some(v)
            },
            ..e
        }),
        entry_line(e, "Exec="@ + v) == (Entry {
            command: if e.command is Some {
                e.command
            } else {
                Some(v)
            },
            ..e
        }),
        entry_line(e, "Type="@ + v) == (Entry { kind: Some(v), ..e }),
        lower(v) == "true"@ ==> entry_line(e, "NoDisplay="@ + v) == (Entry { hidden: true, ..e }),
        lower(v) == "true"@ ==> entry_line(e, "Hidden="@ + v) == (Entry { hidden: true, ..e }),
        lower(v) != "true"@ ==> entry_line(e, "NoDisplay="@ + v) == e && entry_line(e, "Hidden="@ + v) == e,
        entry_line(e, "[Desktop Entry]"@) == e,
{
    lemma_keys();
    lemma_trimmed("Name="@ + v);
    lemma_trimmed("Exec="@ + v);
    lemma_trimmed("Type="@ + v);
    lemma_trimmed("NoDisplay="@ + v);
    lemma_trimmed("Hidden="@ + v);
    lemma_trimmed("[Desktop Entry]"@);
    lemma_own("Name="@, v);
    lemma_own("Exec="@, v);
    lemma_own("Type="@, v);
    lemma_own("NoDisplay="@, v);
    lemma_own("Hidden="@, v);
    lemma_other("Exec="@, v, "Name="@, 0);
    lemma_other("Type="@, v, "Name="@, 0);
    lemma_other("Type="@, v, "Exec="@, 0);
    lemma_other("NoDisplay="@, v, "Name="@, 1);
    lemma_other("NoDisplay="@, v, "Exec="@, 0);
    lemma_other("NoDisplay="@, v, "Type="@, 0);
    lemma_other("Hidden="@, v, "Name="@, 0);
    lemma_other("Hidden="@, v, "Exec="@, 0);
    lemma_other("Hidden="@, v, "Type="@, 0);
    lemma_other("Hidden="@, v, "NoDisplay="@, 0);
}

/// Lines outside the group say nothing, until it begins; another group ends it.
pub proof fn law_entry_group(e: Entry, line: Text)
    requires
        line.len() > 0,
        !is_white(line[0]),
        !is_white(line.last()),
    ensures
        !e.inside && line[0] != '[' ==> entry_line(e, line) == e,
        line == "[Desktop Entry]"@ ==> entry_line(e, line) == (Entry { inside: true, ..e }),
        line[0] == '[' && line != "[Desktop Entry]"@ ==> entry_line(e, line) == (Entry { inside: false, ..e }),
        entry_lines(Seq::empty()) == (Entry { inside: false, name: None, command: None, kind: None, hidden: false }),
{
    lemma_keys();
    lemma_trimmed(line);
}

/// An entry is offered where it is an application that is not hidden and has a name and
/// something to run; under that name, and with that to run.
pub proof fn law_offered(e: Entry)
    ensures
        entry_app(e) is Some <==> !e.hidden && (e.kind is None || e.kind == Some("Application"@)) && e.name is Some
            && e.command is Some && cleaned(e.command->0).len() > 0,
        entry_app(e) is Some ==> entry_app(e)->0 == (e.name->0, cleaned(e.command->0)),
{
}

/// A field code is left out of a command with its sign; all else stays.
pub proof fn law_codes(before: Text, c: char, behind: Text)
    requires
        !before.contains('%'),
    ensures
        without_codes(before) == before,
        without_codes(before + seq!['%', c] + behind) == before + without_codes(behind),
        without_codes(before.push('%')) == before,
    decreases before.len(),
{
    if before.len() == 0 {
        let s = before + seq!['%', c] + behind;
        assert(s.len() == 2 + behind.len());
        assert(s[0] == '%');
        assert(s.skip(2) =~= behind);
        assert(before + without_codes(behind) =~= without_codes(behind));
        assert(before.push('%')[0] == '%');
        assert(without_codes(before.push('%')) =~= before);
    } else {
        let rest = before.skip(1);
        assert(before[0] != '%');
        assert(!rest.contains('%')) by {
            if rest.contains('%') {
                let i = choose|i: int| 0 <= i < rest.len() && rest[i] == '%';
                assert(before[i + 1] == '%');
            }
        }
        law_codes(rest, c, behind);
        assert(seq![before[0]] + rest =~= before);
        let s = before + seq!['%', c] + behind;
        assert(s[0] == before[0]);
        assert(s.skip(1) =~= rest + seq!['%', c] + behind);
        assert(seq![before[0]] + (rest + without_codes(behind)) =~= before + without_codes(behind));
        let p = before.push('%');
        assert(p[0] == before[0]);
        assert(p.skip(1) =~= rest.push('%'));
    }
}

/// Of files of one name only the first is read.
pub proof fn law_first_file(files: Seq<(Text, Option<Text>)>, name: Text, text: Text)
    ensures
        (exists|i: int| 0 <= i < files.len() && (#[trigger] files[i]).0 == name) ==> described(
            files.push((name, Some(text))),
        ) == described(files),
        (forall|i: int| 0 <= i < files.len() ==> (#[trigger] files[i]).0 != name) && crate::launcher::app_text(text) is Some
            ==> described(files.push((name, Some(text)))) == described(files).push(crate::launcher::app_text(text)->0),
        described(files.push((name, None))) == described(files),
{
    assert(files.push((name, Some(text))).drop_last() =~= files);
    assert(files.push((name, None)).drop_last() =~= files);
}

proof fn lemma_app_place(apps: Seq<(Text, Text)>, name: Text)
    ensures
        0 <= app_place(apps, name) <= apps.len(),
        app_place(apps, name) < apps.len() ==> text_before(
            lowercase(name),
            lowercase(apps[app_place(apps, name)].0),
        ),
        forall|i: int|
            0 <= i < app_place(apps, name) ==> !text_before(lowercase(name), lowercase((#[trigger] apps[i]).0)),
    decreases apps.len(),
{
    if apps.len() > 0 && !text_before(lowercase(name), lowercase(apps[0].0)) {
        lemma_app_place(apps.drop_first(), name);
        let p = app_place(apps, name);
        assert forall|i: int| 0 <= i < p implies !text_before(lowercase(name), lowercase((#[trigger] apps[i]).0)) by {
            if i > 0 {
                assert(apps.drop_first()[i - 1] == apps[i]);
            }
        }
        if p < apps.len() {
            assert(apps.drop_first()[p - 1] == apps[p]);
        }
    }
}

/// An application goes behind those whose names do not come after its own, and right before
/// the first whose does; none is lost.
pub proof fn law_by_name(apps: Seq<(Text, Text)>, app: (Text, Text))
    ensures
        ({
            let before = by_name(apps);
            let now = by_name(apps.push(app));
            &&& exists|p: int|
                0 <= p <= before.len() && now == #[trigger] before.insert(p, app) && (p < before.len() ==> text_before(
                    lowercase(app.0),
                    lowercase(before[p].0),
                )) && (p > 0 ==> !text_before(lowercase(app.0), lowercase(before[p - 1].0)))
        }),
{
    assert(apps.push(app).drop_last() =~= apps);
    let before = by_name(apps);
    lemma_app_place(before, app.0);
    let p = app_place(before, app.0);
    assert(by_name(apps.push(app)) == before.insert(p, app));
}

// --- the launcher -----------------------------------------------------------------------

/// What a key does in the launcher; every other key types what it types.
pub proof fn law_strokes(sym: u32, text: Text)
    ensures
        stroke_of(0xff1b, text) == Stroke::Escape,
        stroke_of(0xff0d, text) == Stroke::Enter,
        stroke_of(0xff8d, text) == Stroke::Enter,
        stroke_of(0xff08, text) == Stroke::BackSpace,
        stroke_of(0xff52, text) == Stroke::Up,
        stroke_of(0xff54, text) == Stroke::Down,
        stroke_of(0xff09, text) == Stroke::Down,
        sym < 0xff00 ==> stroke_of(sym, text) == Stroke::Other(text),
{
}

/// The entry that counts more goes first, and of two that count alike the shorter.
pub proof fn law_best_first(entries: Seq<Text>, query: Text, a: int, b: int)
    requires
        entries.len() <= usize::MAX,
        0 <= a < b < matches_of(entries, query).len(),
    ensures
        ({
            let x = matches_of(entries, query)[a] as int;
            let y = matches_of(entries, query)[b] as int;
            let p = crate::launcher::fuzzy(query, entries[x]);
            let q = crate::launcher::fuzzy(query, entries[y]);
            &&& 0 <= x < entries.len() && 0 <= y < entries.len() && x != y
            &&& p is Some && q is Some && p->0 >= q->0
            &&& p->0 == q->0 ==> crate::launcher::byte_len(entries[x]) <= crate::launcher::byte_len(entries[y])
            &&& p->0 == q->0 && crate::launcher::byte_len(entries[x]) == crate::launcher::byte_len(entries[y]) ==> x < y
        }),
{
    crate::launcher::law_ranked(entries, scores_of(entries, query), entries.len());
    let m = matches_of(entries, query);
    let x = m[a];
    let y = m[b];
    let scores = scores_of(entries, query);
    assert(scores[x as int] == crate::launcher::fuzzy(query, entries[x as int]));
    assert(scores[y as int] == crate::launcher::fuzzy(query, entries[y as int]));
    assert(rank(entries, scores, x).0 == scores[x as int]->0);
    assert(rank(entries, scores, y).0 == scores[y as int]->0);
}

/// A text that is found in one piece counts one for each character, five for each that
/// follows on the one before, and three for each that starts a word.
pub proof fn law_in_one_piece(q: Text, starts: Seq<bool>, n: nat)
    requires
        0 < n <= q.len() == starts.len(),
        starts[0],
        forall|i: int| 0 < i < n ==> !#[trigger] starts[i],
    ensures
        search(q, q, starts, n).found == n,
        search(q, q, starts, n).points == n + 5 * (n - 1) + 3,
        search(q, q, starts, n).last == n - 1,
    decreases n,
{
    if n > 1 {
        law_in_one_piece(q, starts, (n - 1) as nat);
        assert(!starts[n - 1]);
    } else {
        assert(search(q, q, starts, 0) == (crate::launcher::Search { found: 0, points: 0, last: -2 }));
    }
}

/// A character that is found apart from the one before counts one, and three more where it
/// starts a word.
pub proof fn law_apart(q: Text, t: Text, starts: Seq<bool>, n: nat)
    requires
        n < t.len() == starts.len(),
        ({
            let s = search(q, t, starts, n);
            0 <= s.found < q.len() && t[n as int] == q[s.found] && s.last < n - 1
        }),
    ensures
        search(q, t, starts, n + 1).points == search(q, t, starts, n).points + if starts[n as int] {
            4int
        } else {
            1int
        },
        search(q, t, starts, n + 1).found == search(q, t, starts, n).found + 1,
{
}

// --- the menus of tray items ------------------------------------------------------------

/// Of the pairs of one name the last counts, whether or not it is wrapped; other names are
/// as they were.
pub proof fn law_property(pairs: Seq<(MenuValue, MenuValue)>, key: MenuValue, v: MenuValue, name: Text, other: Text)
    requires
        crate::tray_menu::as_text(key) == Some(name),
    ensures
        !(v is Variant) ==> property(pairs.push((key, v)), name) == Some(v),
        v is Variant ==> property(pairs.push((key, v)), name) == Some(*v->Variant_0),
        other != name ==> property(pairs.push((key, v)), other) == property(pairs, other),
        property(Seq::empty(), name) is None,
{
    assert(pairs.push((key, v)).drop_last() =~= pairs);
}

/// An entry of which nothing is said can be seen and clicked, and is nothing else.
pub proof fn law_plain_item(number: MenuValue, children: Seq<ItemModel>)
    ensures
        ({
            let m = item_with(number, Seq::empty(), children);
            &&& m.enabled && m.visible && !m.is_separator && !m.has_submenu
            &&& m.label.len() == 0 && m.toggle_type == 0 && m.toggle_state == -1 && m.icon_name is None
            &&& m.children == children
            &&& number is I32 ==> m.id == number->I32_0
        }),
{
}

proof fn lemma_names()
    ensures
        "label"@.len() == 5 && "label"@[0] == 'l',
        "enabled"@.len() == 7 && "enabled"@[0] == 'e',
        "visible"@.len() == 7 && "visible"@[0] == 'v',
        "type"@.len() == 4,
        "children-display"@.len() == 16,
        "toggle-type"@.len() == 11,
        "toggle-state"@.len() == 12,
        "icon-name"@.len() == 9,
        "separator"@.len() == 9 && "separator"@[0] == 's',
        "submenu"@.len() == 7 && "submenu"@[0] == 's',
        "checkmark"@.len() == 9 && "checkmark"@[0] == 'c',
        "radio"@.len() == 5,
{
    reveal_strlit("label");
    reveal_strlit("enabled");
    reveal_strlit("visible");
    reveal_strlit("type");
    reveal_strlit("children-display");
    reveal_strlit("toggle-type");
    reveal_strlit("toggle-state");
    reveal_strlit("icon-name");
    reveal_strlit("separator");
    reveal_strlit("submenu");
    reveal_strlit("checkmark");
    reveal_strlit("radio");
}

/// Each property says what its name says of an entry, and nothing else.
pub proof fn law_item_said(number: MenuValue, pairs: Seq<(MenuValue, MenuValue)>, children: Seq<ItemModel>, key: MenuValue, v: MenuValue)
    ensures
        ({
            let m = item_with(number, pairs, children);
            let n = item_with(number, pairs.push((key, v)), children);
            let name = crate::tray_menu::as_text(key);
            &&& name == Some("label"@) && v is Str ==> n == (ItemModel { label: unmarked(v->Str_0@), ..m })
            &&& name == Some("enabled"@) && v is Bool ==> n == (ItemModel { enabled: v->Bool_0, ..m })
            &&& name == Some("visible"@) && v is Bool ==> n == (ItemModel { visible: v->Bool_0, ..m })
            &&& name == Some("type"@) && v is Str ==> n == (ItemModel { is_separator: v->Str_0@ == "separator"@, ..m })
            &&& name == Some("children-display"@) && v is Str ==> n == (ItemModel {
                has_submenu: v->Str_0@ == "submenu"@,
                ..m
            })
            &&& name == Some("toggle-state"@) && v is I32 ==> n == (ItemModel { toggle_state: v->I32_0, ..m })
            &&& name == Some("toggle-type"@) && v is Str && v->Str_0@ == "checkmark"@ ==> n == (ItemModel {
                toggle_type: 1,
                ..m
            })
            &&& name == Some("toggle-type"@) && v is Str && v->Str_0@ == "radio"@ ==> n == (ItemModel {
                toggle_type: 2,
                ..m
            })
            &&& name == Some("icon-name"@) && v is Str && v->Str_0@.len() > 0 ==> n == (ItemModel {
                icon_name: Some(v->Str_0@),
                ..m
            })
        }),
{
    lemma_names();
    assert(pairs.push((key, v)).drop_last() =~= pairs);
}

/// A number without a sign that is too large stands for the negative one of the same bits.
pub proof fn law_unsigned_id(u: u32)
    ensures
        u < 0x8000_0000 ==> as_number(MenuValue::U32(u)) == Some(u as i32) && (u as i32) == u,
        u >= 0x8000_0000 ==> as_number(MenuValue::U32(u)) is Some && as_number(MenuValue::U32(u))->0 == u
            - 0x1_0000_0000,
{
    assert(u >= 0x8000_0000 ==> (u as i32) == u - 0x1_0000_0000) by (bit_vector);
}

/// An entry is a structure of three, wrapped or not: its number, what is said of it, and the
/// entries below it. What is no entry is left out.
pub proof fn law_item_of(v: MenuValue, vs: Seq<MenuValue>, n: nat)
    requires
        n < vs.len(),
    ensures
        v is Structure ==> item_of(MenuValue::Variant(Box::new(v))) == item_of(v),
        v is Structure ==> (item_of(v) is Some <==> v->Structure_0@.len() >= 3),
        v is Structure && item_of(v) is Some ==> item_of(v)->0 == item_with(
            v->Structure_0@[0],
            crate::tray_menu::pairs_of(v->Structure_0@[1]),
            crate::tray_menu::items_in(v->Structure_0@[2]),
        ),
        v is Str || v is Dict || v is Array ==> item_of(v) is None,
        item_of(vs[n as int]) is Some ==> items_of(vs, n + 1) == items_of(vs, n).push(item_of(vs[n as int])->0),
        item_of(vs[n as int]) is None ==> items_of(vs, n + 1) == items_of(vs, n),
        items_of(vs, 0).len() == 0,
{
}

// --- registrations ----------------------------------------------------------------------

/// A name on the bus has its item at the usual place; a path is one of the sender's own.
pub proof fn law_item_place(bus: Text, path: Text, sender: Text)
    requires
        bus.len() > 0,
        bus[0] != '/',
        path.len() > 0,
        path[0] == '/',
    ensures
        item_place(bus, Some(sender)) == Some((bus, "/StatusNotifierItem"@)),
        item_place(bus, None) == Some((bus, "/StatusNotifierItem"@)),
        item_place(path, Some(sender)) == Some((sender, path)),
        item_place(path, None) is None,
{
}

/// An item is known by the connection that has its name.
pub proof fn law_item_key(bus: Text, owner: Text)
    requires
        bus.len() > 0,
    ensures
        bus[0] != ':' ==> item_key(bus, Some(owner)) == owner,
        bus[0] == ':' ==> item_key(bus, Some(owner)) == bus,
        item_key(bus, None) == bus,
{
}

/// A menu at the root is no menu; any other is where it says.
pub proof fn law_menu_place(path: Text)
    ensures
        path == "/"@ ==> menu_place(Some(path)) is None,
        path != "/"@ ==> menu_place(Some(path)) == Some(path),
        menu_place(None) is None,
{
}

/// A text that is taken out is not among the texts, and the others keep their order.
pub proof fn law_without_text(before: Seq<Text>, t: Text, behind: Seq<Text>)
    ensures
        without_text(before + behind, t) == without_text(before, t) + without_text(behind, t),
        !without_text(before, t).contains(t),
        !behind.contains(t) ==> without_text(behind, t) == behind,
    decreases before.len() + behind.len(),
{
    if behind.len() == 0 {
        assert(before + behind =~= before);
        assert(without_text(before, t) + without_text(behind, t) =~= without_text(before, t));
        if before.len() > 0 {
            law_without_text(before.drop_last(), t, behind);
            let a = without_text(before.drop_last(), t);
            if before.last() != t {
                assert forall|i: int| 0 <= i < a.push(before.last()).len() implies a.push(before.last())[i] != t by {
                    if i < a.len() {
                        assert(a.contains(a[i]));
                    }
                }
            }
        }
    } else {
        law_without_text(before, t, behind.drop_last());
        assert((before + behind).drop_last() =~= before + behind.drop_last());
        assert((before + behind).last() == behind.last());
        assert(without_text(before + behind, t) =~= without_text(before, t) + without_text(behind, t));
        if !behind.contains(t) {
            assert(behind[behind.len() - 1] != t);
            assert forall|i: int| 0 <= i < behind.drop_last().len() implies behind.drop_last()[i] != t by {
                assert(behind.drop_last()[i] == behind[i]);
            }
            assert(without_text(behind, t) =~= behind);
        }
    }
}

/// What is typed, or taken back, is looked for anew: the best match is marked, and the first
/// matches are seen.
pub proof fn law_looked_for_anew(l: LauncherModel, s: Text)
    ensures
        visible_text(s).len() > 0 ==> ({
            let v = keyed(l, Stroke::Other(s));
            &&& v.query == l.query + visible_text(s)
            &&& v.matches == matches_of(l.entries, v.query) && v.selected == 0 && v.scroll == 0
            &&& v.entries == l.entries && v.execs == l.execs
        }),
        l.query.len() > 0 ==> ({
            let v = keyed(l, Stroke::BackSpace);
            &&& v.query == l.query.drop_last()
            &&& v.matches == matches_of(l.entries, v.query) && v.selected == 0 && v.scroll == 0
            &&& v.entries == l.entries && v.execs == l.execs
        }),
        ({
            let v = opened(l.entries, l.execs);
            v.query.len() == 0 && v.selected == 0 && v.scroll == 0 && v.matches == matches_of(l.entries, Seq::empty())
        }),
{
}

} // verus!
