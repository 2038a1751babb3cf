//! Where icons come from: which themes there are, what they say, and where they are looked for.

use vstd::prelude::*;
use crate::icon_theme::{
    distance, files_at, index_line, near_place, nearest, theme_in, theme_line, themes_in, FoundDir, IndexRead,
    ThemeModel,
};
use crate::path::below;
use crate::round_trip::{lemma_fields_concat, lemma_fields_single};
use crate::text::{after, has_part, is_white, listed, nonempty, trimmed, Class, Text};
use crate::tray_icon::{
    dirs_in, once_each, parents_in, parents_of, picked, same_way, search_rounds, source_of, suits, theme_in_line,
    theme_in_lines, theme_places, themes_to_search, ways, with_text, IconSource, Pixmap,
};

verus! {

// --- themes -----------------------------------------------------------------------------

proof fn lemma_trimmed(s: Text)
    requires
        s.len() > 0,
        !is_white(s[0]),
        !is_white(s.last()),
    ensures
        trimmed(s) == s,
{
    assert(!Class::White.has(s[0]));
    assert(!Class::White.has(s.last()));
}

/// Each line of the group of a theme says what its key says, and nothing else.
pub proof fn law_theme_line(m: ThemeModel, v: Text)
    ensures
        theme_line(m, "Name"@, v) == (ThemeModel { name: Some(v), ..m }),
        theme_line(m, "Inherits"@, v) == (ThemeModel { inherits: listed(v), ..m }),
        theme_line(m, "Directories"@, v) == (ThemeModel { has_directories_key: true, directories: listed(v), ..m }),
{
    reveal_strlit("Name");
    reveal_strlit("Inherits");
    reveal_strlit("Directories");
    assert("Name"@.len() == 4 && "Inherits"@.len() == 8 && "Directories"@.len() == 11);
}

/// A line between brackets begins a group; blank lines and those that start with `#` say
/// nothing.
pub proof fn law_index_group(s: IndexRead, name: Text, rest: Text)
    requires
        name.len() > 0,
        rest.len() > 0 ==> !is_white(rest.last()),
    ensures
        index_line(s, seq!['['] + name + seq![']']) == (IndexRead {
            group: name,
            seen: s.seen || name == "Icon Theme"@,
            ..s
        }),
        index_line(s, seq!['#'] + rest) == s,
        index_line(s, Seq::empty()) == s,
{
    let line = seq!['['] + name + seq![']'];
    assert(line[0] == '[');
    assert(line.last() == ']');
    lemma_trimmed(line);
    reveal_strlit("[");
    assert("["@ =~= seq!['[']);
    assert(line.take(1) =~= "["@);
    assert(line.skip(1) =~= name + seq![']']);
    assert((name + seq![']']).drop_last() =~= name);
    let note = seq!['#'] + rest;
    assert(note[0] == '#');
    lemma_trimmed(note);
}

/// A directory holds a theme where it is described as one, is not one of those that all fall
/// back on, and has more than cursors. It is shown by its name, or else by that of the
/// directory.
pub proof fn law_theme_found(d: FoundDir)
    ensures
        d.name == "hicolor"@ || d.name == "default"@ ==> theme_in(d) is None,
        d.index is None ==> theme_in(d) is None,
        theme_in(d) is Some ==> theme_in(d)->Some_0.0 == d.name,
        d.name != "hicolor"@ && d.name != "default"@ && d.index is Some && crate::icon_theme::index_of(d.index->0) is Some
            && !d.cursors ==> theme_in(d) is Some,
        theme_in(d) is Some && crate::icon_theme::index_of(d.index->0)->0.name is Some ==> theme_in(d)->Some_0.1
            == crate::icon_theme::index_of(d.index->0)->0.name->0,
        theme_in(d) is Some && crate::icon_theme::index_of(d.index->0)->0.name is None ==> theme_in(d)->Some_0.1 == d.name,
{
}

/// Of the directories of one name the first counts.
pub proof fn law_first_theme(dirs: Seq<FoundDir>, d: FoundDir)
    requires
        theme_in(d) is Some,
    ensures
        (exists|i: int| 0 <= i < themes_in(dirs).len() && (#[trigger] themes_in(dirs)[i]).0 == d.name) ==> themes_in(
            dirs.push(d),
        ) == themes_in(dirs),
        (forall|i: int| 0 <= i < themes_in(dirs).len() ==> (#[trigger] themes_in(dirs)[i]).0 != d.name) ==> themes_in(
            dirs.push(d),
        ) == themes_in(dirs).push(theme_in(d)->0),
{
    assert(dirs.push(d).drop_last() =~= dirs);
}

// --- where the tray looks ---------------------------------------------------------------

/// A file of the size that the tray shows suits it best, one that is a little larger less,
/// and one that is only a shape least.
pub proof fn law_suits(a: Text, b: Text)
    ensures
        has_part(a, "22x22"@) ==> suits(a) >= suits(b),
        has_part(a, "/22"@) ==> suits(a) >= suits(b),
        has_part(a, "22x22"@) && !has_part(b, "22x22"@) && !has_part(b, "/22"@) ==> suits(a) > suits(b),
        has_part(a, "24x24"@) && !has_part(b, "22x22"@) && !has_part(b, "/22"@) ==> suits(a) >= suits(b),
        has_part(a, "24x24"@) && has_part(b, "32x32"@) && !has_part(b, "22x22"@) && !has_part(b, "/22"@) && !has_part(
            b,
            "/24"@,
        ) && !has_part(b, "24x24"@) ==> suits(a) > suits(b),
        has_part(b, "symbolic"@) && suits(b) < 80 ==> suits(b) <= suits(a),
        suits(a) >= 10,
{
}

/// An icon that is handed over is taken; else a path is a file, and any other name is looked
/// for.
pub proof fn law_icon_source(s: IconSource, ps: Seq<Pixmap>, name: Text)
    requires
        source_of(s, ps, name),
    ensures
        picked(ps) is Some ==> s is Given,
        picked(ps) is None && name.len() == 0 ==> s is Nowhere,
        picked(ps) is None && name.len() > 0 && name[0] == '/' ==> s is File && s->File_0@ == name,
        picked(ps) is None && name.len() > 0 && name[0] != '/' ==> s is Named && s->Named_0@ == name,
{
}

/// Each text is there once, all of them are, and none besides.
pub proof fn law_once_each(ts: Seq<Text>)
    ensures
        forall|i: int, j: int| 0 <= i < j < once_each(ts).len() ==> once_each(ts)[i] != once_each(ts)[j],
        forall|t: Text| #[trigger] once_each(ts).contains(t) <==> ts.contains(t),
    decreases ts.len(),
{
    if ts.len() > 0 {
        let front = ts.drop_last();
        law_once_each(front);
        let before = once_each(front);
        let now = once_each(ts);
        let last = ts.last();
        assert(now == with_text(before, last));
        assert forall|i: int, j: int| 0 <= i < j < now.len() implies now[i] != now[j] by {
            if j == before.len() {
                assert(before.contains(before[i]));
            }
        }
        assert forall|t: Text| #[trigger] now.contains(t) <==> ts.contains(t) by {
            assert(before.contains(t) <==> front.contains(t));
            if now.contains(t) {
                let i = choose|i: int| 0 <= i < now.len() && now[i] == t;
                if i < before.len() {
                    assert(before[i] == t);
                    assert(front.contains(t));
                    let k = choose|k: int| 0 <= k < front.len() && front[k] == t;
                    assert(ts[k] == t);
                } else {
                    assert(ts[ts.len() - 1] == t);
                }
            }
            if ts.contains(t) {
                let k = choose|k: int| 0 <= k < ts.len() && ts[k] == t;
                if k < front.len() {
                    assert(front[k] == t);
                    assert(before.contains(t));
                    let i = choose|i: int| 0 <= i < before.len() && before[i] == t;
                    assert(now[i] == t);
                } else if before.contains(t) {
                    let i = choose|i: int| 0 <= i < before.len() && before[i] == t;
                    assert(now[i] == t);
                } else {
                    assert(now[now.len() - 1] == t);
                }
            }
        }
    }
}

/// The theme that is set is looked through before those that it names, and those that all
/// fall back on come last.
pub proof fn law_search_order(t: Text, parents: Seq<Text>)
    requires
        !parents.contains(t),
    ensures
        ({
            let all = themes_to_search(Some(t), parents);
            &&& all.len() >= 1 && all[0] == t
            &&& forall|p: Text| parents.contains(p) ==> #[trigger] all.contains(p)
            &&& all.contains("Adwaita"@) && all.contains("hicolor"@)
            &&& !parents.contains("hicolor"@) && t != "hicolor"@ ==> all.last() == "hicolor"@
            &&& themes_to_search(None, parents) == seq!["Adwaita"@, "hicolor"@]
        }),
{
    law_once_each(parents);
    let ps = once_each(parents);
    assert(!ps.contains(t));
    let own = seq![t] + ps;
    let more = with_text(own, "Adwaita"@);
    let all = with_text(more, "hicolor"@);
    reveal_strlit("Adwaita");
    reveal_strlit("hicolor");
    assert("Adwaita"@[0] == 'A' && "hicolor"@[0] == 'h');
    assert forall|p: Text| parents.contains(p) implies #[trigger] all.contains(p) by {
        assert(ps.contains(p));
        let i = choose|i: int| 0 <= i < ps.len() && ps[i] == p;
        assert(own[i + 1] == p);
        assert(more[i + 1] == p);
        assert(all[i + 1] == p);
    }
    if own.contains("Adwaita"@) {
        let i = choose|i: int| 0 <= i < own.len() && own[i] == "Adwaita"@;
        assert(all[i] == "Adwaita"@);
    } else {
        assert(more[own.len() as int] == "Adwaita"@);
        assert(all[own.len() as int] == "Adwaita"@);
    }
    if more.contains("hicolor"@) {
        assert(all.contains("hicolor"@));
    } else {
        assert(all[more.len() as int] == "hicolor"@);
    }
    if !parents.contains("hicolor"@) && t != "hicolor"@ {
        assert(!ps.contains("hicolor"@));
        if more.contains("hicolor"@) {
            let i = choose|i: int| 0 <= i < more.len() && more[i] == "hicolor"@;
            if i == 0 {
                assert(more[0] == t);
            } else if i < own.len() {
                assert(ps[i - 1] == "hicolor"@);
            }
        }
    }
    let none = Seq::<Text>::empty();
    assert(with_text(none, "Adwaita"@) =~= seq!["Adwaita"@]);
    let one = seq!["Adwaita"@];
    if one.contains("hicolor"@) {
        assert(one[0] == "hicolor"@);
    }
    assert(with_text(one, "hicolor"@) =~= seq!["Adwaita"@, "hicolor"@]);
}

/// The first line that names themes to fall back on counts, and of descriptions the first
/// that has one.
pub proof fn law_parents(names: Text, rest: Seq<Text>, line: Text, t: Text, texts: Seq<Option<Text>>)
    requires
        names.len() > 0,
        !is_white(names.last()),
        after(trimmed(line), "Inherits="@) is None,
    ensures
        parents_in(seq!["Inherits="@ + names] + rest) == Some(listed(names)),
        parents_in(seq![line] + rest) == parents_in(rest),
        parents_in(crate::text::lines(t)) is Some ==> parents_of(seq![Some(t)] + texts) == parents_in(
            crate::text::lines(t),
        )->0,
        parents_of(seq![None::<Text>] + texts) == parents_of(texts),
{
    reveal_strlit("Inherits=");
    let l = "Inherits="@ + names;
    assert(l[0] == 'I');
    assert(l.last() == names.last());
    lemma_trimmed(l);
    assert(l.take(9) =~= "Inherits="@);
    assert(l.skip(9) =~= names);
    assert((seq![l] + rest)[0] == l);
    assert((seq![line] + rest)[0] == line);
    assert((seq![line] + rest).drop_first() =~= rest);
    assert((seq![Some(t)] + texts)[0] == Some(t));
    assert((seq![None::<Text>] + texts)[0] == None::<Text>);
    assert((seq![None::<Text>] + texts).drop_first() =~= texts);
}

/// The directory of an item itself is looked through first, then each theme below each of
/// the places for themes.
pub proof fn law_search_rounds(own: Text, bases: Seq<Text>, themes: Seq<Text>, i: int, j: int)
    requires
        own.len() > 0,
        0 <= i < themes.len(),
        0 <= j < bases.len(),
    ensures
        search_rounds(own, bases, themes)[0] == seq![own],
        search_rounds(own, bases, themes).len() == themes.len() + 1,
        search_rounds(own, bases, themes)[i + 1][j] == below(bases[j], themes[i]),
        search_rounds(Seq::empty(), bases, themes).len() == themes.len(),
        search_rounds(Seq::empty(), bases, themes)[i][j] == below(bases[j], themes[i]),
{
    assert(search_rounds(own, bases, themes)[i + 1] == theme_places(bases, themes[i]));
    assert(search_rounds(Seq::empty(), bases, themes)[i] == theme_places(bases, themes[i]));
}

/// Directories in a list stand between colons, and empty ones do not count.
pub proof fn law_dirs_in(a: Text, b: Text)
    requires
        a.len() > 0,
        !a.contains(':'),
        b.len() > 0,
        !b.contains(':'),
    ensures
        dirs_in(a) == seq![a],
        dirs_in(a + seq![':'] + b) == seq![a, b],
        dirs_in(a + seq![':']) == seq![a],
{
    let k = Class::Is(':');
    let none = Seq::<char>::empty();
    assert forall|i: int| 0 <= i < a.len() implies !k.has(#[trigger] a[i]) by {
        assert(a.contains(a[i]));
    }
    assert forall|i: int| 0 <= i < b.len() implies !k.has(#[trigger] b[i]) by {
        assert(b.contains(b[i]));
    }
    lemma_fields_single(a, k);
    lemma_fields_single(b, k);
    lemma_fields_single(none, k);
    lemma_fields_concat(a, ':', b, k);
    lemma_fields_concat(a, ':', none, k);
    assert(a + seq![':'] + none =~= a + seq![':']);
    reveal_with_fuel(nonempty, 3);
    assert(seq![a].drop_last() =~= Seq::<Text>::empty());
    assert(nonempty(seq![a]) =~= seq![a]);
    assert(seq![a] + seq![b] =~= seq![a, b]);
    assert(seq![a, b].drop_last() =~= seq![a]);
    assert(nonempty(seq![a, b]) =~= seq![a, b]);
    assert((seq![a] + seq![none]).drop_last() =~= seq![a]);
    assert((seq![a] + seq![none]).last() =~= none);
}

/// A place that was named before, step for step, is not looked through again; any other
/// comes behind those before it.
pub proof fn law_ways(paths: Seq<Text>, p: Text)
    ensures
        (exists|i: int| 0 <= i < ways(paths).len() && same_way(#[trigger] ways(paths)[i], p)) ==> ways(paths.push(p))
            == ways(paths),
        (forall|i: int| 0 <= i < ways(paths).len() ==> !same_way(#[trigger] ways(paths)[i], p)) ==> ways(paths.push(p))
            == ways(paths).push(p),
{
    assert(paths.push(p).drop_last() =~= paths);
}

/// The theme that settings name is that of the first line that names one.
pub proof fn law_theme_set(name: Text, rest: Seq<Text>, line: Text)
    requires
        name.len() > 0,
        !is_white(name[0]),
        !is_white(name.last()),
        theme_in_line(line) is None,
    ensures
        theme_in_line("icon_theme="@ + name) == Some(name),
        theme_in_lines(seq!["icon_theme="@ + name] + rest) == Some(name),
        theme_in_lines(seq![line] + rest) == theme_in_lines(rest),
{
    reveal_strlit("icon_theme=");
    let l = "icon_theme="@ + name;
    assert(l[0] == 'i');
    assert(l.last() == name.last());
    lemma_trimmed(l);
    lemma_trimmed(name);
    assert(l.take(11) =~= "icon_theme="@);
    assert(l.skip(11) =~= name);
    assert((seq![l] + rest)[0] == l);
    assert((seq![line] + rest)[0] == line);
    assert((seq![line] + rest).drop_first() =~= rest);
}

// --- icons of a theme -------------------------------------------------------------------

proof fn lemma_near_place(m: ThemeModel, dirs: Seq<Text>, d: Text, target: int)
    ensures
        0 <= near_place(m, dirs, d, target) <= dirs.len(),
        near_place(m, dirs, d, target) < dirs.len() ==> distance(m, d, target) < distance(
            m,
            dirs[near_place(m, dirs, d, target)],
            target,
        ),
        forall|i: int|
            0 <= i < near_place(m, dirs, d, target) ==> distance(m, #[trigger] dirs[i], target) <= distance(m, d, target),
    decreases dirs.len(),
{
    if dirs.len() > 0 && !(distance(m, d, target) < distance(m, dirs[0], target)) {
        lemma_near_place(m, dirs.drop_first(), d, target);
        let p = near_place(m, dirs, d, target);
        assert forall|i: int| 0 <= i < p implies distance(m, #[trigger] dirs[i], target) <= distance(m, d, target) by {
            if i > 0 {
                assert(dirs.drop_first()[i - 1] == dirs[i]);
            }
        }
        if p < dirs.len() {
            assert(dirs.drop_first()[p - 1] == dirs[p]);
        }
    }
}

/// The directories of a theme are looked through from the one whose size is nearest to what
/// is wanted; of those as near in the order in which the theme names them.
pub proof fn law_nearest_first(m: ThemeModel, dirs: Seq<Text>, target: int)
    ensures
        nearest(m, dirs, target).len() == dirs.len(),
        forall|i: int, j: int|
            0 <= i < j < dirs.len() ==> distance(m, #[trigger] nearest(m, dirs, target)[i], target) <= distance(
                m,
                #[trigger] nearest(m, dirs, target)[j],
                target,
            ),
    decreases dirs.len(),
{
    if dirs.len() > 0 {
        let front = nearest(m, dirs.drop_last(), target);
        let d = dirs.last();
        law_nearest_first(m, dirs.drop_last(), target);
        lemma_near_place(m, front, d, target);
        let p = near_place(m, front, d, target);
        let all = nearest(m, dirs, target);
        assert forall|i: int, j: int| 0 <= i < j < dirs.len() implies distance(m, #[trigger] all[i], target) <= distance(
            m,
            #[trigger] all[j],
            target,
        ) by {
            if j < p {
                assert(all[i] == front[i] && all[j] == front[j]);
            } else if j == p {
                assert(all[i] == front[i]);
            } else if i > p {
                assert(all[i] == front[i - 1] && all[j] == front[j - 1]);
            } else if i == p {
                assert(all[j] == front[j - 1]);
                if p < j - 1 {
                    assert(distance(m, front[p], target) <= distance(m, front[j - 1], target));
                }
            } else {
                assert(all[i] == front[i] && all[j] == front[j - 1]);
            }
        }
    }
}

/// How far a directory is from what is wanted is how far its size is, either way.
pub proof fn law_distance(m: ThemeModel, d: Text, n: i32, target: int)
    requires
        crate::table::value_of(m.sizes, d) == Some(n),
    ensures
        n >= target ==> distance(m, d, target) == n - target,
        n <= target ==> distance(m, d, target) == target - n,
{
}

/// An icon in a directory is a picture of pixels, or else a drawing.
pub proof fn law_icon_files(base: Text, theme: Text, dir: Text, icon: Text)
    ensures
        ({
            let place = below(below(base, theme), dir);
            files_at(base, theme, dir, icon) == seq![below(place, icon + ".png"@), below(place, icon + ".svg"@)]
        }),
{
}

} // verus!
