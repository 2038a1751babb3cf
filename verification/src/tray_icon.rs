//! Where the icons of tray items come from.

use vstd::prelude::*;
use crate::path::{below, from_root, join_path, starts_at_root};
use crate::reply::two;
use crate::text::{
    after, contains, fields, has_part, lines, listed, nonempty, read_list, same, split_lines,
    split_nonempty, strip_prefix, trim, trimmed, Class, Text,
};
use crate::tray::{Picture, TrayIcon};

verus! {

// --- icons that items hand over -----------------------------------------------------------

/// An icon as an item hands it over: its width, its height, and its pixels of four bytes
/// each, opacity, red, green and blue.
pub type Pixmap = (i32, i32, Seq<u8>);

/// Whether an icon has a size and all of its pixels.
pub open spec fn whole(p: Pixmap) -> bool {
    p.0 > 0 && p.1 > 0 && p.2.len() >= p.0 * p.1 * 4
}

/// The place of the widest icon that is at most 32 pixels wide, the first of those as
/// wide, among the first `n`; -1 where there is none.
pub open spec fn widest_small(ps: Seq<Pixmap>, n: nat) -> int
    decreases n,
{
    if n == 0 {
        -1
    } else {
        let best = widest_small(ps, (n - 1) as nat);
        let p = ps[n - 1];
        if whole(p) && p.0 <= 32 && (best < 0 || p.0 > ps[best].0) {
            n - 1
        } else {
            best
        }
    }
}

/// The place of the narrowest icon, the first of those as narrow, among the first `n`;
/// -1 where there is none.
pub open spec fn narrowest(ps: Seq<Pixmap>, n: nat) -> int
    decreases n,
{
    if n == 0 {
        -1
    } else {
        let best = narrowest(ps, (n - 1) as nat);
        let p = ps[n - 1];
        if whole(p) && (best < 0 || p.0 < ps[best].0) {
            n - 1
        } else {
            best
        }
    }
}

/// The icon that is taken: the widest small one, else the narrowest.
pub open spec fn best_pixmap(ps: Seq<Pixmap>) -> int {
    let small = widest_small(ps, ps.len());
    if small >= 0 {
        small
    } else {
        narrowest(ps, ps.len())
    }
}

/// An icon with the bytes of its pixels in the order that icons have here.
pub open spec fn turned(p: Pixmap) -> Picture {
    Picture {
        width: p.0 as u32,
        height: p.1 as u32,
        bgra: Seq::new((p.0 * p.1 * 4) as nat, |i: int| p.2[4 * (i / 4) + 3 - i % 4]),
    }
}

/// The icon that is taken of those that an item hands over.
pub open spec fn picked(ps: Seq<Pixmap>) -> Option<Picture> {
    let at = best_pixmap(ps);
    if at >= 0 {
        Some(turned(ps[at]))
    } else {
        None
    }
}

/// Icons as mathematical values.
pub open spec fn pixmaps(v: Seq<(i32, i32, Vec<u8>)>) -> Seq<Pixmap> {
    v.map_values(|p: (i32, i32, Vec<u8>)| (p.0, p.1, p.2@))
}

/// How many bytes an icon has.
proof fn lemma_bytes(w: i32, h: i32)
    requires
        w > 0,
        h > 0,
    ensures
        0 < w * h * 4 <= 0x7fff_ffff * 0x7fff_ffff * 4,
{
    assert(0 < w * h <= 0x7fff_ffff * 0x7fff_ffff) by (nonlinear_arith)
        requires
            0 < w <= 0x7fff_ffff,
            0 < h <= 0x7fff_ffff,
    ;
}

/// Tells whether an icon has a size and all of its pixels.
fn is_whole(p: &(i32, i32, Vec<u8>)) -> (r: bool)
    ensures
        r == whole((p.0, p.1, p.2@)),
{
    if p.0 <= 0 || p.1 <= 0 {
        return false;
    }
    proof {
        lemma_bytes(p.0, p.1);
    }
    let need: u64 = p.0 as u64 * p.1 as u64;
    assert(need == p.0 * p.1);
    p.2.len() as u128 >= need as u128 * 4
}

/// Puts the bytes of an icon's pixels in the order that icons have here.
fn turn(p: &(i32, i32, Vec<u8>)) -> (r: TrayIcon)
    requires
        whole((p.0, p.1, p.2@)),
    ensures
        r.deep_view() == turned((p.0, p.1, p.2@)),
{
    proof {
        lemma_bytes(p.0, p.1);
    }
    let ghost target = turned((p.0, p.1, p.2@)).bgra;
    assert(p.2@.len() == p.2.len());
    let n: usize = (p.0 as u64 * p.1 as u64 * 4) as usize;
    assert(n == p.0 * p.1 * 4);
    let mut bgra: Vec<u8> = Vec::new();
    let mut i: usize = 0;
    while i < n
        invariant
            i <= n <= p.2@.len(),
            n % 4 == 0,
            i % 4 == 0,
            n == target.len(),
            target == turned((p.0, p.1, p.2@)).bgra,
            bgra@ == target.take(i as int),
        decreases n - i,
    {
        bgra.push(p.2[i + 3]);
        bgra.push(p.2[i + 2]);
        bgra.push(p.2[i + 1]);
        bgra.push(p.2[i]);
        assert(4 * ((i as int) / 4) == i);
        assert((i + 1) / 4 == (i as int) / 4 && (i + 2) / 4 == (i as int) / 4 && (i + 3) / 4 == (i
            as int) / 4);
        i += 4;
        assert(bgra@ =~= target.take(i as int));
    }
    assert(target.take(i as int) =~= target);
    TrayIcon { width: p.0 as u32, height: p.1 as u32, bgra }
}

/// Takes one of the icons that an item hands over.
pub fn pick_pixmap(entries: &Vec<(i32, i32, Vec<u8>)>) -> (r: Option<TrayIcon>)
    ensures
        r.deep_view() == picked(pixmaps(entries@)),
{
    let ghost ps = pixmaps(entries@);
    let mut small: Option<usize> = None;
    let mut least: Option<usize> = None;
    let mut i: usize = 0;
    while i < entries.len()
        invariant
            i <= entries@.len() == ps.len(),
            ps == pixmaps(entries@),
            match small {
                Some(s) => s < i && whole(ps[s as int]) && widest_small(ps, i as nat) == s,
                None => widest_small(ps, i as nat) == -1,
            },
            match least {
                Some(s) => s < i && whole(ps[s as int]) && narrowest(ps, i as nat) == s,
                None => narrowest(ps, i as nat) == -1,
            },
        decreases entries@.len() - i,
    {
        let e = &entries[i];
        assert(ps[i as int] == (e.0, e.1, e.2@));
        if is_whole(e) {
            let wider: bool = match small {
                Some(s) => {
                    assert(ps[s as int].0 == entries@[s as int].0);
                    e.0 > entries[s].0
                },
                None => true,
            };
            if e.0 <= 32 && wider {
                small = Some(i);
            }
            let narrower: bool = match least {
                Some(s) => {
                    assert(ps[s as int].0 == entries@[s as int].0);
                    e.0 < entries[s].0
                },
                None => true,
            };
            if narrower {
                least = Some(i);
            }
        }
        i += 1;
    }
    let best: Option<usize> = match small {
        Some(s) => Some(s),
        None => least,
    };
    match best {
        Some(s) => {
            assert(ps[s as int] == (entries@[s as int].0, entries@[s as int].1, entries@[s as int].2@));
            Some(turn(&entries[s]))
        },
        None => None,
    }
}

/// Where the icon of an item comes from.
#[derive(Debug)]
pub enum IconSource {
    /// It was handed over.
    Given(TrayIcon),
    /// It is in the file.
    File(String),
    /// It is looked for by its name.
    Named(String),
    /// There is none.
    Nowhere,
}

/// Where the icon of an item comes from: one that is handed over, else a file that is
/// named in full, else one of the name.
pub open spec fn source_of(s: IconSource, ps: Seq<Pixmap>, name: Text) -> bool {
    match picked(ps) {
        Some(p) => s matches IconSource::Given(i) && i.deep_view() == p,
        None => if name.len() == 0 {
            s is Nowhere
        } else if from_root(name) {
            s matches IconSource::File(f) && f@ == name
        } else {
            s matches IconSource::Named(n) && n@ == name
        },
    }
}

/// Tells where the icon of an item comes from.
pub fn icon_source(entries: &Vec<(i32, i32, Vec<u8>)>, name: &str) -> (r: IconSource)
    ensures
        source_of(r, pixmaps(entries@), name@),
{
    if let Some(icon) = pick_pixmap(entries) {
        return IconSource::Given(icon);
    }
    if name.is_empty() {
        IconSource::Nowhere
    } else if starts_at_root(name) {
        IconSource::File(name.to_owned())
    } else {
        IconSource::Named(name.to_owned())
    }
}

// --- icons in files -----------------------------------------------------------------------

/// How well a file suits the tray, by the size that its path names.
pub open spec fn suits(path: Text) -> int {
    if has_part(path, "/22"@) || has_part(path, "22x22"@) {
        100
    } else if has_part(path, "/24"@) || has_part(path, "24x24"@) {
        90
    } else if has_part(path, "/32"@) || has_part(path, "32x32"@) {
        80
    } else if has_part(path, "symbolic"@) {
        10
    } else {
        50
    }
}

/// Tells how well a file suits the tray.
pub fn icon_size_score(path: &str) -> (r: i32)
    ensures
        r == suits(path@),
{
    if contains(path, "/22") || contains(path, "22x22") {
        100
    } else if contains(path, "/24") || contains(path, "24x24") {
        90
    } else if contains(path, "/32") || contains(path, "32x32") {
        80
    } else if contains(path, "symbolic") {
        10
    } else {
        50
    }
}

/// The file that suits the tray best, the first of those that suit it as well; -1 where
/// there is none.
pub open spec fn best_place(paths: Seq<Text>) -> int
    decreases paths.len(),
{
    if paths.len() == 0 {
        -1
    } else {
        let best = best_place(paths.drop_last());
        if best < 0 || suits(paths.last()) > suits(paths[best]) {
            paths.len() - 1
        } else {
            best
        }
    }
}

/// Takes the file that suits the tray best.
pub fn best_candidate(paths: &Vec<String>) -> (r: Option<String>)
    ensures
        match r {
            Some(p) => 0 <= best_place(paths.deep_view()) < paths@.len() && p@ == paths@[best_place(paths.deep_view())]@,
            None => paths@.len() == 0,
        },
{
    let ghost all = paths.deep_view();
    if paths.len() == 0 {
        return None;
    }
    let mut best: usize = 0;
    let mut score: i32 = icon_size_score(paths[0].as_str());
    let mut i: usize = 1;
    assert(all.take(1).drop_last() =~= Seq::<Text>::empty());
    assert(best_place(Seq::<Text>::empty()) == -1);
    assert(best_place(all.take(1)) == 0);
    while i < paths.len()
        invariant
            1 <= i <= paths@.len(),
            all == paths.deep_view(),
            best < i,
            best == best_place(all.take(i as int)),
            score == suits(all[best as int]),
        decreases paths@.len() - i,
    {
        assert(all.take(i + 1).drop_last() =~= all.take(i as int));
        assert(all.take(i + 1).last() == paths@[i as int]@);
        assert(all.take(i as int)[best as int] == all[best as int]);
        let s: i32 = icon_size_score(paths[i].as_str());
        if s > score {
            best = i;
            score = s;
        }
        i += 1;
    }
    assert(all.take(i as int) =~= all);
    Some(paths[best].clone())
}

/// No file suits the tray better than the one that is taken.
pub proof fn law_best_suits(paths: Seq<Text>)
    requires
        paths.len() > 0,
    ensures
        0 <= best_place(paths) < paths.len(),
        forall|i: int| 0 <= i < paths.len() ==> suits(#[trigger] paths[i]) <= suits(paths[best_place(paths)]),
    decreases paths.len(),
{
    let front = paths.drop_last();
    if front.len() == 0 {
        assert(front =~= Seq::<Text>::empty());
        assert(best_place(front) == -1);
    } else {
        law_best_suits(front);
        assert forall|i: int| 0 <= i < paths.len() implies suits(#[trigger] paths[i]) <= suits(
            paths[best_place(paths)],
        ) by {
            if i < front.len() {
                assert(front[i] == paths[i]);
            }
            assert(front[best_place(front)] == paths[best_place(front)]);
        }
    }
}

/// Whether a search through directories goes on, by how deep it is and how much it found.
pub fn walks_on(depth: usize, found: usize) -> (r: bool)
    ensures
        r == (depth <= 5 && found <= 64),
{
    depth <= 5 && found <= 64
}

/// The names of the files that an icon may be in.
pub fn icon_targets(name: &str) -> (r: Vec<String>)
    ensures
        r.deep_view() == seq![name@ + ".png"@, name@ + ".svg"@],
{
    let mut r: Vec<String> = Vec::new();
    r.push(two(name, ".png"));
    r.push(two(name, ".svg"));
    assert(r.deep_view() =~= seq![name@ + ".png"@, name@ + ".svg"@]);
    r
}

// --- where to look ------------------------------------------------------------------------

/// The theme that a line of the Qt settings names.
pub open spec fn theme_in_line(line: Text) -> Option<Text> {
    match after(trimmed(line), "icon_theme="@) {
        Some(v) => if trimmed(v).len() == 0 {
            None
        } else {
            Some(trimmed(v))
        },
        None => None,
    }
}

/// The theme that the first of some lines names.
pub open spec fn theme_in_lines(ls: Seq<Text>) -> Option<Text>
    decreases ls.len(),
{
    if ls.len() == 0 {
        None
    } else if theme_in_line(ls[0]) is Some {
        theme_in_line(ls[0])
    } else {
        theme_in_lines(ls.drop_first())
    }
}

/// Reads the theme that is set in the Qt settings.
pub fn qt_icon_theme(text: &str) -> (r: Option<String>)
    ensures
        r.deep_view() == theme_in_lines(lines(text@)),
{
    let ls = split_lines(text);
    let ghost all = ls.deep_view();
    let mut i: usize = 0;
    assert(all.skip(0) =~= all);
    while i < ls.len()
        invariant
            i <= ls@.len(),
            all == ls.deep_view(),
            all == lines(text@),
            theme_in_lines(all.skip(i as int)) == theme_in_lines(all),
        decreases ls@.len() - i,
    {
        assert(all.skip(i as int)[0] == ls@[i as int]@);
        assert(all.skip(i as int).drop_first() =~= all.skip(i + 1));
        if let Some(v) = strip_prefix(trim(ls[i].as_str()).as_str(), "icon_theme=") {
            let t = trim(v.as_str());
            if !t.as_str().is_empty() {
                return Some(t);
            }
        }
        i += 1;
    }
    None
}

/// The themes that the first line of a description that names some names.
pub open spec fn parents_in(ls: Seq<Text>) -> Option<Seq<Text>>
    decreases ls.len(),
{
    if ls.len() == 0 {
        None
    } else {
        match after(trimmed(ls[0]), "Inherits="@) {
            Some(v) => Some(listed(v)),
            None => parents_in(ls.drop_first()),
        }
    }
}

/// Reads the themes that a description names.
fn read_parents(text: &str) -> (r: Option<Vec<String>>)
    ensures
        r.deep_view() == parents_in(lines(text@)),
{
    let ls = split_lines(text);
    let ghost all = ls.deep_view();
    let mut i: usize = 0;
    assert(all.skip(0) =~= all);
    while i < ls.len()
        invariant
            i <= ls@.len(),
            all == ls.deep_view(),
            all == lines(text@),
            parents_in(all.skip(i as int)) == parents_in(all),
        decreases ls@.len() - i,
    {
        assert(all.skip(i as int)[0] == ls@[i as int]@);
        assert(all.skip(i as int).drop_first() =~= all.skip(i + 1));
        if let Some(v) = strip_prefix(trim(ls[i].as_str()).as_str(), "Inherits=") {
            return Some(read_list(v.as_str()));
        }
        i += 1;
    }
    None
}

/// The themes that the first of some descriptions that names any names. One that could
/// not be read is none.
pub open spec fn parents_of(texts: Seq<Option<Text>>) -> Seq<Text>
    decreases texts.len(),
{
    if texts.len() == 0 {
        Seq::empty()
    } else {
        match texts[0] {
            Some(t) => match parents_in(lines(t)) {
                Some(ps) => ps,
                None => parents_of(texts.drop_first()),
            },
            None => parents_of(texts.drop_first()),
        }
    }
}

/// Reads the themes that descriptions of a theme name, in the order in which they count.
pub fn theme_inherits(texts: &Vec<Option<String>>) -> (r: Vec<String>)
    ensures
        r.deep_view() == parents_of(texts.deep_view()),
{
    let ghost all = texts.deep_view();
    let mut i: usize = 0;
    assert(all.skip(0) =~= all);
    while i < texts.len()
        invariant
            i <= texts@.len(),
            all == texts.deep_view(),
            parents_of(all.skip(i as int)) == parents_of(all),
        decreases texts@.len() - i,
    {
        assert(all.skip(i as int)[0] == texts@[i as int].deep_view());
        assert(all.skip(i as int).drop_first() =~= all.skip(i + 1));
        if let Some(t) = &texts[i] {
            if let Some(ps) = read_parents(t.as_str()) {
                return ps;
            }
        }
        i += 1;
    }
    let r: Vec<String> = Vec::new();
    assert(r.deep_view() =~= Seq::<Text>::empty());
    r
}

/// A list with one more text, unless it is there already.
pub open spec fn with_text(ts: Seq<Text>, t: Text) -> Seq<Text> {
    if ts.contains(t) {
        ts
    } else {
        ts.push(t)
    }
}

/// Each of some texts, once, in the order in which they come first.
pub open spec fn once_each(ts: Seq<Text>) -> Seq<Text>
    decreases ts.len(),
{
    if ts.len() == 0 {
        ts
    } else {
        with_text(once_each(ts.drop_last()), ts.last())
    }
}

/// The themes to look in: the one that is set, those that it names, and those that all
/// fall back on.
pub open spec fn themes_to_search(set: Option<Text>, parents: Seq<Text>) -> Seq<Text> {
    let own = match set {
        Some(t) => {
            let ps = once_each(parents);
            if ps.contains(t) {
                ps
            } else {
                seq![t] + ps
            }
        },
        None => Seq::empty(),
    };
    with_text(with_text(own, "Adwaita"@), "hicolor"@)
}

/// Tells whether a string is among strings.
pub fn has_string(v: &Vec<String>, s: &str) -> (r: bool)
    ensures
        r == v.deep_view().contains(s@),
{
    let ghost all = v.deep_view();
    let mut i: usize = 0;
    while i < v.len()
        invariant
            i <= v@.len() == all.len(),
            all == v.deep_view(),
            forall|k: int| 0 <= k < i ==> #[trigger] all[k] != s@,
        decreases v@.len() - i,
    {
        assert(all[i as int] == v@[i as int]@);
        if same(v[i].as_str(), s) {
            return true;
        }
        i += 1;
    }
    false
}

/// Adds a string, unless it is there already.
pub fn add_once(v: &mut Vec<String>, s: String)
    ensures
        final(v).deep_view() == with_text(old(v).deep_view(), s@),
{
    let ghost before = v.deep_view();
    if !has_string(v, s.as_str()) {
        v.push(s);
        assert(v.deep_view() =~= before.push(s@));
    }
}

/// Tells the themes to look in.
pub fn theme_list(set: Option<String>, parents: &Vec<String>) -> (r: Vec<String>)
    ensures
        r.deep_view() == themes_to_search(set.deep_view(), parents.deep_view()),
{
    let mut themes: Vec<String> = Vec::new();
    assert(themes.deep_view() =~= Seq::<Text>::empty());
    if let Some(t) = set {
        let ghost all = parents.deep_view();
        let mut i: usize = 0;
        assert(all.take(0) =~= Seq::<Text>::empty());
        while i < parents.len()
            invariant
                i <= parents@.len(),
                all == parents.deep_view(),
                themes.deep_view() == once_each(all.take(i as int)),
            decreases parents@.len() - i,
        {
            assert(all.take(i + 1).drop_last() =~= all.take(i as int));
            assert(all.take(i + 1).last() == parents@[i as int]@);
            add_once(&mut themes, parents[i].clone());
            i += 1;
        }
        assert(all.take(i as int) =~= all);
        let ghost ps = themes.deep_view();
        if !has_string(&themes, t.as_str()) {
            themes.insert(0, t);
            assert(themes.deep_view() =~= seq![t@] + ps);
        }
    }
    add_once(&mut themes, "Adwaita".to_owned());
    add_once(&mut themes, "hicolor".to_owned());
    themes
}

/// The steps of a path that go somewhere.
pub open spec fn steps_of(path: Text) -> Seq<Text> {
    moves(nonempty(fields(path, Class::Is('/'))))
}

/// The steps that go somewhere, but that a path may start where it is.
pub open spec fn moves(steps: Seq<Text>) -> Seq<Text>
    decreases steps.len(),
{
    if steps.len() == 0 {
        steps
    } else if steps.last() == "."@ && steps.len() > 1 {
        moves(steps.drop_last())
    } else {
        moves(steps.drop_last()).push(steps.last())
    }
}

/// Whether two paths are the same, step for step.
pub open spec fn same_way(a: Text, b: Text) -> bool {
    from_root(a) == from_root(b) && if from_root(a) {
        grounded(steps_of(a)) == grounded(steps_of(b))
    } else {
        steps_of(a) == steps_of(b)
    }
}

/// The steps from the root, where a path that stays where it is goes nowhere.
pub open spec fn grounded(steps: Seq<Text>) -> Seq<Text> {
    if steps.len() > 0 && steps[0] == "."@ {
        steps.drop_first()
    } else {
        steps
    }
}

/// Whether a path is among paths, step for step.
pub open spec fn has_way(paths: Seq<Text>, p: Text) -> bool {
    exists|i: int| 0 <= i < paths.len() && same_way(#[trigger] paths[i], p)
}

/// Each of some paths, once, in the order in which they come first.
pub open spec fn ways(paths: Seq<Text>) -> Seq<Text>
    decreases paths.len(),
{
    if paths.len() == 0 {
        paths
    } else {
        let front = ways(paths.drop_last());
        if has_way(front, paths.last()) {
            front
        } else {
            front.push(paths.last())
        }
    }
}

/// The places below the directories for data.
pub open spec fn data_places(dirs: Seq<Text>) -> Seq<Text> {
    dirs.map_values(|d: Text| below(d, "icons"@))
}

/// The places where icon themes are, before any is left out: those of the user, those of
/// the system, and those below the directories for data.
pub open spec fn all_icon_places(own: Option<(Text, Text)>, dirs: Seq<Text>) -> Seq<Text> {
    (match own {
        Some(o) => seq![o.0, o.1],
        None => Seq::empty(),
    }) + seq!["/usr/local/share/icons"@, "/usr/share/icons"@] + data_places(dirs)
}

/// The steps of a path that go somewhere.
fn path_steps(path: &str) -> (r: Vec<String>)
    ensures
        r.deep_view() == steps_of(path@),
{
    let steps = split_nonempty(path, Class::Is('/'));
    let ghost all = steps.deep_view();
    let mut r: Vec<String> = Vec::new();
    let mut i: usize = 0;
    assert(all.take(0) =~= Seq::<Text>::empty());
    assert(r.deep_view() =~= Seq::<Text>::empty());
    while i < steps.len()
        invariant
            i <= steps@.len(),
            all == steps.deep_view(),
            r.deep_view() == moves(all.take(i as int)),
        decreases steps@.len() - i,
    {
        let ghost before = r.deep_view();
        assert(all.take(i + 1).drop_last() =~= all.take(i as int));
        assert(all.take(i + 1).last() == steps@[i as int]@);
        if !(i > 0 && same(steps[i].as_str(), ".")) {
            r.push(steps[i].clone());
            assert(r.deep_view() =~= before.push(steps@[i as int]@));
        }
        i += 1;
    }
    assert(all.take(i as int) =~= all);
    r
}

/// Tells whether strings are the same, from some of them on.
fn same_from(a: &Vec<String>, i0: usize, b: &Vec<String>, j0: usize) -> (r: bool)
    requires
        i0 <= a@.len(),
        j0 <= b@.len(),
    ensures
        r == (a.deep_view().skip(i0 as int) == b.deep_view().skip(j0 as int)),
{
    let ghost x = a.deep_view().skip(i0 as int);
    let ghost y = b.deep_view().skip(j0 as int);
    if a.len() - i0 != b.len() - j0 {
        assert(x.len() != y.len());
        return false;
    }
    let n: usize = a.len() - i0;
    let mut k: usize = 0;
    while k < n
        invariant
            k <= n == a@.len() - i0 == b@.len() - j0,
            a@.len() == a.len(),
            b@.len() == b.len(),
            x == a.deep_view().skip(i0 as int),
            y == b.deep_view().skip(j0 as int),
            forall|m: int| 0 <= m < k ==> #[trigger] x[m] == y[m],
        decreases n - k,
    {
        assert(x[k as int] == a@[i0 + k]@);
        assert(y[k as int] == b@[j0 + k]@);
        if !same(a[i0 + k].as_str(), b[j0 + k].as_str()) {
            assert(x != y);
            return false;
        }
        k += 1;
    }
    assert(x =~= y);
    true
}

/// Tells whether two paths are the same, step for step.
fn is_same_way(a: &str, b: &str) -> (r: bool)
    ensures
        r == same_way(a@, b@),
{
    let x = path_steps(a);
    let y = path_steps(b);
    let root = starts_at_root(a);
    if root != starts_at_root(b) {
        return false;
    }
    proof {
        if x@.len() > 0 {
            assert(x.deep_view()[0] == x@[0]@);
        }
        if y@.len() > 0 {
            assert(y.deep_view()[0] == y@[0]@);
        }
    }
    let i: usize = if root && x.len() > 0 && same(x[0].as_str(), ".") {
        1
    } else {
        0
    };
    let j: usize = if root && y.len() > 0 && same(y[0].as_str(), ".") {
        1
    } else {
        0
    };
    assert(x.deep_view().skip(0) =~= x.deep_view());
    assert(y.deep_view().skip(0) =~= y.deep_view());
    assert(x@.len() > 0 ==> x.deep_view().skip(1) =~= x.deep_view().drop_first());
    assert(y@.len() > 0 ==> y.deep_view().skip(1) =~= y.deep_view().drop_first());
    same_from(&x, i, &y, j)
}

/// Drops the paths that came before.
fn drop_repeats(paths: &Vec<String>) -> (r: Vec<String>)
    ensures
        r.deep_view() == ways(paths.deep_view()),
{
    let ghost all = paths.deep_view();
    let mut r: Vec<String> = Vec::new();
    let mut i: usize = 0;
    assert(all.take(0) =~= Seq::<Text>::empty());
    assert(r.deep_view() =~= Seq::<Text>::empty());
    while i < paths.len()
        invariant
            i <= paths@.len(),
            all == paths.deep_view(),
            r.deep_view() == ways(all.take(i as int)),
        decreases paths@.len() - i,
    {
        let ghost front = r.deep_view();
        assert(all.take(i + 1).drop_last() =~= all.take(i as int));
        assert(all.take(i + 1).last() == paths@[i as int]@);
        let mut k: usize = 0;
        let mut known = false;
        while k < r.len() && !known
            invariant
                k <= r@.len() == front.len(),
                i < paths@.len(),
                front == r.deep_view(),
                !known ==> forall|m: int| 0 <= m < k ==> !same_way(#[trigger] front[m], paths@[i as int]@),
                known ==> has_way(front, paths@[i as int]@),
            decreases r@.len() - k, if known {
                0int
            } else {
                1
            },
        {
            assert(front[k as int] == r@[k as int]@);
            if is_same_way(r[k].as_str(), paths[i].as_str()) {
                known = true;
            } else {
                k += 1;
            }
        }
        if !known {
            r.push(paths[i].clone());
            assert(r.deep_view() =~= front.push(paths@[i as int]@));
        }
        i += 1;
    }
    assert(all.take(i as int) =~= all);
    r
}

/// Lists the places where icon themes are.
fn list_places(own: Option<(String, String)>, dirs: &Vec<String>) -> (r: Vec<String>)
    ensures
        r.deep_view() == ways(all_icon_places(own.deep_view(), dirs.deep_view())),
{
    let ghost whole = all_icon_places(own.deep_view(), dirs.deep_view());
    let mut all: Vec<String> = Vec::new();
    let ghost head = match own.deep_view() {
        Some(o) => seq![o.0, o.1],
        None => Seq::empty(),
    };
    if let Some(o) = own {
        all.push(o.0);
        all.push(o.1);
    }
    assert(all.deep_view() =~= head);
    all.push("/usr/local/share/icons".to_owned());
    all.push("/usr/share/icons".to_owned());
    let ghost fixed = head + seq!["/usr/local/share/icons"@, "/usr/share/icons"@];
    assert(all.deep_view() =~= fixed);
    let ghost ds = dirs.deep_view();
    let mut i: usize = 0;
    assert(all.deep_view() =~= fixed + data_places(ds.take(0)));
    while i < dirs.len()
        invariant
            i <= dirs@.len(),
            ds == dirs.deep_view(),
            all.deep_view() == fixed + data_places(ds.take(i as int)),
        decreases dirs@.len() - i,
    {
        let ghost before = all.deep_view();
        let p = join_path(dirs[i].as_str(), "icons");
        all.push(p);
        assert(all.deep_view() =~= before.push(p@));
        assert(ds[i as int] == dirs@[i as int]@);
        i += 1;
        assert(all.deep_view() =~= fixed + data_places(ds.take(i as int)));
    }
    assert(ds.take(i as int) =~= ds);
    assert(all.deep_view() =~= whole);
    drop_repeats(&all)
}

/// The directories that a list names, between colons.
pub open spec fn dirs_in(list: Text) -> Seq<Text> {
    nonempty(fields(list, Class::Is(':')))
}

/// The places where the icon themes of the tray are, by the user's home and the
/// directories for data.
pub open spec fn tray_icon_places(home: Option<Text>, data_dirs: Option<Text>) -> Seq<Text> {
    ways(
        all_icon_places(
            match home {
                Some(h) => Some((h + "/.icons"@, h + "/.local/share/icons"@)),
                None => None,
            },
            dirs_in(
                match data_dirs {
                    Some(d) => d,
                    None => "/usr/local/share:/usr/share"@,
                },
            ),
        ),
    )
}

/// Lists the places where the icon themes of the tray are.
pub fn tray_icon_dirs(home: Option<String>, data_dirs: Option<String>) -> (r: Vec<String>)
    ensures
        r.deep_view() == tray_icon_places(home.deep_view(), data_dirs.deep_view()),
{
    let own: Option<(String, String)> = match home {
        Some(h) => Some((two(h.as_str(), "/.icons"), two(h.as_str(), "/.local/share/icons"))),
        None => None,
    };
    let list: String = match data_dirs {
        Some(d) => d,
        None => "/usr/local/share:/usr/share".to_owned(),
    };
    let dirs = split_nonempty(list.as_str(), Class::Is(':'));
    list_places(own, &dirs)
}

/// The places where icon themes are, by the user's home and the directories for data; not
/// all of them need be there.
pub open spec fn icon_places(home: Option<Text>, data_dirs: Option<Text>) -> Seq<Text> {
    ways(
        all_icon_places(
            match home {
                Some(h) => Some((below(h, ".icons"@), below(h, ".local/share/icons"@))),
                None => None,
            },
            match data_dirs {
                Some(d) => dirs_in(d),
                None => Seq::empty(),
            },
        ),
    )
}

/// Lists the places where icon themes are.
pub fn icon_base_dirs(home: Option<String>, data_dirs: Option<String>) -> (r: Vec<String>)
    ensures
        r.deep_view() == icon_places(home.deep_view(), data_dirs.deep_view()),
{
    let own: Option<(String, String)> = match home {
        Some(h) => Some(
            (join_path(h.as_str(), ".icons"), join_path(h.as_str(), ".local/share/icons")),
        ),
        None => None,
    };
    let dirs: Vec<String> = match data_dirs {
        Some(d) => split_nonempty(d.as_str(), Class::Is(':')),
        None => Vec::new(),
    };
    assert(data_dirs is None ==> dirs.deep_view() =~= Seq::<Text>::empty());
    list_places(own, &dirs)
}

/// The directories of a theme, below the places where themes are.
pub open spec fn theme_places(bases: Seq<Text>, theme: Text) -> Seq<Text> {
    bases.map_values(|b: Text| below(b, theme))
}

/// The directories to look through, group after group: that of the item itself, where it
/// has one, then those of each theme.
pub open spec fn search_rounds(own: Text, bases: Seq<Text>, themes: Seq<Text>) -> Seq<Seq<Text>> {
    (if own.len() == 0 {
        Seq::empty()
    } else {
        seq![seq![own]]
    }) + themes.map_values(|t: Text| theme_places(bases, t))
}

/// The directories of a theme.
fn list_theme_places(bases: &Vec<String>, theme: &str) -> (r: Vec<String>)
    ensures
        r.deep_view() == theme_places(bases.deep_view(), theme@),
{
    let ghost all = bases.deep_view();
    let mut r: Vec<String> = Vec::new();
    let mut i: usize = 0;
    assert(r.deep_view() =~= theme_places(all.take(0), theme@));
    while i < bases.len()
        invariant
            i <= bases@.len(),
            all == bases.deep_view(),
            r.deep_view() == theme_places(all.take(i as int), theme@),
        decreases bases@.len() - i,
    {
        let ghost before = r.deep_view();
        let p = join_path(bases[i].as_str(), theme);
        r.push(p);
        assert(r.deep_view() =~= before.push(p@));
        assert(all[i as int] == bases@[i as int]@);
        i += 1;
        assert(r.deep_view() =~= theme_places(all.take(i as int), theme@));
    }
    assert(all.take(i as int) =~= all);
    r
}

/// Lists the directories to look through for an icon, group after group. The first group
/// in which a file is found ends the search.
pub fn find_icon_file(own: &str, bases: &Vec<String>, themes: &Vec<String>) -> (r: Vec<Vec<String>>)
    ensures
        r.deep_view() == search_rounds(own@, bases.deep_view(), themes.deep_view()),
{
    let ghost bs = bases.deep_view();
    let ghost ts = themes.deep_view();
    let ghost head: Seq<Seq<Text>> = if own@.len() == 0 {
        Seq::empty()
    } else {
        seq![seq![own@]]
    };
    let mut r: Vec<Vec<String>> = Vec::new();
    if !own.is_empty() {
        let mut first: Vec<String> = Vec::new();
        first.push(own.to_owned());
        assert(first.deep_view() =~= seq![own@]);
        r.push(first);
    }
    assert(r.deep_view() =~= head);
    let mut i: usize = 0;
    assert(r.deep_view() =~= head + ts.take(0).map_values(|t: Text| theme_places(bs, t)));
    while i < themes.len()
        invariant
            i <= themes@.len(),
            bs == bases.deep_view(),
            ts == themes.deep_view(),
            r.deep_view() == head + ts.take(i as int).map_values(|t: Text| theme_places(bs, t)),
        decreases themes@.len() - i,
    {
        let ghost before = r.deep_view();
        let places = list_theme_places(bases, themes[i].as_str());
        let ghost p = places.deep_view();
        r.push(places);
        assert(r.deep_view() =~= before.push(p));
        assert(ts[i as int] == themes@[i as int]@);
        i += 1;
        assert(r.deep_view() =~= head + ts.take(i as int).map_values(
            |t: Text| theme_places(bs, t),
        ));
    }
    assert(ts.take(i as int) =~= ts);
    r
}

} // verus!
