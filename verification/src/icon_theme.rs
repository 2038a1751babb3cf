//! Icon themes: which are installed, and which file of a theme shows an icon.

use vstd::prelude::*;
use crate::number::{parse_i32, signed32};
use crate::order::{key_order, order_by_keys};
use crate::path::{below, join_path};
use crate::reply::two;
use crate::table::{find_name, put, put_name, value_of};
use crate::text::{
    after, halves, lines, listed, lower, lowered, read_list, same, split_lines, split_once,
    strip_prefix, trim, trimmed, Class, Text,
};

verus! {

// --- the description of a theme -----------------------------------------------------------

/// What a theme says of itself.
#[derive(Debug)]
pub struct ThemeIndex {
    pub name: Option<String>,
    /// The directories of its icons.
    pub directories: Vec<String>,
    /// The themes that have what it has not.
    pub inherits: Vec<String>,
    /// The size of the icons of a directory.
    pub sizes: Vec<(String, i32)>,
    pub has_directories_key: bool,
}

/// What a theme says of itself, its strings as texts.
#[verifier::ext_equal]
pub ghost struct ThemeModel {
    pub name: Option<Text>,
    pub directories: Seq<Text>,
    pub inherits: Seq<Text>,
    pub sizes: Seq<(Text, i32)>,
    pub has_directories_key: bool,
}

impl DeepView for ThemeIndex {
    type V = ThemeModel;

    open spec fn deep_view(&self) -> ThemeModel {
        ThemeModel {
            name: self.name.deep_view(),
            directories: self.directories.deep_view(),
            inherits: self.inherits.deep_view(),
            sizes: self.sizes.deep_view(),
            has_directories_key: self.has_directories_key,
        }
    }
}

/// What was read of a description: the group that its lines are in, whether the one of
/// the theme itself was among them, and what was said.
#[verifier::ext_equal]
pub ghost struct IndexRead {
    pub group: Text,
    pub seen: bool,
    pub index: ThemeModel,
}

/// The name between brackets; the last one may be missing.
pub open spec fn group_name(rest: Text) -> Text {
    if rest.len() > 0 && rest.last() == ']' {
        rest.drop_last()
    } else {
        rest
    }
}

/// What a line of the group of the theme itself says.
pub open spec fn theme_line(m: ThemeModel, key: Text, val: Text) -> ThemeModel {
    if key == "Name"@ {
        ThemeModel { name: Some(val), ..m }
    } else if key == "Directories"@ {
        ThemeModel { has_directories_key: true, directories: listed(val), ..m }
    } else if key == "Inherits"@ {
        ThemeModel { inherits: listed(val), ..m }
    } else {
        m
    }
}

/// What a line says. Blank lines, and those that start with `#`, say nothing.
pub open spec fn index_line(s: IndexRead, line: Text) -> IndexRead {
    let l = trimmed(line);
    if l.len() == 0 || l[0] == '#' {
        s
    } else if let Some(rest) = after(l, "["@) {
        let group = group_name(rest);
        IndexRead { group, seen: s.seen || group == "Icon Theme"@, ..s }
    } else {
        let (k, v) = halves(l, Class::Is('='));
        match v {
            None => s,
            Some(v) => {
                let key = trimmed(k);
                let val = trimmed(v);
                if s.group == "Icon Theme"@ {
                    IndexRead { index: theme_line(s.index, key, val), ..s }
                } else if key == "Size"@ && signed32(val) is Some {
                    IndexRead {
                        index: ThemeModel {
                            sizes: put(s.index.sizes, s.group, signed32(val)->Some_0 as i32),
                            ..s.index
                        },
                        ..s
                    }
                } else {
                    s
                }
            },
        }
    }
}

/// What lines say.
pub open spec fn index_lines(ls: Seq<Text>) -> IndexRead
    decreases ls.len(),
{
    if ls.len() == 0 {
        IndexRead {
            group: Seq::empty(),
            seen: false,
            index: ThemeModel {
                name: None,
                directories: Seq::empty(),
                inherits: Seq::empty(),
                sizes: Seq::empty(),
                has_directories_key: false,
            },
        }
    } else {
        index_line(index_lines(ls.drop_last()), ls.last())
    }
}

/// The theme that a text describes: one that has the group of a theme.
pub open spec fn index_of(text: Text) -> Option<ThemeModel> {
    let s = index_lines(lines(text));
    if s.seen {
        Some(s.index)
    } else {
        None
    }
}

/// A description that is being read.
struct IndexReader {
    group: String,
    seen: bool,
    index: ThemeIndex,
}

impl IndexReader {
    spec fn says(&self) -> IndexRead {
        IndexRead { group: self.group@, seen: self.seen, index: self.index.deep_view() }
    }

    fn take_setting(&mut self, key: &str, val: &str)
        ensures
            final(self).says() == (IndexRead {
                index: theme_line(old(self).says().index, key@, val@),
                ..old(self).says()
            }),
    {
        if same(key, "Name") {
            self.index.name = Some(val.to_owned());
        } else if same(key, "Directories") {
            self.index.has_directories_key = true;
            self.index.directories = read_list(val);
        } else if same(key, "Inherits") {
            self.index.inherits = read_list(val);
        }
    }

    fn take_line(&mut self, line: &str)
        ensures
            final(self).says() == index_line(old(self).says(), line@),
    {
        let text = trim(line);
        let v = crate::text::chars_of(text.as_str());
        if v.len() == 0 || v[0] == '#' {
            return;
        }
        if let Some(rest) = strip_prefix(text.as_str(), "[") {
            let r = crate::text::chars_of(rest.as_str());
            let group = if r.len() > 0 && r[r.len() - 1] == ']' {
                assert(r@.subrange(0, r@.len() - 1) =~= r@.drop_last());
                crate::text::string_of(&r, 0, r.len() - 1)
            } else {
                rest
            };
            self.seen = self.seen || same(group.as_str(), "Icon Theme");
            self.group = group;
            return;
        }
        let (k, v) = split_once(text.as_str(), Class::Is('='));
        if let Some(v) = v {
            let key = trim(k.as_str());
            let val = trim(v.as_str());
            if same(self.group.as_str(), "Icon Theme") {
                self.take_setting(key.as_str(), val.as_str());
            } else if same(key.as_str(), "Size") {
                if let Some(n) = parse_i32(val.as_str()) {
                    put_name(&mut self.index.sizes, self.group.clone(), n);
                }
            }
        }
    }
}

/// Reads the description of a theme.
pub fn parse_index_theme(text: &str) -> (r: Option<ThemeIndex>)
    ensures
        r.deep_view() == index_of(text@),
{
    let ls = split_lines(text);
    let ghost all = ls.deep_view();
    let mut s = IndexReader {
        group: String::new(),
        seen: false,
        index: ThemeIndex {
            name: None,
            directories: Vec::new(),
            inherits: Vec::new(),
            sizes: Vec::new(),
            has_directories_key: false,
        },
    };
    let mut i: usize = 0;
    assert(all.take(0) =~= Seq::<Text>::empty());
    assert(s.says() =~= index_lines(all.take(0)));
    while i < ls.len()
        invariant
            i <= ls@.len(),
            all == ls.deep_view(),
            s.says() == index_lines(all.take(i as int)),
        decreases ls@.len() - i,
    {
        assert(all.take(i + 1).drop_last() =~= all.take(i as int));
        assert(all.take(i + 1).last() == ls@[i as int]@);
        s.take_line(ls[i].as_str());
        i += 1;
    }
    assert(all.take(i as int) =~= all);
    if s.seen {
        Some(s.index)
    } else {
        None
    }
}

// --- the themes that are installed --------------------------------------------------------

/// A theme that can be chosen.
#[derive(Debug)]
pub struct IconTheme {
    /// The name of its directory, by which it is known.
    pub dir_name: String,
    /// The name by which it is shown.
    pub display_name: String,
}

impl DeepView for IconTheme {
    type V = (Text, Text);

    open spec fn deep_view(&self) -> (Text, Text) {
        (self.dir_name@, self.display_name@)
    }
}

/// A directory among the icon themes.
#[derive(Debug)]
pub struct ThemeDir {
    pub name: String,
    /// Its description, where there is one that can be read.
    pub index: Option<String>,
    /// Whether it has cursors.
    pub cursors: bool,
}

/// A directory among the icon themes, its strings as texts.
#[verifier::ext_equal]
pub ghost struct FoundDir {
    pub name: Text,
    pub index: Option<Text>,
    pub cursors: bool,
}

impl DeepView for ThemeDir {
    type V = FoundDir;

    open spec fn deep_view(&self) -> FoundDir {
        FoundDir { name: self.name@, index: self.index.deep_view(), cursors: self.cursors }
    }
}

/// The theme that a directory holds: one with a description, but not the one that all
/// others fall back on, nor the default, nor one of cursors alone.
pub open spec fn theme_in(d: FoundDir) -> Option<(Text, Text)> {
    if d.name == "hicolor"@ || d.name == "default"@ {
        None
    } else {
        match d.index {
            None => None,
            Some(text) => match index_of(text) {
                None => None,
                Some(m) => if m.directories.len() == 0 && d.cursors {
                    None
                } else {
                    Some(
                        (
                            d.name,
                            match m.name {
                                Some(n) => n,
                                None => d.name,
                            },
                        ),
                    )
                },
            },
        }
    }
}

/// Whether a theme of the name is among the themes.
pub open spec fn has_theme(themes: Seq<(Text, Text)>, name: Text) -> bool {
    exists|i: int| 0 <= i < themes.len() && (#[trigger] themes[i]).0 == name
}

/// The themes in directories, as they are found. Of those of one name the first counts.
pub open spec fn themes_in(dirs: Seq<FoundDir>) -> Seq<(Text, Text)>
    decreases dirs.len(),
{
    if dirs.len() == 0 {
        Seq::empty()
    } else {
        let front = themes_in(dirs.drop_last());
        match theme_in(dirs.last()) {
            Some(t) => if has_theme(front, t.0) {
                front
            } else {
                front.push(t)
            },
            None => front,
        }
    }
}

/// What themes go by: the name that is shown, in lower case, then the name.
pub open spec fn theme_keys(themes: Seq<(Text, Text)>) -> Seq<(Text, Text)> {
    themes.map_values(|t: (Text, Text)| (lower(t.1), t.0))
}

/// The themes in the order of the names that are shown.
pub open spec fn themes_sorted(themes: Seq<(Text, Text)>) -> Seq<(Text, Text)> {
    key_order(theme_keys(themes), themes.len()).map_values(|i: usize| themes[i as int])
}

/// Tells whether a theme of the name is among the themes.
fn theme_known(themes: &Vec<IconTheme>, name: &str) -> (r: bool)
    ensures
        r == has_theme(themes.deep_view(), name@),
{
    let ghost all = themes.deep_view();
    let mut i: usize = 0;
    while i < themes.len()
        invariant
            i <= themes@.len(),
            all == themes.deep_view(),
            forall|k: int| 0 <= k < i ==> (#[trigger] all[k]).0 != name@,
        decreases themes@.len() - i,
    {
        assert(all[i as int].0 == themes@[i as int].dir_name@);
        if same(themes[i].dir_name.as_str(), name) {
            return true;
        }
        i += 1;
    }
    false
}

/// Tells the theme that a directory holds.
fn read_theme(d: &ThemeDir) -> (r: Option<IconTheme>)
    ensures
        r.deep_view() == theme_in(d.deep_view()),
{
    if same(d.name.as_str(), "hicolor") || same(d.name.as_str(), "default") {
        return None;
    }
    if let Some(text) = &d.index {
        if let Some(m) = parse_index_theme(text.as_str()) {
            if m.directories.len() == 0 && d.cursors {
                return None;
            }
            let display: String = match m.name {
                Some(n) => n,
                None => d.name.clone(),
            };
            return Some(IconTheme { dir_name: d.name.clone(), display_name: display });
        }
    }
    None
}

/// Finds the themes in directories, which come in the order in which they count.
pub fn scan_themes(dirs: &Vec<ThemeDir>) -> (r: Vec<IconTheme>)
    ensures
        r.deep_view() == themes_sorted(themes_in(dirs.deep_view())),
{
    let ghost all = dirs.deep_view();
    let mut themes: Vec<IconTheme> = Vec::new();
    let mut i: usize = 0;
    assert(all.take(0) =~= Seq::<FoundDir>::empty());
    assert(themes.deep_view() =~= Seq::<(Text, Text)>::empty());
    while i < dirs.len()
        invariant
            i <= dirs@.len(),
            all == dirs.deep_view(),
            themes.deep_view() == themes_in(all.take(i as int)),
        decreases dirs@.len() - i,
    {
        assert(all.take(i + 1).drop_last() =~= all.take(i as int));
        assert(all.take(i + 1).last() == dirs@[i as int].deep_view());
        let ghost before = themes.deep_view();
        if let Some(t) = read_theme(&dirs[i]) {
            if !theme_known(&themes, t.dir_name.as_str()) {
                themes.push(t);
                assert(themes.deep_view() =~= before.push(t.deep_view()));
            }
        }
        i += 1;
    }
    assert(all.take(i as int) =~= all);
    sort_themes(&themes)
}

/// Puts themes in the order of the names that are shown.
fn sort_themes(themes: &Vec<IconTheme>) -> (r: Vec<IconTheme>)
    ensures
        r.deep_view() == themes_sorted(themes.deep_view()),
{
    let ghost all = themes.deep_view();
    let mut keys: Vec<(String, String)> = Vec::new();
    let mut i: usize = 0;
    assert(keys.deep_view() =~= theme_keys(all).take(0));
    while i < themes.len()
        invariant
            i <= themes@.len() == all.len(),
            all == themes.deep_view(),
            keys.deep_view() == theme_keys(all).take(i as int),
        decreases themes@.len() - i,
    {
        let ghost before = keys.deep_view();
        assert(all[i as int] == themes@[i as int].deep_view());
        let key = (lowered(themes[i].display_name.as_str()), themes[i].dir_name.clone());
        assert(theme_keys(all)[i as int] == key.deep_view());
        keys.push(key);
        assert(keys.deep_view() =~= before.push(key.deep_view()));
        i += 1;
        assert(keys.deep_view() =~= theme_keys(all).take(i as int));
    }
    assert(theme_keys(all).take(i as int) =~= theme_keys(all));
    assert(keys@.len() == keys.deep_view().len());
    let order = order_by_keys(&keys);
    let ghost target = themes_sorted(all);
    let mut r: Vec<IconTheme> = Vec::new();
    let mut k: usize = 0;
    assert(r.deep_view() =~= target.take(0));
    while k < order.len()
        invariant
            k <= order@.len() == target.len(),
            all == themes.deep_view(),
            target == themes_sorted(all),
            order@ == key_order(theme_keys(all), all.len()),
            forall|j: int| 0 <= j < order@.len() ==> #[trigger] order@[j] < themes@.len(),
            r.deep_view() == target.take(k as int),
        decreases order@.len() - k,
    {
        let ghost before = r.deep_view();
        let t = &themes[order[k]];
        assert(all[order@[k as int] as int] == t.deep_view());
        assert(target[k as int] == t.deep_view());
        let copy = IconTheme { dir_name: t.dir_name.clone(), display_name: t.display_name.clone() };
        r.push(copy);
        assert(r.deep_view() =~= before.push(t.deep_view()));
        k += 1;
        assert(r.deep_view() =~= target.take(k as int));
    }
    assert(target.take(k as int) =~= target);
    r
}

/// No theme is found twice.
pub proof fn law_themes_differ(dirs: Seq<FoundDir>)
    ensures
        forall|i: int, j: int|
            0 <= i < j < themes_in(dirs).len() ==> (#[trigger] themes_in(dirs)[i]).0 != (
            #[trigger] themes_in(dirs)[j]).0,
    decreases dirs.len(),
{
    if dirs.len() > 0 {
        law_themes_differ(dirs.drop_last());
        let front = themes_in(dirs.drop_last());
        if let Some(t) = theme_in(dirs.last()) {
            if !has_theme(front, t.0) {
                assert forall|i: int, j: int| 0 <= i < j < front.push(t).len() implies (
                #[trigger] front.push(t)[i]).0 != (#[trigger] front.push(t)[j]).0 by {
                    if j == front.len() {
                        assert(front[i].0 != t.0);
                    }
                }
            }
        }
    }
}

// --- the file of an icon ------------------------------------------------------------------

/// The size of the icons of a directory; zero where it is not said.
pub open spec fn size_of(m: ThemeModel, dir: Text) -> int {
    match value_of(m.sizes, dir) {
        Some(n) => n as int,
        None => 0,
    }
}

/// How far the size of a directory's icons is from the one that is wanted.
pub open spec fn distance(m: ThemeModel, dir: Text, target: int) -> int {
    let d = size_of(m, dir) - target;
    if d < 0 {
        -d
    } else {
        d
    }
}

/// The place among directories where one goes: before the first that is farther off.
pub open spec fn near_place(m: ThemeModel, dirs: Seq<Text>, d: Text, target: int) -> int
    decreases dirs.len(),
{
    if dirs.len() == 0 || distance(m, d, target) < distance(m, dirs[0], target) {
        0
    } else {
        1 + near_place(m, dirs.drop_first(), d, target)
    }
}

/// The directories, those whose size is nearest to the one that is wanted first.
pub open spec fn nearest(m: ThemeModel, dirs: Seq<Text>, target: int) -> Seq<Text>
    decreases dirs.len(),
{
    if dirs.len() == 0 {
        dirs
    } else {
        let front = nearest(m, dirs.drop_last(), target);
        front.insert(near_place(m, front, dirs.last(), target), dirs.last())
    }
}

/// The files that an icon may be in, in a directory of a theme below one of the places
/// where themes are.
pub open spec fn files_at(base: Text, theme: Text, dir: Text, icon: Text) -> Seq<Text> {
    let place = below(below(base, theme), dir);
    seq![below(place, icon + ".png"@), below(place, icon + ".svg"@)]
}

/// The files that an icon may be in, in a directory of a theme.
pub open spec fn files_in(bases: Seq<Text>, theme: Text, dir: Text, icon: Text) -> Seq<Text>
    decreases bases.len(),
{
    if bases.len() == 0 {
        Seq::empty()
    } else {
        files_in(bases.drop_last(), theme, dir, icon) + files_at(bases.last(), theme, dir, icon)
    }
}

/// The files that an icon may be in, in the directories of a theme.
pub open spec fn files_of(bases: Seq<Text>, theme: Text, dirs: Seq<Text>, icon: Text) -> Seq<Text>
    decreases dirs.len(),
{
    if dirs.len() == 0 {
        Seq::empty()
    } else {
        files_of(bases, theme, dirs.drop_last(), icon) + files_in(bases, theme, dirs.last(), icon)
    }
}

/// A place to look at.
#[derive(Debug)]
pub enum Lead {
    Theme(String),
    File(String),
}

/// A place to look at, its string as a text.
pub ghost enum Clue {
    Theme(Text),
    File(Text),
}

impl DeepView for Lead {
    type V = Clue;

    open spec fn deep_view(&self) -> Clue {
        match self {
            Lead::Theme(t) => Clue::Theme(t@),
            Lead::File(f) => Clue::File(f@),
        }
    }
}

/// The places to look at for an icon of a theme: its files, then the themes that it
/// names, then the one that all fall back on.
pub open spec fn clues_of(
    m: ThemeModel,
    bases: Seq<Text>,
    theme: Text,
    icon: Text,
    target: int,
) -> Seq<Clue> {
    files_of(bases, theme, nearest(m, m.directories, target), icon).map_values(
        |f: Text| Clue::File(f),
    ) + m.inherits.map_values(|t: Text| Clue::Theme(t)) + seq![Clue::Theme("hicolor"@)]
}

/// What a search waits for.
#[derive(Debug)]
pub enum Waiting {
    /// For nothing.
    Nothing,
    /// For the description of a theme, below the place of the number.
    Index { theme: String, tried: usize },
    /// For whether the file is there.
    File(String),
}

/// What a search waits for, its string as a text.
pub ghost enum Pending {
    Nothing,
    Index { theme: Text, tried: int },
    File(Text),
}

impl DeepView for Waiting {
    type V = Pending;

    open spec fn deep_view(&self) -> Pending {
        match self {
            Waiting::Nothing => Pending::Nothing,
            Waiting::Index { theme, tried } => Pending::Index { theme: theme@, tried: *tried as int },
            Waiting::File(f) => Pending::File(f@),
        }
    }
}

/// A search for the file of an icon of a theme.
#[derive(Debug)]
pub struct IconSearch {
    pub theme: String,
    /// The name of the icon.
    pub icon: String,
    /// Its other names, in the order in which they are tried.
    pub names: Vec<String>,
    /// The places where themes are.
    pub bases: Vec<String>,
    /// The size that is wanted.
    pub target: i32,
    /// The themes that were looked at.
    pub visited: Vec<String>,
    /// The places to look at, in their order.
    pub leads: Vec<Lead>,
    pub waiting: Waiting,
}

/// A search for the file of an icon, its strings as texts.
#[verifier::ext_equal]
pub ghost struct Hunt {
    pub theme: Text,
    pub icon: Text,
    pub names: Seq<Text>,
    pub bases: Seq<Text>,
    pub target: i32,
    pub visited: Seq<Text>,
    pub clues: Seq<Clue>,
    pub pending: Pending,
}

impl View for IconSearch {
    type V = Hunt;

    open spec fn view(&self) -> Hunt {
        Hunt {
            theme: self.theme@,
            icon: self.icon@,
            names: self.names.deep_view(),
            bases: self.bases.deep_view(),
            target: self.target,
            visited: self.visited.deep_view(),
            clues: self.leads.deep_view(),
            pending: self.waiting.deep_view(),
        }
    }
}

impl Hunt {
    /// No theme is looked at twice, and one whose description is waited for counts as
    /// looked at.
    pub open spec fn wf(self) -> bool {
        &&& self.visited.no_duplicates()
        &&& self.pending matches Pending::Index { theme, tried } ==> self.visited.contains(theme)
            && 0 <= tried < self.bases.len()
    }
}

/// What a search asks for.
#[derive(Debug)]
pub enum Ask {
    /// For the text of a file.
    Read(String),
    /// For whether a file is there.
    Probe(String),
    /// For nothing: the icon is in this file.
    Found(String),
    /// For nothing: there is no such icon.
    Missing,
}

/// What a search asks for, its string as a text.
pub ghost enum Wish {
    Read(Text),
    Probe(Text),
    Found(Text),
    Missing,
}

impl View for Ask {
    type V = Wish;

    open spec fn view(&self) -> Wish {
        match self {
            Ask::Read(p) => Wish::Read(p@),
            Ask::Probe(p) => Wish::Probe(p@),
            Ask::Found(p) => Wish::Found(p@),
            Ask::Missing => Wish::Missing,
        }
    }
}

/// What a search is told.
#[derive(Debug)]
pub enum Reply {
    /// The text of the file, where it could be read.
    Text(Option<String>),
    /// Whether the file is there.
    Exists(bool),
}

/// What a search is told, its string as a text.
pub ghost enum Heard {
    Text(Option<Text>),
    Exists(bool),
}

impl View for Reply {
    type V = Heard;

    open spec fn view(&self) -> Heard {
        match self {
            Reply::Text(t) => Heard::Text(t.deep_view()),
            Reply::Exists(b) => Heard::Exists(*b),
        }
    }
}

/// Where a theme describes itself, below a place where themes are.
pub open spec fn index_path(base: Text, theme: Text) -> Text {
    below(below(base, theme), "index.theme"@)
}

/// A search goes on: with what it waits for, else with the first place that it was not
/// at, else with the next name of the icon.
pub open spec fn onward(h: Hunt) -> (Hunt, Wish)
    decreases h.names.len(), h.clues.len(),
{
    match h.pending {
        Pending::Index { theme, tried } => (h, Wish::Read(index_path(h.bases[tried], theme))),
        Pending::File(f) => (h, Wish::Probe(f)),
        Pending::Nothing => if h.clues.len() == 0 {
            if h.names.len() == 0 {
                (h, Wish::Missing)
            } else {
                onward(
                    Hunt {
                        icon: h.names[0],
                        names: h.names.drop_first(),
                        visited: Seq::empty(),
                        clues: seq![Clue::Theme(h.theme)],
                        ..h
                    },
                )
            }
        } else {
            let rest = Hunt { clues: h.clues.drop_first(), ..h };
            match h.clues[0] {
                Clue::File(f) => (Hunt { pending: Pending::File(f), ..rest }, Wish::Probe(f)),
                Clue::Theme(t) => if h.visited.contains(t) {
                    onward(rest)
                } else if h.bases.len() == 0 {
                    onward(Hunt { visited: h.visited.push(t), ..rest })
                } else {
                    (
                        Hunt {
                            visited: h.visited.push(t),
                            pending: Pending::Index { theme: t, tried: 0 },
                            ..rest
                        },
                        Wish::Read(index_path(h.bases[0], t)),
                    )
                },
            }
        },
    }
}

/// The next place where a theme may describe itself.
pub open spec fn next_base(h: Hunt, theme: Text, tried: int) -> Hunt {
    if tried + 1 < h.bases.len() {
        Hunt { pending: Pending::Index { theme, tried: tried + 1 }, ..h }
    } else {
        Hunt { pending: Pending::Nothing, ..h }
    }
}

/// A search is told what it waited for.
pub open spec fn told(h: Hunt, heard: Heard) -> (Hunt, Wish) {
    match (h.pending, heard) {
        (Pending::File(f), Heard::Exists(true)) => (h, Wish::Found(f)),
        (Pending::Index { theme, tried }, Heard::Text(Some(text))) => match index_of(text) {
            Some(m) => onward(
                Hunt {
                    clues: clues_of(m, h.bases, theme, h.icon, h.target as int) + h.clues,
                    pending: Pending::Nothing,
                    ..h
                },
            ),
            None => onward(next_base(h, theme, tried)),
        },
        (Pending::Index { theme, tried }, _) => onward(next_base(h, theme, tried)),
        _ => onward(Hunt { pending: Pending::Nothing, ..h }),
    }
}

/// The search that starts, for the first of the names that is found.
pub open spec fn started(theme: Text, names: Seq<Text>, bases: Seq<Text>, target: i32) -> Hunt {
    Hunt {
        theme,
        icon: Seq::empty(),
        names,
        bases,
        target,
        visited: Seq::empty(),
        clues: Seq::empty(),
        pending: Pending::Nothing,
    }
}

/// Starts a search for the first of an icon's names that is found.
pub fn resolve_slot(theme: String, names: Vec<String>, bases: Vec<String>, target: i32) -> (r: (
    IconSearch,
    Ask,
))
    ensures
        ((r.0)@, (r.1)@) == onward(
            started(theme@, names.deep_view(), bases.deep_view(), target),
        ),
        (r.0)@.wf(),
{
    let mut s = IconSearch {
        theme,
        icon: String::new(),
        names,
        bases,
        target,
        visited: Vec::new(),
        leads: Vec::new(),
        waiting: Waiting::Nothing,
    };
    assert(s@ =~= started(theme@, names.deep_view(), bases.deep_view(), target));
    let ask = s.go_on();
    (s, ask)
}

/// Starts a search for an icon.
pub fn resolve_icon(theme: String, name: String, bases: Vec<String>, target: i32) -> (r: (
    IconSearch,
    Ask,
))
    ensures
        ((r.0)@, (r.1)@) == onward(started(theme@, seq![name@], bases.deep_view(), target)),
        (r.0)@.wf(),
{
    let mut names: Vec<String> = Vec::new();
    names.push(name);
    assert(names.deep_view() =~= seq![name@]);
    resolve_slot(theme, names, bases, target)
}

/// How far the size of a directory's icons is from the one that is wanted.
fn how_far(m: &ThemeIndex, dir: &str, target: i32) -> (r: i64)
    ensures
        r == distance(m.deep_view(), dir@, target as int),
{
    let at: usize = find_name(&m.sizes, dir);
    let size: i64 = if at < m.sizes.len() {
        assert(m.sizes.deep_view()[at as int].1 == m.sizes@[at as int].1);
        m.sizes[at].1 as i64
    } else {
        0
    };
    let d: i64 = size - target as i64;
    if d < 0 {
        -d
    } else {
        d
    }
}

/// Puts the directories whose size is nearest to the one that is wanted first.
fn sort_nearest(m: &ThemeIndex, target: i32) -> (r: Vec<String>)
    ensures
        r.deep_view() == nearest(m.deep_view(), m.deep_view().directories, target as int),
{
    let ghost all = m.directories.deep_view();
    let ghost mm = m.deep_view();
    let mut r: Vec<String> = Vec::new();
    let mut i: usize = 0;
    assert(all.take(0) =~= Seq::<Text>::empty());
    assert(r.deep_view() =~= Seq::<Text>::empty());
    while i < m.directories.len()
        invariant
            i <= m.directories@.len(),
            all == m.directories.deep_view(),
            mm == m.deep_view(),
            r.deep_view() == nearest(mm, all.take(i as int), target as int),
        decreases m.directories@.len() - i,
    {
        let ghost front = r.deep_view();
        let d = &m.directories[i];
        let far: i64 = how_far(m, d.as_str(), target);
        let mut at: usize = 0;
        assert(front.skip(0) =~= front);
        let ghost all_front = front;
        while at < r.len() && far >= how_far(m, r[at].as_str(), target)
            invariant
                at <= r@.len(),
                front == r.deep_view(),
                mm == m.deep_view(),
                far == distance(mm, d@, target as int),
                near_place(mm, front, d@, target as int) == at + near_place(
                    mm,
                    front.skip(at as int),
                    d@,
                    target as int,
                ),
            decreases r@.len() - at,
        {
            assert(front.skip(at as int)[0] == r@[at as int]@);
            assert(front.skip(at as int).drop_first() =~= front.skip(at + 1));
            at += 1;
        }
        proof {
            if at < r@.len() {
                assert(front.skip(at as int)[0] == r@[at as int]@);
            }
            assert(near_place(mm, front, d@, target as int) == at);
            assert(all.take(i + 1).drop_last() =~= all.take(i as int));
            assert(all.take(i + 1).last() == d@);
        }
        r.insert(at, d.clone());
        assert(r.deep_view() =~= front.insert(at as int, d@));
        i += 1;
    }
    assert(all.take(i as int) =~= all);
    r
}

/// Adds the files that an icon may be in, in a directory of a theme.
fn add_files(out: &mut Vec<Lead>, bases: &Vec<String>, theme: &str, dir: &str, icon: &str)
    ensures
        final(out).deep_view() == old(out).deep_view() + files_in(
            bases.deep_view(),
            theme@,
            dir@,
            icon@,
        ).map_values(|f: Text| Clue::File(f)),
{
    let ghost start = out.deep_view();
    let ghost all = bases.deep_view();
    let mut i: usize = 0;
    assert(all.take(0) =~= Seq::<Text>::empty());
    assert(out.deep_view() =~= start + files_in(all.take(0), theme@, dir@, icon@).map_values(
        |f: Text| Clue::File(f),
    ));
    while i < bases.len()
        invariant
            i <= bases@.len(),
            all == bases.deep_view(),
            out.deep_view() == start + files_in(all.take(i as int), theme@, dir@, icon@).map_values(
                |f: Text| Clue::File(f),
            ),
        decreases bases@.len() - i,
    {
        let ghost before = out.deep_view();
        let place = join_path(join_path(bases[i].as_str(), theme).as_str(), dir);
        let png = join_path(place.as_str(), two(icon, ".png").as_str());
        let svg = join_path(place.as_str(), two(icon, ".svg").as_str());
        out.push(Lead::File(png));
        assert(out.deep_view() =~= before.push(Clue::File(png@)));
        out.push(Lead::File(svg));
        assert(out.deep_view() =~= before.push(Clue::File(png@)).push(Clue::File(svg@)));
        assert(all.take(i + 1).drop_last() =~= all.take(i as int));
        assert(all.take(i + 1).last() == bases@[i as int]@);
        let ghost two_files = files_at(bases@[i as int]@, theme@, dir@, icon@);
        assert(two_files =~= seq![png@, svg@]);
        i += 1;
        assert(out.deep_view() =~= start + files_in(all.take(i as int), theme@, dir@, icon@).map_values(
            |f: Text| Clue::File(f),
        ));
    }
    assert(all.take(i as int) =~= all);
}

/// The places to look at for an icon of a theme.
fn leads_of(m: &ThemeIndex, bases: &Vec<String>, theme: &str, icon: &str, target: i32) -> (r: Vec<Lead>)
    ensures
        r.deep_view() == clues_of(m.deep_view(), bases.deep_view(), theme@, icon@, target as int),
{
    let dirs = sort_nearest(m, target);
    let ghost all = dirs.deep_view();
    let ghost bs = bases.deep_view();
    let mut r: Vec<Lead> = Vec::new();
    let mut i: usize = 0;
    assert(all.take(0) =~= Seq::<Text>::empty());
    assert(r.deep_view() =~= files_of(bs, theme@, all.take(0), icon@).map_values(
        |f: Text| Clue::File(f),
    ));
    while i < dirs.len()
        invariant
            i <= dirs@.len(),
            all == dirs.deep_view(),
            bs == bases.deep_view(),
            r.deep_view() == files_of(bs, theme@, all.take(i as int), icon@).map_values(
                |f: Text| Clue::File(f),
            ),
        decreases dirs@.len() - i,
    {
        add_files(&mut r, bases, theme, dirs[i].as_str(), icon);
        assert(all.take(i + 1).drop_last() =~= all.take(i as int));
        assert(all.take(i + 1).last() == dirs@[i as int]@);
        i += 1;
        assert(r.deep_view() =~= files_of(bs, theme@, all.take(i as int), icon@).map_values(
            |f: Text| Clue::File(f),
        ));
    }
    assert(all.take(i as int) =~= all);
    let ghost files = r.deep_view();
    let ghost parents = m.inherits.deep_view();
    let mut k: usize = 0;
    assert(r.deep_view() =~= files + parents.take(0).map_values(|t: Text| Clue::Theme(t)));
    while k < m.inherits.len()
        invariant
            k <= m.inherits@.len(),
            parents == m.inherits.deep_view(),
            r.deep_view() == files + parents.take(k as int).map_values(|t: Text| Clue::Theme(t)),
        decreases m.inherits@.len() - k,
    {
        let ghost before = r.deep_view();
        let lead = Lead::Theme(m.inherits[k].clone());
        assert(lead.deep_view() == Clue::Theme(parents[k as int]));
        r.push(lead);
        assert(r.deep_view() =~= before.push(Clue::Theme(parents[k as int])));
        k += 1;
        assert(r.deep_view() =~= files + parents.take(k as int).map_values(
            |t: Text| Clue::Theme(t),
        ));
    }
    assert(parents.take(k as int) =~= parents);
    let ghost before = r.deep_view();
    let lead = Lead::Theme("hicolor".to_owned());
    r.push(lead);
    assert(r.deep_view() =~= before.push(Clue::Theme("hicolor"@)));
    assert(r.deep_view() =~= clues_of(m.deep_view(), bs, theme@, icon@, target as int));
    r
}

/// Where a theme describes itself.
fn index_file(base: &str, theme: &str) -> (r: String)
    ensures
        r@ == index_path(base@, theme@),
{
    join_path(join_path(base, theme).as_str(), "index.theme")
}

impl IconSearch {
    /// Tells whether a theme was looked at.
    fn was_at(&self, theme: &str) -> (r: bool)
        ensures
            r == self@.visited.contains(theme@),
    {
        let ghost all = self.visited.deep_view();
        let mut i: usize = 0;
        while i < self.visited.len()
            invariant
                i <= self.visited@.len() == all.len(),
                all == self.visited.deep_view(),
                forall|k: int| 0 <= k < i ==> #[trigger] all[k] != theme@,
            decreases self.visited@.len() - i,
        {
            assert(all[i as int] == self.visited@[i as int]@);
            if same(self.visited[i].as_str(), theme) {
                return true;
            }
            i += 1;
        }
        false
    }

    /// Goes on.
    fn go_on(&mut self) -> (r: Ask)
        requires
            old(self)@.wf(),
        ensures
            (final(self)@, r@) == onward(old(self)@),
            final(self)@.wf(),
    {
        loop
            invariant
                self@.wf(),
                onward(self@) == onward(old(self)@),
            decreases self@.names.len(), self@.clues.len(),
        {
            let ghost now = self@;
            match &self.waiting {
                Waiting::Index { theme, tried } => {
                    assert(now.bases[*tried as int] == self.bases@[*tried as int]@);
                    return Ask::Read(index_file(self.bases[*tried].as_str(), theme.as_str()));
                },
                Waiting::File(f) => {
                    return Ask::Probe(f.clone());
                },
                Waiting::Nothing => {},
            }
            if self.leads.len() == 0 {
                if self.names.len() == 0 {
                    return Ask::Missing;
                }
                self.icon = self.names.remove(0);
                self.visited = Vec::new();
                self.leads = Vec::new();
                self.leads.push(Lead::Theme(self.theme.clone()));
                assert(self.names.deep_view() =~= now.names.drop_first());
                assert(self@ =~= Hunt {
                    icon: now.names[0],
                    names: now.names.drop_first(),
                    visited: Seq::empty(),
                    clues: seq![Clue::Theme(now.theme)],
                    ..now
                });
            } else {
                assert(now.clues[0] == self.leads@[0].deep_view());
                let lead = self.leads.remove(0);
                assert(self.leads.deep_view() =~= now.clues.drop_first());
                match lead {
                    Lead::File(f) => {
                        self.waiting = Waiting::File(f.clone());
                        return Ask::Probe(f);
                    },
                    Lead::Theme(t) => {
                        if !self.was_at(t.as_str()) {
                            self.visited.push(t.clone());
                            assert(self.visited.deep_view() =~= now.visited.push(t@));
                            if self.bases.len() > 0 {
                                let path = index_file(self.bases[0].as_str(), t.as_str());
                                assert(now.bases[0] == self.bases@[0]@);
                                self.waiting = Waiting::Index { theme: t, tried: 0 };
                                assert(self@.visited.contains(t@)) by {
                                    assert(self@.visited[now.visited.len() as int] == t@);
                                }
                                return Ask::Read(path);
                            }
                        }
                    },
                }
            }
        }
    }

    /// Is told what it waited for, and goes on.
    pub fn tell(&mut self, reply: Reply) -> (r: Ask)
        requires
            old(self)@.wf(),
        ensures
            (final(self)@, r@) == told(old(self)@, reply@),
            final(self)@.wf(),
    {
        let ghost start = self@;
        let mut waiting = Waiting::Nothing;
        core::mem::swap(&mut self.waiting, &mut waiting);
        match waiting {
            Waiting::Nothing => {},
            Waiting::File(f) => {
                if let Reply::Exists(true) = reply {
                    self.waiting = Waiting::File(f.clone());
                    return Ask::Found(f);
                }
            },
            Waiting::Index { theme, tried } => {
                if let Reply::Text(Some(text)) = reply {
                    if let Some(m) = parse_index_theme(text.as_str()) {
                        let ghost rest = self.leads.deep_view();
                        let mut leads = leads_of(
                            &m,
                            &self.bases,
                            theme.as_str(),
                            self.icon.as_str(),
                            self.target,
                        );
                        let ghost new = leads.deep_view();
                        leads.append(&mut self.leads);
                        assert(leads.deep_view() =~= new + rest);
                        self.leads = leads;
                        return self.go_on();
                    }
                }
                assert(start.bases.len() == self.bases.len());
                if tried + 1 < self.bases.len() {
                    self.waiting = Waiting::Index { theme, tried: tried + 1 };
                }
            },
        }
        self.go_on()
    }
}

} // verus!
