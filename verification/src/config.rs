//! What is kept of the chosen look: the directories with wallpapers, the wallpaper of
//! each monitor, and the themes of the icons and of the cursor.

use vstd::prelude::*;
use crate::number::{parse_u32, push_u64, show, unsigned};
use crate::path::{below, join_path};
use crate::table::{comes_before, text_before};
use crate::text::{halves, lines, same, split_lines, split_once, trim, trimmed, Class, Text};
use crate::tray_icon::{add_once, with_text};

verus! {

/// The wallpaper of a monitor.
#[derive(Debug)]
pub enum Saved {
    /// The image in the file, put on the monitor as the mode says.
    Image { mode: String, path: String },
    Color { color: String },
}

/// The wallpaper of a monitor, its strings as texts.
pub ghost enum Kept {
    Image { mode: Text, path: Text },
    Color { color: Text },
}

impl DeepView for Saved {
    type V = Kept;

    open spec fn deep_view(&self) -> Kept {
        match self {
            Saved::Image { mode, path } => Kept::Image { mode: mode@, path: path@ },
            Saved::Color { color } => Kept::Color { color: color@ },
        }
    }
}

/// What is kept of the chosen look.
#[derive(Debug)]
pub struct Config {
    /// The directories with wallpapers, in the order in which they were added.
    pub dirs: Vec<String>,
    /// The wallpapers by monitor, in the order of the monitors' names.
    pub saved: Vec<(String, Saved)>,
    pub icon_theme: Option<String>,
    pub cursor_theme: Option<String>,
    pub cursor_size: Option<u32>,
}

/// What is kept of the chosen look, its strings as texts.
#[verifier::ext_equal]
pub ghost struct Prefs {
    pub dirs: Seq<Text>,
    pub saved: Seq<(Text, Kept)>,
    pub icon_theme: Option<Text>,
    pub cursor_theme: Option<Text>,
    pub cursor_size: Option<u32>,
}

impl View for Config {
    type V = Prefs;

    open spec fn view(&self) -> Prefs {
        Prefs {
            dirs: self.dirs.deep_view(),
            saved: self.saved.deep_view(),
            icon_theme: self.icon_theme.deep_view(),
            cursor_theme: self.cursor_theme.deep_view(),
            cursor_size: self.cursor_size,
        }
    }
}

/// Whether the monitors are in the order of their names, none twice.
pub open spec fn monitors_in_order(s: Seq<(Text, Kept)>) -> bool {
    forall|i: int, j: int|
        0 <= i < j < s.len() ==> text_before((#[trigger] s[i]).0, (#[trigger] s[j]).0)
}

impl Prefs {
    /// The monitors are in the order of their names, none twice.
    pub open spec fn wf(self) -> bool {
        monitors_in_order(self.saved)
    }
}

/// Nothing was chosen yet.
pub open spec fn no_prefs() -> Prefs {
    Prefs {
        dirs: Seq::empty(),
        saved: Seq::empty(),
        icon_theme: None,
        cursor_theme: None,
        cursor_size: None,
    }
}

/// The place of a monitor among others: that of the first whose name does not come before
/// its own.
pub open spec fn saved_place(s: Seq<(Text, Kept)>, monitor: Text) -> int
    decreases s.len(),
{
    if s.len() == 0 || !text_before(s[0].0, monitor) {
        0
    } else {
        1 + saved_place(s.drop_first(), monitor)
    }
}

/// The wallpapers with one for the monitor, in the place of its old one, if any.
pub open spec fn with_saved(s: Seq<(Text, Kept)>, monitor: Text, k: Kept) -> Seq<(Text, Kept)> {
    let at = saved_place(s, monitor);
    if at < s.len() && s[at].0 == monitor {
        s.update(at, (monitor, k))
    } else {
        s.insert(at, (monitor, k))
    }
}

// --- reading ------------------------------------------------------------------------------

/// What a line of the kind and the rest says.
pub open spec fn pref_line(p: Prefs, kind: Text, rest: Text) -> Prefs {
    if kind == "dir"@ {
        if rest.len() == 0 {
            p
        } else {
            Prefs { dirs: with_text(p.dirs, rest), ..p }
        }
    } else if kind == "saved"@ {
        let (monitor, r) = halves(rest, Class::White);
        match r {
            None => p,
            Some(r) => {
                let (mode, r) = halves(r, Class::White);
                match r {
                    None => p,
                    Some(r) => {
                        let path = trimmed(r);
                        if path.len() == 0 {
                            p
                        } else {
                            Prefs {
                                saved: with_saved(p.saved, monitor, Kept::Image { mode, path }),
                                ..p
                            }
                        }
                    },
                }
            },
        }
    } else if kind == "saved-color"@ {
        let (monitor, r) = halves(rest, Class::White);
        match r {
            None => p,
            Some(r) => {
                let color = trimmed(r);
                if color.len() == 0 {
                    p
                } else {
                    Prefs { saved: with_saved(p.saved, monitor, Kept::Color { color }), ..p }
                }
            },
        }
    } else if kind == "icon-theme"@ {
        if rest.len() == 0 {
            p
        } else {
            Prefs { icon_theme: Some(rest), ..p }
        }
    } else if kind == "cursor-theme"@ {
        if rest.len() == 0 {
            p
        } else {
            Prefs { cursor_theme: Some(rest), ..p }
        }
    } else if kind == "cursor-size"@ {
        match unsigned(rest, u32::MAX as int) {
            Some(n) => Prefs { cursor_size: Some(n as u32), ..p },
            None => p,
        }
    } else {
        p
    }
}

/// What a line says. Blank lines, and those that start with `#`, say nothing.
pub open spec fn config_line(p: Prefs, line: Text) -> Prefs {
    let l = trimmed(line);
    if l.len() == 0 || l[0] == '#' {
        p
    } else {
        let (kind, rest) = halves(l, Class::White);
        pref_line(
            p,
            kind,
            trimmed(
                match rest {
                    Some(r) => r,
                    None => Seq::empty(),
                },
            ),
        )
    }
}

/// What lines say.
pub open spec fn config_lines(ls: Seq<Text>) -> Prefs
    decreases ls.len(),
{
    if ls.len() == 0 {
        no_prefs()
    } else {
        config_line(config_lines(ls.drop_last()), ls.last())
    }
}

pub proof fn lemma_saved_place(s: Seq<(Text, Kept)>, monitor: Text)
    ensures
        0 <= saved_place(s, monitor) <= s.len(),
        saved_place(s, monitor) < s.len() ==> !text_before(s[saved_place(s, monitor)].0, monitor),
        forall|i: int|
            0 <= i < saved_place(s, monitor) ==> text_before((#[trigger] s[i]).0, monitor),
    decreases s.len(),
{
    if s.len() > 0 && text_before(s[0].0, monitor) {
        lemma_saved_place(s.drop_first(), monitor);
        let p = saved_place(s.drop_first(), monitor);
        assert forall|i: int| 0 <= i < 1 + p implies text_before((#[trigger] s[i]).0, monitor) by {
            if i > 0 {
                assert(s.drop_first()[i - 1] == s[i]);
            }
        }
    }
}

/// A wallpaper keeps the monitors in order.
proof fn lemma_with_saved(s: Seq<(Text, Kept)>, monitor: Text, k: Kept)
    requires
        monitors_in_order(s),
    ensures
        monitors_in_order(with_saved(s, monitor, k)),
{
    lemma_saved_place(s, monitor);
    let at = saved_place(s, monitor);
    let t = with_saved(s, monitor, k);
    if at < s.len() && s[at].0 == monitor {
        assert forall|i: int, j: int| 0 <= i < j < t.len() implies text_before(
            (#[trigger] t[i]).0,
            (#[trigger] t[j]).0,
        ) by {
            assert(t[i].0 == s[i].0 && t[j].0 == s[j].0);
        }
    } else {
        if at < s.len() {
            crate::order::lemma_either_first(s[at].0, monitor);
        }
        assert forall|i: int, j: int| 0 <= i < j < t.len() implies text_before(
            (#[trigger] t[i]).0,
            (#[trigger] t[j]).0,
        ) by {
            if i < at && j > at {
                assert(t[i] == s[i] && t[j] == s[j - 1]);
            } else if i == at {
                assert(t[j] == s[j - 1]);
                if j - 1 > at {
                    crate::order::lemma_before_chain(monitor, s[at].0, s[j - 1].0);
                }
            } else if i > at {
                assert(t[i] == s[i - 1] && t[j] == s[j - 1]);
            } else if j < at {
                assert(t[i] == s[i] && t[j] == s[j]);
            }
        }
    }
}

/// Puts a wallpaper among others.
fn put_saved(s: &mut Vec<(String, Saved)>, monitor: String, k: Saved)
    requires
        monitors_in_order(old(s).deep_view()),
    ensures
        final(s).deep_view() == with_saved(old(s).deep_view(), monitor@, k.deep_view()),
        monitors_in_order(final(s).deep_view()),
{
    let ghost all = s.deep_view();
    let ghost pair = (monitor, k).deep_view();
    proof {
        lemma_with_saved(all, monitor@, k.deep_view());
    }
    let mut at: usize = 0;
    assert(all.skip(0) =~= all);
    while at < s.len() && comes_before(s[at].0.as_str(), monitor.as_str())
        invariant
            at <= s@.len() == all.len(),
            all == s.deep_view(),
            saved_place(all, monitor@) == at + saved_place(all.skip(at as int), monitor@),
        decreases s@.len() - at,
    {
        assert(all.skip(at as int)[0] == s@[at as int].deep_view());
        assert(all.skip(at as int).drop_first() =~= all.skip(at + 1));
        at += 1;
    }
    proof {
        if at < s@.len() {
            assert(all.skip(at as int)[0] == s@[at as int].deep_view());
            assert(all[at as int] == s@[at as int].deep_view());
        }
        assert(saved_place(all, monitor@) == at);
    }
    if at < s.len() && same(s[at].0.as_str(), monitor.as_str()) {
        s.set(at, (monitor, k));
        assert(s.deep_view() =~= all.update(at as int, pair));
    } else {
        s.insert(at, (monitor, k));
        assert(s.deep_view() =~= all.insert(at as int, pair));
    }
}

impl Config {
    /// Nothing was chosen yet.
    pub fn default() -> (r: Config)
        ensures
            r@ == no_prefs(),
            r@.wf(),
    {
        let r = Config {
            dirs: Vec::new(),
            saved: Vec::new(),
            icon_theme: None,
            cursor_theme: None,
            cursor_size: None,
        };
        assert(r@ =~= no_prefs());
        r
    }

    /// Takes the wallpaper that a line says.
    fn take_image(&mut self, rest: &str)
        requires
            old(self)@.wf(),
        ensures
            final(self)@ == pref_line(old(self)@, "saved"@, rest@),
            final(self)@.wf(),
    {
        proof {
            lemma_kinds();
        }
        let (monitor, r) = split_once(rest, Class::White);
        if let Some(r) = r {
            let (mode, r) = split_once(r.as_str(), Class::White);
            if let Some(r) = r {
                let path = trim(r.as_str());
                if !path.as_str().is_empty() {
                    put_saved(&mut self.saved, monitor, Saved::Image { mode, path });
                }
            }
        }
    }

    /// Takes the colour that a line says.
    fn take_color(&mut self, rest: &str)
        requires
            old(self)@.wf(),
        ensures
            final(self)@ == pref_line(old(self)@, "saved-color"@, rest@),
            final(self)@.wf(),
    {
        proof {
            lemma_kinds();
        }
        let (monitor, r) = split_once(rest, Class::White);
        if let Some(r) = r {
            let color = trim(r.as_str());
            if !color.as_str().is_empty() {
                put_saved(&mut self.saved, monitor, Saved::Color { color });
            }
        }
    }

    /// Takes what a line of the kind and the rest says.
    fn take_pref(&mut self, kind: &str, rest: String)
        requires
            old(self)@.wf(),
        ensures
            final(self)@ == pref_line(old(self)@, kind@, rest@),
            final(self)@.wf(),
    {
        if same(kind, "dir") {
            if !rest.as_str().is_empty() {
                add_once(&mut self.dirs, rest);
            }
        } else if same(kind, "saved") {
            self.take_image(rest.as_str());
        } else if same(kind, "saved-color") {
            self.take_color(rest.as_str());
        } else if same(kind, "icon-theme") {
            if !rest.as_str().is_empty() {
                self.icon_theme = Some(rest);
            }
        } else if same(kind, "cursor-theme") {
            if !rest.as_str().is_empty() {
                self.cursor_theme = Some(rest);
            }
        } else if same(kind, "cursor-size") {
            if let Some(n) = parse_u32(rest.as_str()) {
                self.cursor_size = Some(n);
            }
        }
    }

    /// Takes what a line says.
    fn take_line(&mut self, line: &str)
        requires
            old(self)@.wf(),
        ensures
            final(self)@ == config_line(old(self)@, line@),
            final(self)@.wf(),
    {
        let l = trim(line);
        let v = crate::text::chars_of(l.as_str());
        if v.len() == 0 || v[0] == '#' {
            return;
        }
        let (kind, rest) = split_once(l.as_str(), Class::White);
        let rest: String = match rest {
            Some(r) => trim(r.as_str()),
            None => {
                let none = String::new();
                assert(none@ =~= Seq::<char>::empty());
                trim(none.as_str())
            },
        };
        self.take_pref(kind.as_str(), rest);
    }

    /// Reads what was kept. Where nothing could be read, nothing was chosen.
    pub fn load(text: Option<&str>) -> (r: Config)
        ensures
            r@ == match text {
                Some(t) => config_lines(lines(t@)),
                None => no_prefs(),
            },
            r@.wf(),
    {
        let mut cfg = Config::default();
        if let Some(t) = text {
            let ls = split_lines(t);
            let ghost all = ls.deep_view();
            let mut i: usize = 0;
            assert(all.take(0) =~= Seq::<Text>::empty());
            while i < ls.len()
                invariant
                    i <= ls@.len(),
                    all == ls.deep_view(),
                    cfg@ == config_lines(all.take(i as int)),
                    cfg@.wf(),
                decreases ls@.len() - i,
            {
                assert(all.take(i + 1).drop_last() =~= all.take(i as int));
                assert(all.take(i + 1).last() == ls@[i as int]@);
                cfg.take_line(ls[i].as_str());
                i += 1;
            }
            assert(all.take(i as int) =~= all);
        }
        cfg
    }
}

// --- writing ------------------------------------------------------------------------------

/// A line of the kind and the rest.
pub open spec fn kind_line(kind: Text, rest: Text) -> Text {
    kind.push(' ') + rest
}

/// The line of a monitor's wallpaper.
pub open spec fn saved_line(e: (Text, Kept)) -> Text {
    match e.1 {
        Kept::Image { mode, path } => kind_line("saved"@, kind_line(e.0, kind_line(mode, path))),
        Kept::Color { color } => kind_line("saved-color"@, kind_line(e.0, color)),
    }
}

/// The lines that tell a reader what the file is.
pub open spec fn head_lines() -> Seq<Text> {
    seq![
        "# sommerflusswm wallpaper browser config"@,
        "# managed by sfwm-appearance; edits are preserved on the"@,
        "# next save only for recognised directives."@,
    ]
}

/// The lines of the directories.
pub open spec fn dir_lines(dirs: Seq<Text>) -> Seq<Text> {
    dirs.map_values(|d: Text| kind_line("dir"@, d))
}

/// The lines of the wallpapers.
pub open spec fn saved_lines(saved: Seq<(Text, Kept)>) -> Seq<Text> {
    saved.map_values(|e: (Text, Kept)| saved_line(e))
}

/// The line of a setting that is there.
pub open spec fn if_some(kind: Text, v: Option<Text>) -> Seq<Text> {
    match v {
        Some(t) => seq![kind_line(kind, t)],
        None => Seq::empty(),
    }
}

/// The lines of the themes.
pub open spec fn theme_lines(p: Prefs) -> Seq<Text> {
    if_some("icon-theme"@, p.icon_theme) + if_some("cursor-theme"@, p.cursor_theme) + if_some(
        "cursor-size"@,
        match p.cursor_size {
            Some(n) => Some(show(n as nat)),
            None => None,
        },
    )
}

/// The lines that keep the chosen look.
pub open spec fn written_lines(p: Prefs) -> Seq<Text> {
    head_lines() + dir_lines(p.dirs) + saved_lines(p.saved) + theme_lines(p)
}

/// Lines as a text, each with its end.
pub open spec fn ended(ls: Seq<Text>) -> Text
    decreases ls.len(),
{
    if ls.len() == 0 {
        Seq::empty()
    } else {
        ended(ls.drop_last()) + ls.last().push('\n')
    }
}

/// Adds a line.
fn add_line(out: &mut String, line: &str, Ghost(ls): Ghost<Seq<Text>>)
    requires
        old(out)@ == ended(ls),
    ensures
        final(out)@ == ended(ls.push(line@)),
{
    assert(ls.push(line@).drop_last() =~= ls);
    out.append(line);
    out.push('\n');
    assert(out@ =~= ended(ls) + line@.push('\n'));
}

/// Makes a line of the kind and the rest.
fn make_line(kind: &str, rest: &str) -> (r: String)
    ensures
        r@ == kind_line(kind@, rest@),
{
    let mut r = kind.to_owned();
    r.push(' ');
    r.append(rest);
    r
}

/// Makes the line of a monitor's wallpaper.
fn make_saved_line(monitor: &str, s: &Saved) -> (r: String)
    ensures
        r@ == saved_line((monitor@, s.deep_view())),
{
    match s {
        Saved::Image { mode, path } => make_line(
            "saved",
            make_line(monitor, make_line(mode.as_str(), path.as_str()).as_str()).as_str(),
        ),
        Saved::Color { color } => make_line(
            "saved-color",
            make_line(monitor, color.as_str()).as_str(),
        ),
    }
}

impl Config {
    /// Writes down what is to be kept.
    pub fn save(&self) -> (r: String)
        ensures
            r@ == ended(written_lines(self@)),
    {
        let mut out = String::new();
        let ghost mut ls: Seq<Text> = Seq::empty();
        assert(out@ =~= ended(ls));
        add_line(&mut out, "# sommerflusswm wallpaper browser config", Ghost(ls));
        proof {
            ls = ls.push("# sommerflusswm wallpaper browser config"@);
        }
        add_line(
            &mut out,
            "# managed by sfwm-appearance; edits are preserved on the",
            Ghost(ls),
        );
        proof {
            ls = ls.push("# managed by sfwm-appearance; edits are preserved on the"@);
        }
        add_line(&mut out, "# next save only for recognised directives.", Ghost(ls));
        proof {
            ls = ls.push("# next save only for recognised directives."@);
            assert(ls =~= head_lines());
        }
        let ghost ds = self.dirs.deep_view();
        let mut i: usize = 0;
        assert(ls =~= head_lines() + dir_lines(ds.take(0)));
        while i < self.dirs.len()
            invariant
                i <= self.dirs@.len(),
                ds == self.dirs.deep_view(),
                ls == head_lines() + dir_lines(ds.take(i as int)),
                out@ == ended(ls),
            decreases self.dirs@.len() - i,
        {
            let line = make_line("dir", self.dirs[i].as_str());
            add_line(&mut out, line.as_str(), Ghost(ls));
            proof {
                assert(ds[i as int] == self.dirs@[i as int]@);
                ls = ls.push(line@);
            }
            i += 1;
            assert(ls =~= head_lines() + dir_lines(ds.take(i as int)));
        }
        assert(ds.take(i as int) =~= ds);
        let ghost before = ls;
        let ghost ss = self.saved.deep_view();
        let mut k: usize = 0;
        assert(ls =~= before + saved_lines(ss.take(0)));
        while k < self.saved.len()
            invariant
                k <= self.saved@.len(),
                ss == self.saved.deep_view(),
                ls == before + saved_lines(ss.take(k as int)),
                out@ == ended(ls),
            decreases self.saved@.len() - k,
        {
            let line = make_saved_line(self.saved[k].0.as_str(), &self.saved[k].1);
            add_line(&mut out, line.as_str(), Ghost(ls));
            proof {
                assert(ss[k as int] == self.saved@[k as int].deep_view());
                ls = ls.push(line@);
            }
            k += 1;
            assert(ls =~= before + saved_lines(ss.take(k as int)));
        }
        assert(ss.take(k as int) =~= ss);
        self.add_themes(&mut out, Ghost(ls));
        out
    }

    /// Writes down the themes.
    fn add_themes(&self, out: &mut String, Ghost(start): Ghost<Seq<Text>>)
        requires
            old(out)@ == ended(start),
        ensures
            final(out)@ == ended(start + theme_lines(self@)),
    {
        let ghost mut ls = start;
        let ghost a = if_some("icon-theme"@, self@.icon_theme);
        let ghost b = if_some("cursor-theme"@, self@.cursor_theme);
        if let Some(t) = &self.icon_theme {
            let line = make_line("icon-theme", t.as_str());
            add_line(out, line.as_str(), Ghost(ls));
            proof {
                ls = ls.push(line@);
            }
        }
        assert(ls =~= start + a);
        if let Some(t) = &self.cursor_theme {
            let line = make_line("cursor-theme", t.as_str());
            add_line(out, line.as_str(), Ghost(ls));
            proof {
                ls = ls.push(line@);
            }
        }
        assert(ls =~= start + (a + b));
        if let Some(n) = self.cursor_size {
            let mut number = String::new();
            push_u64(&mut number, n as u64);
            assert(Seq::<char>::empty() + show(n as nat) =~= show(n as nat));
            let line = make_line("cursor-size", number.as_str());
            add_line(out, line.as_str(), Ghost(ls));
            proof {
                ls = ls.push(line@);
            }
        }
        assert(ls =~= start + theme_lines(self@));
    }

    /// Keeps a wallpaper for the monitor.
    pub fn set_saved(&mut self, monitor: &str, saved: Saved)
        requires
            old(self)@.wf(),
        ensures
            final(self)@ == (Prefs {
                saved: with_saved(old(self)@.saved, monitor@, saved.deep_view()),
                ..old(self)@
            }),
            final(self)@.wf(),
    {
        put_saved(&mut self.saved, monitor.to_owned(), saved);
    }

    /// Keeps the theme and the size of the cursor.
    pub fn set_cursor_theme(&mut self, dir_name: &str, size: u32)
        ensures
            final(self)@ == (Prefs {
                cursor_theme: Some(dir_name@),
                cursor_size: Some(size),
                ..old(self)@
            }),
    {
        self.cursor_theme = Some(dir_name.to_owned());
        self.cursor_size = Some(size);
    }

    /// Keeps the theme of the icons.
    pub fn set_icon_theme(&mut self, dir_name: &str)
        ensures
            final(self)@ == (Prefs { icon_theme: Some(dir_name@), ..old(self)@ }),
    {
        self.icon_theme = Some(dir_name.to_owned());
    }
}

/// Where the chosen look is kept.
pub open spec fn config_place(home: Option<Text>) -> Text {
    below(
        below(
            below(
                match home {
                    Some(h) => h,
                    None => "."@,
                },
                ".config"@,
            ),
            "sommerflusswm"@,
        ),
        "wallpaper.conf"@,
    )
}

/// Tells where the chosen look is kept.
pub fn config_path(home: Option<String>) -> (r: String)
    ensures
        r@ == config_place(home.deep_view()),
{
    let h: String = match home {
        Some(h) => h,
        None => ".".to_owned(),
    };
    join_path(
        join_path(join_path(h.as_str(), ".config").as_str(), "sommerflusswm").as_str(),
        "wallpaper.conf",
    )
}

/// The kinds of lines differ.
pub proof fn lemma_kinds()
    ensures
        "saved"@ != "dir"@,
        "saved-color"@ != "dir"@,
        "saved-color"@ != "saved"@,
        "icon-theme"@ != "dir"@,
        "icon-theme"@ != "saved"@,
        "icon-theme"@ != "saved-color"@,
        "cursor-theme"@ != "dir"@,
        "cursor-theme"@ != "saved"@,
        "cursor-theme"@ != "saved-color"@,
        "cursor-theme"@ != "icon-theme"@,
        "cursor-size"@ != "dir"@,
        "cursor-size"@ != "saved"@,
        "cursor-size"@ != "saved-color"@,
        "cursor-size"@ != "icon-theme"@,
        "cursor-size"@ != "cursor-theme"@,
{
    reveal_strlit("dir");
    reveal_strlit("saved");
    reveal_strlit("saved-color");
    reveal_strlit("icon-theme");
    reveal_strlit("cursor-theme");
    reveal_strlit("cursor-size");
    assert("dir"@.len() == 3 && "saved"@.len() == 5 && "icon-theme"@.len() == 10);
    assert("saved-color"@.len() == 11 && "cursor-size"@.len() == 11 && "cursor-theme"@.len() == 12);
    assert("cursor-size"@[0] == 'c' && "saved-color"@[0] == 's');
}

} // verus!
