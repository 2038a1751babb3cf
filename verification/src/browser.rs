//! The browser in which the look is chosen: wallpapers, icons and cursors.

use vstd::prelude::*;
use crate::config::{with_saved, Config, Kept, Prefs, Saved};
use crate::icon_theme::IconTheme;
use crate::number::{show, u64_text};
use crate::path::{file_label, from_root, label_of, starts_at_root};
use crate::programs::{
    clear_call, cursor_args, cursor_call, make_call, wallpaper_call,
};
use crate::reply::{three, two};
use crate::text::{has_prefix, same, starts_with, trim, trimmed, Text};
use crate::theme::{color_string, hex_byte};
use crate::tray_icon::has_string;

verus! {

// --- how an image is put on a monitor -----------------------------------------------------

/// How an image is put on a monitor.
#[derive(Clone, Copy, Debug, PartialEq, Eq, Structural)]
pub enum Mode {
    Fill,
    Fit,
    Stretch,
    Center,
    Tile,
}

impl Mode {
    /// The word for the mode.
    pub open spec fn word(self) -> Text {
        match self {
            Mode::Fill => "fill"@,
            Mode::Fit => "fit"@,
            Mode::Stretch => "stretch"@,
            Mode::Center => "center"@,
            Mode::Tile => "tile"@,
        }
    }

    /// The name by which the mode is shown.
    pub open spec fn title(self) -> Text {
        match self {
            Mode::Fill => "Fill"@,
            Mode::Fit => "Fit"@,
            Mode::Stretch => "Stretch"@,
            Mode::Center => "Center"@,
            Mode::Tile => "Tile"@,
        }
    }

    /// The word for the mode.
    pub fn token(self) -> (r: &'static str)
        ensures
            r@ == self.word(),
    {
        match self {
            Mode::Fill => "fill",
            Mode::Fit => "fit",
            Mode::Stretch => "stretch",
            Mode::Center => "center",
            Mode::Tile => "tile",
        }
    }

    /// The name by which the mode is shown.
    pub fn label(self) -> (r: &'static str)
        ensures
            r@ == self.title(),
    {
        match self {
            Mode::Fill => "Fill",
            Mode::Fit => "Fit",
            Mode::Stretch => "Stretch",
            Mode::Center => "Center",
            Mode::Tile => "Tile",
        }
    }

    /// The mode of a word; any other word is that of filling.
    pub fn from_token(s: &str) -> (r: Mode)
        ensures
            r == mode_of(s@),
    {
        if same(s, "fit") {
            Mode::Fit
        } else if same(s, "stretch") {
            Mode::Stretch
        } else if same(s, "center") {
            Mode::Center
        } else if same(s, "tile") {
            Mode::Tile
        } else {
            Mode::Fill
        }
    }
}

/// The mode of a word.
pub open spec fn mode_of(s: Text) -> Mode {
    if s == "fit"@ {
        Mode::Fit
    } else if s == "stretch"@ {
        Mode::Stretch
    } else if s == "center"@ {
        Mode::Center
    } else if s == "tile"@ {
        Mode::Tile
    } else {
        Mode::Fill
    }
}

/// The word for a mode stands for it.
pub proof fn law_mode_round_trip(m: Mode)
    ensures
        mode_of(m.word()) == m,
{
    reveal_strlit("fill");
    reveal_strlit("fit");
    reveal_strlit("stretch");
    reveal_strlit("center");
    reveal_strlit("tile");
    assert("fill"@.len() == 4 && "fit"@.len() == 3 && "stretch"@.len() == 7 && "center"@.len() == 6
        && "tile"@.len() == 4);
    assert("fill"@[0] == 'f' && "tile"@[0] == 't');
}

// --- the browser --------------------------------------------------------------------------

/// What the browser shows and has chosen.
#[derive(Debug)]
pub struct Browser {
    pub cfg: Config,
    /// The number of the directory that is shown.
    pub selected_dir: Option<usize>,
    /// The images in it.
    pub images: Vec<String>,
    pub selected_image: Option<String>,
    /// What is typed of a directory that is to be added.
    pub new_dir_input: String,
    pub mode: Mode,
    pub monitors: Vec<String>,
    pub monitor: String,
    pub color: (u8, u8, u8),
    /// What is said of the last thing that was done.
    pub status: String,
    pub themes: Vec<IconTheme>,
    pub selected_theme: Option<usize>,
    pub icon_status: String,
    pub cursor_themes: Vec<String>,
    pub selected_cursor: Option<usize>,
    pub cursor_size: u32,
    pub cursor_status: String,
}

/// What the browser shows and has chosen, its strings as texts.
#[verifier::ext_equal]
pub ghost struct Showing {
    pub cfg: Prefs,
    pub selected_dir: Option<usize>,
    pub images: Seq<Text>,
    pub selected_image: Option<Text>,
    pub new_dir_input: Text,
    pub mode: Mode,
    pub monitors: Seq<Text>,
    pub monitor: Text,
    pub color: (u8, u8, u8),
    pub status: Text,
    pub themes: Seq<(Text, Text)>,
    pub selected_theme: Option<usize>,
    pub icon_status: Text,
    pub cursor_themes: Seq<Text>,
    pub selected_cursor: Option<usize>,
    pub cursor_size: u32,
    pub cursor_status: Text,
}

impl View for Browser {
    type V = Showing;

    open spec fn view(&self) -> Showing {
        Showing {
            cfg: self.cfg@,
            selected_dir: self.selected_dir,
            images: self.images.deep_view(),
            selected_image: self.selected_image.deep_view(),
            new_dir_input: self.new_dir_input@,
            mode: self.mode,
            monitors: self.monitors.deep_view(),
            monitor: self.monitor@,
            color: self.color,
            status: self.status@,
            themes: self.themes.deep_view(),
            selected_theme: self.selected_theme,
            icon_status: self.icon_status@,
            cursor_themes: self.cursor_themes.deep_view(),
            selected_cursor: self.selected_cursor,
            cursor_size: self.cursor_size,
            cursor_status: self.cursor_status@,
        }
    }
}

/// The place of the first theme of the name.
pub open spec fn theme_place(themes: Seq<(Text, Text)>, name: Text) -> Option<usize>
    decreases themes.len(),
{
    if themes.len() == 0 {
        None
    } else {
        match theme_place(themes.drop_last(), name) {
            Some(i) => Some(i),
            None => if themes.last().0 == name {
                Some((themes.len() - 1) as usize)
            } else {
                None
            },
        }
    }
}

/// The place of the first text that is the one.
pub open spec fn text_place(ts: Seq<Text>, t: Text) -> Option<usize>
    decreases ts.len(),
{
    if ts.len() == 0 {
        None
    } else {
        match text_place(ts.drop_last(), t) {
            Some(i) => Some(i),
            None => if ts.last() == t {
                Some((ts.len() - 1) as usize)
            } else {
                None
            },
        }
    }
}

/// The browser as it opens. Where no directory was chosen, those that are usual are shown.
pub open spec fn opened(
    cfg: Prefs,
    usual: Seq<Text>,
    monitors: Seq<Text>,
    themes: Seq<(Text, Text)>,
    cursors: Seq<Text>,
) -> Showing {
    Showing {
        cfg: if cfg.dirs.len() == 0 {
            Prefs { dirs: usual, ..cfg }
        } else {
            cfg
        },
        selected_dir: None,
        images: Seq::empty(),
        selected_image: None,
        new_dir_input: Seq::empty(),
        mode: Mode::Fill,
        monitors,
        monitor: if monitors.len() > 0 {
            monitors[0]
        } else {
            "all"@
        },
        color: (30u8, 30u8, 46u8),
        status: "Ready."@,
        themes,
        selected_theme: match cfg.icon_theme {
            Some(t) => theme_place(themes, t),
            None => None,
        },
        icon_status: "Ready."@,
        cursor_themes: cursors,
        selected_cursor: match cfg.cursor_theme {
            Some(t) => text_place(cursors, t),
            None => None,
        },
        cursor_size: match cfg.cursor_size {
            Some(n) => n,
            None => 24u32,
        },
        cursor_status: "Ready."@,
    }
}

/// Finds the first theme of the name.
fn find_theme(themes: &Vec<IconTheme>, name: &str) -> (r: Option<usize>)
    ensures
        r == theme_place(themes.deep_view(), name@),
{
    let ghost all = themes.deep_view();
    let mut i: usize = 0;
    assert(all.take(0) =~= Seq::<(Text, Text)>::empty());
    while i < themes.len()
        invariant
            i <= themes@.len(),
            all == themes.deep_view(),
            theme_place(all.take(i as int), name@) is None,
        decreases themes@.len() - i,
    {
        assert(all.take(i + 1).drop_last() =~= all.take(i as int));
        assert(all.take(i + 1).last() == themes@[i as int].deep_view());
        if same(themes[i].dir_name.as_str(), name) {
            proof {
                lemma_theme_stays(all, name@, i + 1);
            }
            return Some(i);
        }
        i += 1;
    }
    assert(all.take(i as int) =~= all);
    None
}

/// A place that was found among the first themes is found among all.
proof fn lemma_theme_stays(themes: Seq<(Text, Text)>, name: Text, n: int)
    requires
        0 <= n <= themes.len(),
        theme_place(themes.take(n), name) is Some,
    ensures
        theme_place(themes, name) == theme_place(themes.take(n), name),
    decreases themes.len() - n,
{
    if n < themes.len() {
        assert(themes.take(n + 1).drop_last() =~= themes.take(n));
        lemma_theme_stays(themes, name, n + 1);
    } else {
        assert(themes.take(n) =~= themes);
    }
}

/// Finds the first string that is the one.
fn find_string(v: &Vec<String>, s: &str) -> (r: Option<usize>)
    ensures
        r == text_place(v.deep_view(), s@),
{
    let ghost all = v.deep_view();
    let mut i: usize = 0;
    assert(all.take(0) =~= Seq::<Text>::empty());
    while i < v.len()
        invariant
            i <= v@.len(),
            all == v.deep_view(),
            text_place(all.take(i as int), s@) is None,
        decreases v@.len() - i,
    {
        assert(all.take(i + 1).drop_last() =~= all.take(i as int));
        assert(all.take(i + 1).last() == v@[i as int]@);
        if same(v[i].as_str(), s) {
            proof {
                lemma_text_stays(all, s@, i + 1);
            }
            return Some(i);
        }
        i += 1;
    }
    assert(all.take(i as int) =~= all);
    None
}

proof fn lemma_text_stays(ts: Seq<Text>, t: Text, n: int)
    requires
        0 <= n <= ts.len(),
        text_place(ts.take(n), t) is Some,
    ensures
        text_place(ts, t) == text_place(ts.take(n), t),
    decreases ts.len() - n,
{
    if n < ts.len() {
        assert(ts.take(n + 1).drop_last() =~= ts.take(n));
        lemma_text_stays(ts, t, n + 1);
    } else {
        assert(ts.take(n) =~= ts);
    }
}

/// What is said where something failed.
pub open spec fn trouble(message: Text) -> Text {
    "error: "@ + message
}

/// What is said where the choice could not be kept.
pub open spec fn not_kept(message: Text) -> Text {
    "error: saving config: "@ + message
}

/// Whether what is said is of a failure.
pub open spec fn is_trouble(status: Text) -> bool {
    has_prefix(status, "error:"@)
}

/// Tells whether what is said is of a failure.
pub fn says_error(status: &str) -> (r: bool)
    ensures
        r == is_trouble(status@),
{
    starts_with(status, "error:")
}

/// The directories that are shown where none was chosen, if they are there.
pub fn usual_dirs(home: &str) -> (r: Vec<String>)
    ensures
        r.deep_view() == seq![home@ + "/Pictures/wallpapers"@, home@ + "/wallpapers"@],
{
    let mut r: Vec<String> = Vec::new();
    r.push(two(home, "/Pictures/wallpapers"));
    r.push(two(home, "/wallpapers"));
    assert(r.deep_view() =~= seq![home@ + "/Pictures/wallpapers"@, home@ + "/wallpapers"@]);
    r
}

/// What is said once an image is on a monitor.
pub open spec fn applied_text(path: Text, mode: Mode, monitor: Text) -> Text {
    "Applied "@ + label_of(path) + " ("@ + mode.title() + ", monitor "@ + monitor + ")."@
}

/// The image is on the monitor, or could not be put there.
pub open spec fn image_told(b: Showing, failure: Option<Text>) -> Showing {
    match b.selected_image {
        None => Showing { status: "No image selected."@, ..b },
        Some(path) => Showing {
            status: match failure {
                None => applied_text(path, b.mode, b.monitor),
                Some(e) => trouble(e),
            },
            ..b
        },
    }
}

/// The choice was kept, or could not be.
pub open spec fn kept_told(b: Showing, failure: Option<Text>) -> Showing {
    Showing {
        status: match failure {
            None => b.status + " Saved."@,
            Some(e) => not_kept(e),
        },
        ..b
    }
}

/// The colour as it is written.
pub open spec fn color_text(c: (u8, u8, u8)) -> Text {
    seq!['#'] + hex_byte(c.0) + hex_byte(c.1) + hex_byte(c.2)
}

/// Writes the colour.
pub fn hex_color(c: (u8, u8, u8)) -> (r: String)
    ensures
        r@ == color_text(c),
{
    let whole = color_string((c.0, c.1, c.2, 0));
    let v = crate::text::chars_of(whole.as_str());
    assert(v@.subrange(0, 7) =~= color_text(c));
    crate::text::string_of(&v, 0, 7)
}

/// The browser with a wallpaper kept for its monitor.
pub open spec fn with_kept(b: Showing, k: Kept) -> Showing {
    Showing { cfg: Prefs { saved: with_saved(b.cfg.saved, b.monitor, k), ..b.cfg }, ..b }
}

/// The colour is on the monitor, or could not be put there; where it is to be kept, and
/// is there, it is.
pub open spec fn color_told(b: Showing, failure: Option<Text>, keep: bool) -> Showing {
    let hex = color_text(b.color);
    match failure {
        Some(e) => Showing { status: trouble(e), ..b },
        None => {
            let told = Showing {
                status: "Applied colour "@ + hex + " (monitor "@ + b.monitor + ")."@,
                ..b
            };
            if keep {
                with_kept(told, Kept::Color { color: hex })
            } else {
                told
            }
        },
    }
}

/// The theme that is chosen.
pub open spec fn chosen_theme(b: Showing) -> Option<(Text, Text)> {
    match b.selected_theme {
        Some(i) => if i < b.themes.len() {
            Some(b.themes[i as int])
        } else {
            None
        },
        None => None,
    }
}

/// The theme of the cursor that is chosen.
pub open spec fn chosen_cursor(b: Showing) -> Option<Text> {
    match b.selected_cursor {
        Some(i) => if i < b.cursor_themes.len() {
            Some(b.cursor_themes[i as int])
        } else {
            None
        },
        None => None,
    }
}

/// The size of the cursor: at least one pixel.
pub open spec fn cursor_pixels(b: Showing) -> u32 {
    if b.cursor_size == 0 {
        1
    } else {
        b.cursor_size
    }
}

/// What comes of a directory that is typed.
#[derive(Debug)]
pub enum Adding {
    /// Nothing: none is typed, or what is typed will not do.
    Stays,
    /// The directory of the number is new, and is to be shown.
    Shown(usize),
}

/// A directory is added: what is typed, where it is a directory, named in full, and not
/// there yet.
pub open spec fn dir_added(b: Showing, is_dir: bool) -> (Showing, Adding) {
    let path = trimmed(b.new_dir_input);
    if path.len() == 0 {
        (b, Adding::Stays)
    } else if !from_root(path) {
        (Showing { status: "error: not an absolute path: "@ + path, ..b }, Adding::Stays)
    } else if !is_dir {
        (Showing { status: "error: not a directory: "@ + path, ..b }, Adding::Stays)
    } else if b.cfg.dirs.contains(path) {
        (
            Showing {
                status: "Directory already in list."@,
                new_dir_input: Seq::empty(),
                ..b
            },
            Adding::Stays,
        )
    } else {
        (
            Showing {
                cfg: Prefs { dirs: b.cfg.dirs.push(path), ..b.cfg },
                new_dir_input: Seq::empty(),
                status: "Added "@ + path + "."@,
                ..b
            },
            Adding::Shown(b.cfg.dirs.len() as usize),
        )
    }
}

/// A directory is taken from the list; one that is shown behind it keeps being shown.
pub open spec fn dir_removed(b: Showing, i: usize) -> Showing {
    let cfg = Prefs { dirs: b.cfg.dirs.remove(i as int), ..b.cfg };
    match b.selected_dir {
        Some(s) => if s == i {
            Showing { cfg, selected_dir: None, images: Seq::empty(), selected_image: None, ..b }
        } else if s > i {
            Showing { cfg, selected_dir: Some((s - 1) as usize), ..b }
        } else {
            Showing { cfg, ..b }
        },
        None => Showing { cfg, ..b },
    }
}

/// The text of a failure, if any.
pub open spec fn failure_of(r: Result<(), String>) -> Option<Text> {
    match r {
        Ok(_) => None,
        Err(e) => Some(e@),
    }
}

impl Browser {
    /// Opens the browser.
    pub fn new(
        cfg: Config,
        usual: Vec<String>,
        monitors: Vec<String>,
        themes: Vec<IconTheme>,
        cursors: Vec<String>,
    ) -> (r: Browser)
        requires
            cfg@.wf(),
        ensures
            r@ == opened(
                cfg@,
                usual.deep_view(),
                monitors.deep_view(),
                themes.deep_view(),
                cursors.deep_view(),
            ),
            r@.cfg.wf(),
    {
        let ghost goal = opened(
            cfg@,
            usual.deep_view(),
            monitors.deep_view(),
            themes.deep_view(),
            cursors.deep_view(),
        );
        let monitor: String = if monitors.len() > 0 {
            assert(monitors.deep_view()[0] == monitors@[0]@);
            monitors[0].clone()
        } else {
            "all".to_owned()
        };
        let selected_theme: Option<usize> = match &cfg.icon_theme {
            Some(t) => find_theme(&themes, t.as_str()),
            None => None,
        };
        let selected_cursor: Option<usize> = match &cfg.cursor_theme {
            Some(t) => find_string(&cursors, t.as_str()),
            None => None,
        };
        let cursor_size: u32 = match cfg.cursor_size {
            Some(n) => n,
            None => 24,
        };
        let mut cfg = cfg;
        if cfg.dirs.len() == 0 {
            cfg.dirs = usual;
        }
        let r = Browser {
            cfg,
            selected_dir: None,
            images: Vec::new(),
            selected_image: None,
            new_dir_input: String::new(),
            mode: Mode::Fill,
            monitors,
            monitor,
            color: (30, 30, 46),
            status: "Ready.".to_owned(),
            themes,
            selected_theme,
            icon_status: "Ready.".to_owned(),
            cursor_themes: cursors,
            selected_cursor,
            cursor_size,
            cursor_status: "Ready.".to_owned(),
        };
        assert(r@ =~= goal);
        r
    }

    /// Shows a directory.
    pub fn select_dir(&mut self, i: usize, images: Vec<String>)
        ensures
            final(self)@ == (Showing {
                selected_dir: Some(i),
                selected_image: None,
                images: if i < old(self)@.cfg.dirs.len() {
                    images.deep_view()
                } else {
                    Seq::empty()
                },
                ..old(self)@
            }),
    {
        self.selected_dir = Some(i);
        self.selected_image = None;
        if i < self.cfg.dirs.len() {
            self.images = images;
        } else {
            self.images = Vec::new();
            assert(self.images.deep_view() =~= Seq::<Text>::empty());
        }
    }

    /// What the client is to be told to put the image on the monitor.
    pub fn image_call(&self) -> (r: Option<Vec<String>>)
        ensures
            r.deep_view() == match self@.selected_image {
                Some(path) => Some(
                    wallpaper_call(
                        self@.monitor,
                        Kept::Image { mode: self@.mode.word(), path },
                    ),
                ),
                None => None,
            },
    {
        match &self.selected_image {
            Some(path) => {
                let k = Saved::Image { mode: self.mode.token().to_owned(), path: path.clone() };
                Some(make_call(self.monitor.as_str(), &k))
            },
            None => None,
        }
    }

    /// Is told whether the image is on the monitor.
    pub fn apply_image(&mut self, result: Result<(), String>)
        ensures
            final(self)@ == image_told(old(self)@, failure_of(result)),
    {
        match &self.selected_image {
            None => {
                self.status = "No image selected.".to_owned();
            },
            Some(path) => {
                self.status = match result {
                    Ok(_) => {
                        let a = three("Applied ", file_label(path.as_str()).as_str(), " (");
                        let b = three(a.as_str(), self.mode.label(), ", monitor ");
                        three(b.as_str(), self.monitor.as_str(), ").")
                    },
                    Err(e) => two("error: ", e.as_str()),
                };
            },
        }
    }

    /// Is told whether the image is on the monitor, and keeps it where it is. Says whether
    /// there is something to write down.
    pub fn apply_and_save_image(&mut self, result: Result<(), String>) -> (r: bool)
        requires
            old(self)@.cfg.wf(),
        ensures
            ({
                let told = image_told(old(self)@, failure_of(result));
                if old(self)@.selected_image is None || is_trouble(told.status) {
                    final(self)@ == told && !r
                } else {
                    final(self)@ == with_kept(
                        told,
                        Kept::Image {
                            mode: old(self)@.mode.word(),
                            path: old(self)@.selected_image->Some_0,
                        },
                    ) && r
                }
            }),
            final(self)@.cfg.wf(),
    {
        self.apply_image(result);
        if says_error(self.status.as_str()) {
            return false;
        }
        match &self.selected_image {
            None => false,
            Some(path) => {
                let k = Saved::Image { mode: self.mode.token().to_owned(), path: path.clone() };
                self.cfg.set_saved(self.monitor.as_str(), k);
                true
            },
        }
    }

    /// Is told whether the choice was written down.
    pub fn saved(&mut self, result: Result<(), String>)
        ensures
            final(self)@ == kept_told(old(self)@, failure_of(result)),
    {
        self.status = match result {
            Ok(_) => two(self.status.as_str(), " Saved."),
            Err(e) => two("error: saving config: ", e.as_str()),
        };
    }

    /// What the client is to be told to put the colour on the monitor.
    pub fn color_call(&self) -> (r: Vec<String>)
        ensures
            r.deep_view() == wallpaper_call(
                self@.monitor,
                Kept::Color { color: color_text(self@.color) },
            ),
    {
        make_call(self.monitor.as_str(), &Saved::Color { color: hex_color(self.color) })
    }

    /// Is told whether the colour is on the monitor. Says whether there is something to
    /// write down.
    pub fn apply_color(&mut self, result: Result<(), String>, keep: bool) -> (r: bool)
        requires
            old(self)@.cfg.wf(),
        ensures
            final(self)@ == color_told(old(self)@, failure_of(result), keep),
            final(self)@.cfg.wf(),
            r == (keep && result is Ok),
    {
        let hex = hex_color(self.color);
        match result {
            Ok(_) => {
                let a = three("Applied colour ", hex.as_str(), " (monitor ");
                self.status = three(a.as_str(), self.monitor.as_str(), ").");
                if keep {
                    self.cfg.set_saved(self.monitor.as_str(), Saved::Color { color: hex });
                }
                keep
            },
            Err(e) => {
                self.status = two("error: ", e.as_str());
                false
            },
        }
    }

    /// What the client is to be told to clear the monitor.
    pub fn clear_args(&self) -> (r: Vec<String>)
        ensures
            r.deep_view() == seq!["wallpaper"@, "off"@, "monitor="@ + self@.monitor],
    {
        clear_call(self.monitor.as_str())
    }

    /// Is told whether the monitor is clear.
    pub fn cleared(&mut self, result: Result<(), String>)
        ensures
            final(self)@ == (Showing {
                status: match failure_of(result) {
                    None => "Cleared monitor "@ + old(self)@.monitor + "."@,
                    Some(e) => trouble(e),
                },
                ..old(self)@
            }),
    {
        self.status = match result {
            Ok(_) => three("Cleared monitor ", self.monitor.as_str(), "."),
            Err(e) => two("error: ", e.as_str()),
        };
    }

    /// What the client is to be told to set the cursor.
    pub fn cursor_args(&self) -> (r: Option<Vec<String>>)
        ensures
            r.deep_view() == match chosen_cursor(self@) {
                Some(t) => Some(cursor_args(t, cursor_pixels(self@))),
                None => None,
            },
    {
        match self.selected_cursor {
            Some(i) => if i < self.cursor_themes.len() {
                assert(self@.cursor_themes[i as int] == self.cursor_themes@[i as int]@);
                let size: u32 = if self.cursor_size == 0 {
                    1
                } else {
                    self.cursor_size
                };
                Some(cursor_call(self.cursor_themes[i].as_str(), size))
            } else {
                None
            },
            None => None,
        }
    }

    /// Is told whether the cursor is set, and keeps it where it is. Says whether there is
    /// something to write down.
    pub fn apply_cursor_theme(&mut self, result: Result<(), String>) -> (r: bool)
        ensures
            match (chosen_cursor(old(self)@), failure_of(result)) {
                (None, _) => final(self)@ == (Showing {
                    cursor_status: "No cursor theme selected."@,
                    ..old(self)@
                }) && !r,
                (Some(t), None) => final(self)@ == (Showing {
                    cfg: Prefs {
                        cursor_theme: Some(t),
                        cursor_size: Some(cursor_pixels(old(self)@)),
                        ..old(self)@.cfg
                    },
                    ..old(self)@
                }) && r,
                (Some(t), Some(e)) => final(self)@ == (Showing {
                    cursor_status: trouble(e),
                    ..old(self)@
                }) && !r,
            },
    {
        let theme: Option<String> = match self.selected_cursor {
            Some(i) => if i < self.cursor_themes.len() {
                assert(self@.cursor_themes[i as int] == self.cursor_themes@[i as int]@);
                Some(self.cursor_themes[i].clone())
            } else {
                None
            },
            None => None,
        };
        match theme {
            None => {
                self.cursor_status = "No cursor theme selected.".to_owned();
                false
            },
            Some(t) => match result {
                Ok(_) => {
                    let size: u32 = if self.cursor_size == 0 {
                        1
                    } else {
                        self.cursor_size
                    };
                    self.cfg.set_cursor_theme(t.as_str(), size);
                    true
                },
                Err(e) => {
                    self.cursor_status = two("error: ", e.as_str());
                    false
                },
            },
        }
    }

    /// Is told whether the cursor that was set was written down.
    pub fn cursor_saved(&mut self, result: Result<(), String>)
        ensures
            final(self)@ == (Showing {
                cursor_status: match failure_of(result) {
                    None => match chosen_cursor(old(self)@) {
                        Some(t) => "Applied cursor theme "@ + t + " @ "@ + show(
                            cursor_pixels(old(self)@) as nat,
                        ) + "px. Saved."@,
                        None => old(self)@.cursor_status,
                    },
                    Some(e) => not_kept(e),
                },
                ..old(self)@
            }),
    {
        match result {
            Err(e) => {
                self.cursor_status = two("error: saving config: ", e.as_str());
            },
            Ok(_) => {
                if let Some(i) = self.selected_cursor {
                    if i < self.cursor_themes.len() {
                        assert(self@.cursor_themes[i as int] == self.cursor_themes@[i as int]@);
                        let size: u32 = if self.cursor_size == 0 {
                            1
                        } else {
                            self.cursor_size
                        };
                        let a = three(
                            "Applied cursor theme ",
                            self.cursor_themes[i].as_str(),
                            " @ ",
                        );
                        self.cursor_status = three(
                            a.as_str(),
                            u64_text(size as u64).as_str(),
                            "px. Saved.",
                        );
                    }
                }
            },
        }
    }

    /// The theme of the icons that is to be set, by its directory.
    pub fn icon_choice(&self) -> (r: Option<String>)
        ensures
            r.deep_view() == match chosen_theme(self@) {
                Some(t) => Some(t.0),
                None => None,
            },
    {
        match self.selected_theme {
            Some(i) => if i < self.themes.len() {
                assert(self@.themes[i as int] == self.themes@[i as int].deep_view());
                Some(self.themes[i].dir_name.clone())
            } else {
                None
            },
            None => None,
        }
    }

    /// Is told whether the theme of the icons is set, and keeps it where it is. Says
    /// whether there is something to write down.
    pub fn apply_icon_theme(&mut self, result: Result<(), String>) -> (r: bool)
        ensures
            match (chosen_theme(old(self)@), failure_of(result)) {
                (None, _) => final(self)@ == (Showing {
                    icon_status: "No icon theme selected."@,
                    ..old(self)@
                }) && !r,
                (Some(t), None) => final(self)@ == (Showing {
                    cfg: Prefs { icon_theme: Some(t.0), ..old(self)@.cfg },
                    ..old(self)@
                }) && r,
                (Some(t), Some(e)) => final(self)@ == (Showing {
                    icon_status: trouble(e),
                    ..old(self)@
                }) && !r,
            },
    {
        match self.icon_choice() {
            None => {
                self.icon_status = "No icon theme selected.".to_owned();
                false
            },
            Some(dir) => match result {
                Ok(_) => {
                    self.cfg.set_icon_theme(dir.as_str());
                    true
                },
                Err(e) => {
                    self.icon_status = two("error: ", e.as_str());
                    false
                },
            },
        }
    }

    /// Is told whether the theme that was set was written down.
    pub fn icon_saved(&mut self, result: Result<(), String>)
        ensures
            final(self)@ == (Showing {
                icon_status: match failure_of(result) {
                    None => match chosen_theme(old(self)@) {
                        Some(t) => "Applied icon theme "@ + t.1 + " ("@ + t.0 + "). Saved."@,
                        None => old(self)@.icon_status,
                    },
                    Some(e) => not_kept(e),
                },
                ..old(self)@
            }),
    {
        match result {
            Err(e) => {
                self.icon_status = two("error: saving config: ", e.as_str());
            },
            Ok(_) => {
                if let Some(i) = self.selected_theme {
                    if i < self.themes.len() {
                        assert(self@.themes[i as int] == self.themes@[i as int].deep_view());
                        let t = &self.themes[i];
                        let a = three("Applied icon theme ", t.display_name.as_str(), " (");
                        self.icon_status = three(a.as_str(), t.dir_name.as_str(), "). Saved.");
                    }
                }
            },
        }
    }

    /// The directory that is typed.
    pub fn typed_dir(&self) -> (r: String)
        ensures
            r@ == trimmed(self@.new_dir_input),
    {
        trim(self.new_dir_input.as_str())
    }

    /// Adds the directory that is typed, which is one or not. Where it is new, it is to be
    /// shown and the choice to be written down.
    pub fn add_dir(&mut self, is_dir: bool) -> (r: Adding)
        ensures
            (final(self)@, r) == dir_added(old(self)@, is_dir),
    {
        let ghost start = self@;
        let path = self.typed_dir();
        if path.as_str().is_empty() {
            return Adding::Stays;
        }
        if !starts_at_root(path.as_str()) {
            self.status = two("error: not an absolute path: ", path.as_str());
            return Adding::Stays;
        }
        if !is_dir {
            self.status = two("error: not a directory: ", path.as_str());
            return Adding::Stays;
        }
        if has_string(&self.cfg.dirs, path.as_str()) {
            self.status = "Directory already in list.".to_owned();
            self.new_dir_input = String::new();
            assert(self.new_dir_input@ =~= Seq::<char>::empty());
            return Adding::Stays;
        }
        let i: usize = self.cfg.dirs.len();
        assert(i == start.cfg.dirs.len());
        self.status = three("Added ", path.as_str(), ".");
        self.cfg.dirs.push(path);
        assert(self.cfg.dirs.deep_view() =~= start.cfg.dirs.push(path@));
        self.new_dir_input = String::new();
        assert(self.new_dir_input@ =~= Seq::<char>::empty());
        Adding::Shown(i)
    }

    /// Takes a directory from the list.
    pub fn remove_dir(&mut self, i: usize)
        requires
            i < old(self)@.cfg.dirs.len(),
        ensures
            final(self)@ == dir_removed(old(self)@, i),
    {
        let ghost start = self@;
        assert(self.cfg.dirs@.len() == start.cfg.dirs.len());
        let _ = self.cfg.dirs.remove(i);
        assert(self.cfg.dirs.deep_view() =~= start.cfg.dirs.remove(i as int));
        if let Some(s) = self.selected_dir {
            if s == i {
                self.selected_dir = None;
                self.images = Vec::new();
                assert(self.images.deep_view() =~= Seq::<Text>::empty());
                self.selected_image = None;
            } else if s > i {
                self.selected_dir = Some(s - 1);
            }
        }
    }
}

/// A directory that is shown stays the same one when another is taken from the list.
pub proof fn law_shown_stays(b: Showing, i: usize)
    requires
        i < b.cfg.dirs.len(),
        b.selected_dir matches Some(s) && s < b.cfg.dirs.len() && s != i,
    ensures
        dir_removed(b, i).selected_dir matches Some(s) && s < dir_removed(b, i).cfg.dirs.len()
            && dir_removed(b, i).cfg.dirs[s as int] == b.cfg.dirs[b.selected_dir->Some_0 as int],
{
}

/// Notes what is asked for; says whether it was not asked for before.
pub fn ask_once(asked: &mut Vec<String>, key: &str) -> (r: bool)
    ensures
        r == !old(asked).deep_view().contains(key@),
        final(asked).deep_view() == crate::tray_icon::with_text(old(asked).deep_view(), key@),
{
    let known = has_string(asked, key);
    if !known {
        let ghost before = asked.deep_view();
        asked.push(key.to_owned());
        assert(asked.deep_view() =~= before.push(key@));
    }
    !known
}

} // verus!
