//! The command on backgrounds.

use vstd::prelude::*;
use crate::monitor::{find_screen, selector_text, MonitorSel};
use crate::reply::{err, err3, err_about, err_text, ok, ok_text};
use crate::state::{Deed, Effect, State, World};
use crate::table::{drop_key, put, put_key, remove_key, value_of};
use crate::text::{after, same, strip_prefix, Text};
use crate::theme::{color_text, parse_color};
use crate::wallpaper::{Backdrop, WallMode, WallpaperContent};

verus! {

/// The way of fitting of a name.
pub open spec fn mode_named(s: Text) -> Option<WallMode> {
    if s == "fill"@ {
        Some(WallMode::Fill)
    } else if s == "fit"@ {
        Some(WallMode::Fit)
    } else if s == "stretch"@ {
        Some(WallMode::Stretch)
    } else if s == "center"@ {
        Some(WallMode::Center)
    } else if s == "tile"@ {
        Some(WallMode::Tile)
    } else {
        None
    }
}

/// What words say of the monitor and the way of fitting; other words say nothing here.
pub open spec fn wall_words(words: Seq<Text>) -> Result<(Option<Text>, WallMode), Text>
    decreases words.len(),
{
    if words.len() == 0 {
        Ok((None, WallMode::Fill))
    } else {
        match wall_words(words.drop_last()) {
            Err(e) => Err(e),
            Ok(o) => wall_word(o, words.last()),
        }
    }
}

/// What one more word says.
pub open spec fn wall_word(o: (Option<Text>, WallMode), word: Text) -> Result<
    (Option<Text>, WallMode),
    Text,
> {
    if let Some(v) = after(word, "monitor="@) {
        Ok((Some(v), o.1))
    } else if let Some(v) = after(word, "mode="@) {
        match mode_named(v) {
            Some(m) => Ok((o.0, m)),
            None => Err(err_about("wallpaper: unknown mode '"@, v, "'"@)),
        }
    } else {
        Ok(o)
    }
}

/// Whether all monitors are meant.
pub open spec fn means_all(monitor: Option<Text>) -> bool {
    monitor is None || monitor == Some("all"@)
}

/// The monitors that are meant.
pub open spec fn wall_monitors(w: World, monitor: Option<Text>) -> Result<Seq<usize>, Text> {
    if means_all(monitor) {
        Ok(Seq::new(w.desk.list.len(), |i: int| i as usize))
    } else {
        match find_screen(w.desk.list, selector_text(monitor->0)) {
            Some(i) => Ok(seq![i as usize]),
            None => Err(err_about("wallpaper: no such monitor '"@, monitor->0, "'"@)),
        }
    }
}

/// Monitors given a background.
pub open spec fn set_backdrops(w: World, mons: Seq<usize>, c: Backdrop) -> World
    decreases mons.len(),
{
    if mons.len() == 0 {
        w
    } else {
        let v = set_backdrops(w, mons.drop_last(), c);
        (World {
            wallpapers: put(v.wallpapers, mons.last() as u64, c),
            painted: drop_key(v.painted, mons.last() as u64),
            ..v
        }).then_do(Deed::ShowBackdrop(mons.last()))
    }
}

/// Monitors given a background, where the display offers what it takes.
pub open spec fn show_backdrops(w: World, mons: Seq<usize>, c: Backdrop) -> World {
    if w.globals.compositor && w.globals.wm {
        set_backdrops(w, mons, c)
    } else {
        w
    }
}

/// A monitor's background taken away, where it has one.
pub open spec fn without_backdrop(w: World, m: usize) -> World {
    if value_of(w.wallpapers, m as u64) is Some {
        (World {
            wallpapers: drop_key(w.wallpapers, m as u64),
            painted: drop_key(w.painted, m as u64),
            ..w
        }).then_do(Deed::HideBackdrop(m))
    } else {
        w
    }
}

/// The backgrounds of monitors taken away.
pub open spec fn without_backdrops(w: World, mons: Seq<usize>) -> World
    decreases mons.len(),
{
    if mons.len() == 0 {
        w
    } else {
        without_backdrop(without_backdrops(w, mons.drop_last()), mons.last())
    }
}

/// The monitors that have a background.
pub open spec fn papered(walls: Seq<(u64, Backdrop)>) -> Seq<usize> {
    walls.map_values(|p: (u64, Backdrop)| p.0 as usize)
}

/// What `wallpaper` comes to before a file is asked for.
pub ghost enum Wall {
    /// It is done.
    Done(World, Text),
    /// It depends on whether the path is that of a file.
    File { mons: Seq<usize>, path: Text, mode: WallMode },
}

/// `wallpaper <off | color <colour> | path> [monitor=<monitor>|all] [mode=<mode>]`.
pub open spec fn wallpaper(w: World, a: Seq<Text>) -> Wall {
    if a.len() == 0 {
        Wall::Done(w, err_text("wallpaper: expected 'color <#rrggbb>', a <path>, or 'off'"@))
    } else {
        match wall_words(a.skip(1)) {
            Err(e) => Wall::Done(w, e),
            Ok((monitor, mode)) => match wall_monitors(w, monitor) {
                Err(e) => Wall::Done(w, e),
                Ok(mons) => if mons.len() == 0 {
                    Wall::Done(w, err_text("wallpaper: no monitors"@))
                } else if a[0] == "off"@ {
                    let gone = if means_all(monitor) {
                        papered(w.wallpapers)
                    } else {
                        mons
                    };
                    Wall::Done(without_backdrops(w, gone).manage(), ok_text())
                } else if a[0] == "color"@ {
                    if a.len() < 2 {
                        Wall::Done(w, err_text("wallpaper color: expected #rrggbb"@))
                    } else {
                        match color_text(a[1]) {
                            None => Wall::Done(
                                w,
                                err_text("wallpaper color: bad colour (use #rrggbb)"@),
                            ),
                            Some(c) => Wall::Done(
                                show_backdrops(w, mons, Backdrop::Color(c)).manage(),
                                ok_text(),
                            ),
                        }
                    }
                } else {
                    Wall::File { mons, path: a[0], mode }
                },
            },
        }
    }
}

/// What `wallpaper` comes to once it is known whether the path is that of a file.
pub open spec fn wallpaper_file(
    w: World,
    mons: Seq<usize>,
    path: Text,
    mode: WallMode,
    is_file: bool,
) -> (World, Text) {
    if is_file {
        (show_backdrops(w, mons, Backdrop::Image { path, mode }).manage(), ok_text())
    } else {
        (w, err_about("wallpaper: no such file '"@, path, "'"@))
    }
}

/// What words say of the monitor and the way of fitting.
fn parse_wall_words(a: &[String]) -> (r: Result<(Option<String>, WallMode), String>)
    requires
        a@.len() > 0,
    ensures
        match wall_words(a.deep_view().skip(1)) {
            Ok(o) => r is Ok && (r->Ok_0).0.deep_view() == o.0 && (r->Ok_0).1 == o.1,
            Err(e) => r is Err && r->Err_0@ == e,
        },
{
    let ghost all = a.deep_view().skip(1);
    let mut monitor: Option<String> = None;
    let mut mode = WallMode::Fill;
    let mut i: usize = 1;
    assert(all.take(0) =~= Seq::<Text>::empty());
    while i < a.len()
        invariant
            1 <= i <= a@.len(),
            all == a.deep_view().skip(1),
            wall_words(all.take(i - 1)) == Ok::<(Option<Text>, WallMode), Text>(
                (monitor.deep_view(), mode),
            ),
        decreases a@.len() - i,
    {
        assert(all.take(i as int).drop_last() =~= all.take(i - 1));
        assert(all.take(i as int).last() == a@[i as int]@);
        if let Some(v) = strip_prefix(a[i].as_str(), "monitor=") {
            monitor = Some(v);
        } else if let Some(v) = strip_prefix(a[i].as_str(), "mode=") {
            let s = v.as_str();
            if same(s, "fill") {
                mode = WallMode::Fill;
            } else if same(s, "fit") {
                mode = WallMode::Fit;
            } else if same(s, "stretch") {
                mode = WallMode::Stretch;
            } else if same(s, "center") {
                mode = WallMode::Center;
            } else if same(s, "tile") {
                mode = WallMode::Tile;
            } else {
                proof {
                    lemma_wall_stops(all, i - 1);
                }
                return Err(err3("wallpaper: unknown mode '", s, "'"));
            }
        }
        i += 1;
    }
    assert(all.take(i - 1) =~= all);
    Ok((monitor, mode))
}

proof fn lemma_wall_stops(words: Seq<Text>, i: int)
    requires
        0 <= i < words.len(),
        wall_words(words.take(i + 1)) is Err,
    ensures
        wall_words(words) == wall_words(words.take(i + 1)),
    decreases words.len(),
{
    if i + 1 < words.len() {
        assert(words.drop_last().take(i + 1) =~= words.take(i + 1));
        lemma_wall_stops(words.drop_last(), i);
    } else {
        assert(words.take(i + 1) =~= words);
    }
}

/// The numbers below `n`.
fn numbers_below(n: usize) -> (r: Vec<usize>)
    ensures
        r@ == Seq::new(n as nat, |i: int| i as usize),
{
    let ghost target = Seq::new(n as nat, |i: int| i as usize);
    let mut r: Vec<usize> = Vec::new();
    let mut i: usize = 0;
    while i < n
        invariant
            i <= n,
            target == Seq::new(n as nat, |i: int| i as usize),
            r@ == target.take(i as int),
        decreases n - i,
    {
        r.push(i);
        i += 1;
        assert(r@ =~= target.take(i as int));
    }
    assert(target.take(i as int) =~= target);
    r
}

impl WallpaperContent {
    /// The same again.
    pub fn copy(&self) -> (r: WallpaperContent)
        ensures
            r.deep_view() == self.deep_view(),
    {
        match self {
            WallpaperContent::Color(c) => WallpaperContent::Color(*c),
            WallpaperContent::Image { path, mode } => WallpaperContent::Image {
                path: path.clone(),
                mode: *mode,
            },
        }
    }
}

impl State {
    /// Gives monitors a background.
    pub fn set_wallpaper(&mut self, mons: &Vec<usize>, content: &WallpaperContent)
        requires
            old(self)@.wf(),
        ensures
            final(self)@ == show_backdrops(old(self)@, mons@, content.deep_view()),
            final(self)@.wf(),
    {
        if !self.globals.compositor || !self.globals.wm {
            return;
        }
        let ghost start = self@;
        let mut i: usize = 0;
        assert(mons@.take(0) =~= Seq::<usize>::empty());
        while i < mons.len()
            invariant
                i <= mons@.len(),
                self@ == set_backdrops(start, mons@.take(i as int), content.deep_view()),
                self@.wf(),
            decreases mons@.len() - i,
        {
            assert(mons@.take(i + 1).drop_last() =~= mons@.take(i as int));
            put_key(&mut self.wallpapers, mons[i] as u64, content.copy());
            remove_key(&mut self.painted, mons[i] as u64);
            self.perform(Effect::ShowBackdrop(mons[i]));
            i += 1;
        }
        assert(mons@.take(i as int) =~= mons@);
    }

    /// Takes the backgrounds of monitors away.
    pub fn destroy_wallpapers(&mut self, mons: &Vec<usize>)
        requires
            old(self)@.wf(),
        ensures
            final(self)@ == without_backdrops(old(self)@, mons@),
            final(self)@.wf(),
    {
        let ghost start = self@;
        let mut i: usize = 0;
        assert(mons@.take(0) =~= Seq::<usize>::empty());
        while i < mons.len()
            invariant
                i <= mons@.len(),
                self@ == without_backdrops(start, mons@.take(i as int)),
                self@.wf(),
            decreases mons@.len() - i,
        {
            assert(mons@.take(i + 1).drop_last() =~= mons@.take(i as int));
            if remove_key(&mut self.wallpapers, mons[i] as u64) {
                remove_key(&mut self.painted, mons[i] as u64);
                self.perform(Effect::HideBackdrop(mons[i]));
            }
            i += 1;
        }
        assert(mons@.take(i as int) =~= mons@);
    }

    /// The monitors that have a background.
    fn papered_monitors(&self) -> (r: Vec<usize>)
        ensures
            r@ == papered(self@.wallpapers),
    {
        let ghost target = papered(self@.wallpapers);
        let mut r: Vec<usize> = Vec::new();
        let mut i: usize = 0;
        while i < self.wallpapers.len()
            invariant
                i <= self.wallpapers@.len() == target.len(),
                target == papered(self@.wallpapers),
                r@ == target.take(i as int),
            decreases self.wallpapers@.len() - i,
        {
            assert(self@.wallpapers[i as int].0 == self.wallpapers@[i as int].0);
            r.push(as_index(self.wallpapers[i].0));
            i += 1;
            assert(r@ =~= target.take(i as int));
        }
        assert(target.take(i as int) =~= target);
        r
    }
}

/// A key as the place that it stands for.
#[verifier::truncate]
fn as_index(k: u64) -> (r: usize)
    ensures
        r == k as usize,
{
    k as usize
}

/// What `wallpaper` comes to before a file is asked for.
pub enum WallStep {
    Done(String),
    File { mons: Vec<usize>, path: String, mode: WallMode },
}

pub fn cmd_wallpaper(state: &mut State, a: &[String]) -> (r: WallStep)
    requires
        old(state)@.wf(),
    ensures
        match wallpaper(old(state)@, a.deep_view()) {
            Wall::Done(w, t) => (r matches WallStep::Done(s) && s@ == t) && final(state)@ == w,
            Wall::File { mons, path, mode } => {
                &&& (r matches WallStep::File { mons: m, path: p, mode: d } && m@ == mons && p@ == path
                    && d == mode)
                &&& final(state)@ == old(state)@
            },
        },
        final(state)@.wf(),
{
    if a.len() == 0 {
        return WallStep::Done(err("wallpaper: expected 'color <#rrggbb>', a <path>, or 'off'"));
    }
    assert(a.deep_view()[0] == a@[0]@);
    let (monitor, mode) = match parse_wall_words(a) {
        Err(e) => {
            return WallStep::Done(e);
        },
        Ok(o) => o,
    };
    let all: bool = match &monitor {
        None => true,
        Some(m) => same(m.as_str(), "all"),
    };
    let mons: Vec<usize> = if all {
        numbers_below(state.monitors.list.len())
    } else {
        match &monitor {
            None => Vec::new(),
            Some(sel) => match state.monitors.resolve(&MonitorSel::parse(sel.as_str())) {
                Some(i) => {
                    let mut one: Vec<usize> = Vec::new();
                    one.push(i);
                    assert(one@ =~= seq![i]);
                    one
                },
                None => {
                    return WallStep::Done(err3("wallpaper: no such monitor '", sel.as_str(), "'"));
                },
            },
        }
    };
    if mons.len() == 0 {
        return WallStep::Done(err("wallpaper: no monitors"));
    }
    if same(a[0].as_str(), "off") {
        let gone: Vec<usize> = if all {
            state.papered_monitors()
        } else {
            mons
        };
        state.destroy_wallpapers(&gone);
        state.request_manage();
        return WallStep::Done(ok());
    }
    if same(a[0].as_str(), "color") {
        if a.len() < 2 {
            return WallStep::Done(err("wallpaper color: expected #rrggbb"));
        }
        assert(a.deep_view()[1] == a@[1]@);
        return match parse_color(a[1].as_str()) {
            None => WallStep::Done(err("wallpaper color: bad colour (use #rrggbb)")),
            Some(c) => {
                state.set_wallpaper(&mons, &WallpaperContent::Color(c));
                state.request_manage();
                WallStep::Done(ok())
            },
        };
    }
    WallStep::File { mons, path: a[0].clone(), mode }
}

/// Carries out `wallpaper` once it is known whether the path is that of a file.
pub fn cmd_wallpaper_file(
    state: &mut State,
    mons: &Vec<usize>,
    path: &str,
    mode: WallMode,
    is_file: bool,
) -> (r: String)
    requires
        old(state)@.wf(),
    ensures
        (final(state)@, r@) == wallpaper_file(old(state)@, mons@, path@, mode, is_file),
        final(state)@.wf(),
{
    if is_file {
        state.set_wallpaper(mons, &WallpaperContent::Image { path: path.to_owned(), mode });
        state.request_manage();
        ok()
    } else {
        err3("wallpaper: no such file '", path, "'")
    }
}

} // verus!
