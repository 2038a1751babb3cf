//! Painting the launcher.

use vstd::prelude::*;
use crate::launcher::{Launcher, LauncherModel};
use crate::monitor::{clip, clip_to, divide, quotient, Rect};
use crate::paint::{add_paint, FontSize, Ink, Paint, Points};
use crate::render::at_least_one;
use crate::state::{State, World};
use crate::text::Text;
use crate::theme::{Color, LauncherTheme};

verus! {

/// The focused monitor, or else the first.
pub open spec fn front_screen(w: World) -> Option<Rect> {
    if w.desk.focus < w.desk.list.len() {
        Some(w.desk.list[w.desk.focus].rect)
    } else if w.desk.list.len() > 0 {
        Some(w.desk.list[0].rect)
    } else {
        None
    }
}

impl State {
    /// The focused monitor, or else the first.
    pub fn find_front_screen(&self) -> (r: Option<Rect>)
        requires
            self@.desk.wf(),
        ensures
            r == front_screen(self@),
    {
        if self.monitors.focus < self.monitors.list.len() {
            let i: usize = self.monitors.focus;
            assert(self@.desk.list[i as int].rect == self.monitors.list@[i as int].rect);
            Some(self.monitors.list[i].rect)
        } else if self.monitors.list.len() > 0 {
            assert(self@.desk.list[0].rect == self.monitors.list@[0].rect);
            Some(self.monitors.list[0].rect)
        } else {
            None
        }
    }
}

/// The parts of the launcher: the width and the corner of its panel, where its list
/// begins, and how many rows are seen.
#[derive(Clone, Copy, Debug, PartialEq, Eq, Structural)]
pub struct Panel {
    pub w: i32,
    pub x: i32,
    pub y: i32,
    pub list: i32,
    pub rows: i32,
}

/// The parts of the launcher on a monitor of a size.
pub open spec fn panel(w: i32, h: i32, widest: i32) -> Panel {
    let most = if widest > 240 {
        widest
    } else {
        240
    };
    let pw = if w - 160 < 240 {
        240
    } else if w - 160 > most {
        most as int
    } else {
        w - 160
    };
    let list = h / 6 + 60;
    let room = h - list - 40;
    let rows = if room > 36 {
        room / 36
    } else {
        1
    };
    Panel {
        w: pw as i32,
        x: quotient(w - pw, 2) as i32,
        y: (h / 6) as i32,
        list: list as i32,
        rows: rows as i32,
    }
}

/// The parts of the launcher on a monitor of a size.
pub fn lay_panel(w: i32, h: i32, widest: i32) -> (r: Panel)
    requires
        w >= 1,
        h >= 1,
    ensures
        r == panel(w, h, widest),
        r.rows >= 1,
        r.list <= 0x3000_0000,
{
    let most: i32 = if widest > 240 {
        widest
    } else {
        240
    };
    let pw: i32 = if w - 160 < 240 {
        240
    } else if w - 160 > most {
        most
    } else {
        w - 160
    };
    let list: i32 = h / 6 + 60;
    let room: i64 = h as i64 - list as i64 - 40;
    let rows: i64 = if room > 36 {
        room / 36
    } else {
        1
    };
    Panel {
        w: pw,
        x: divide(w as i128 - pw as i128, 2) as i32,
        y: h / 6,
        list,
        rows: rows as i32,
    }
}

/// The first match that is seen, so that the marked one is.
pub open spec fn scrolled(selected: usize, scroll: usize, rows: int) -> usize {
    if selected < scroll {
        selected
    } else if selected >= scroll + rows {
        (selected + 1 - rows) as usize
    } else {
        scroll
    }
}

/// The line of a match.
pub open spec fn match_text(l: LauncherModel, k: int) -> Text {
    if l.matches[k] < l.entries.len() {
        l.entries[l.matches[k] as int]
    } else {
        Seq::empty()
    }
}

/// A row of the list: the match `k`, the row that it is in, its background and its line.
pub open spec fn match_inks(l: LauncherModel, t: LauncherTheme, p: Panel, k: int) -> Seq<Ink> {
    let y = p.list + (k - l.scroll) * 36;
    let marked = k == l.selected;
    seq![
        Ink::Fill {
            x: p.x,
            y: clip(y),
            w: p.w,
            h: 36,
            color: if marked {
                t.sel_bg
            } else {
                t.bg
            },
        },
        Ink::Text {
            x: clip(p.x + 16),
            y: clip(y + 10),
            text: match_text(l, k),
            font: Points::Px(16),
            color: if marked {
                t.sel_fg
            } else {
                t.fg
            },
            family: None,
        },
    ]
}

/// The rows of the list from the first that is seen up to a match.
pub open spec fn matches_inks(l: LauncherModel, t: LauncherTheme, p: Panel, end: int) -> Seq<Ink>
    decreases end,
{
    if end <= l.scroll {
        Seq::empty()
    } else {
        matches_inks(l, t, p, end - 1) + match_inks(l, t, p, end - 1)
    }
}

/// The query, or what is said where there is none; `width` is that of the query.
pub open spec fn query_inks(l: LauncherModel, t: LauncherTheme, p: Panel, width: i32) -> Seq<Ink> {
    if l.query.len() == 0 {
        seq![
            Ink::Text {
                x: clip(p.x + 16),
                y: clip(p.y + 15),
                text: "Type to search…"@,
                font: Points::Px(22),
                color: (t.fg.0, t.fg.1, t.fg.2, 0x60),
                family: None,
            },
        ]
    } else {
        seq![
            Ink::Text {
                x: clip(p.x + 16),
                y: clip(p.y + 15),
                text: l.query,
                font: Points::Px(22),
                color: t.fg,
                family: None,
            },
            Ink::Fill {
                x: clip(p.x + 18 + width),
                y: clip(p.y + 12),
                w: 2,
                h: 28,
                color: t.sel_bg,
            },
        ]
    }
}

/// The match after the last that is seen.
pub open spec fn last_seen(l: LauncherModel, p: Panel) -> int {
    if l.scroll + p.rows < l.matches.len() {
        l.scroll + p.rows
    } else {
        l.matches.len() as int
    }
}

/// The launcher as it is painted: what is behind it, its box, the query and the matches.
pub open spec fn launcher_inks(l: LauncherModel, t: LauncherTheme, w: i32, h: i32, width: i32) -> Seq<Ink> {
    let p = panel(w, h, t.width);
    seq![
        Ink::Fill { x: 0, y: 0, w, h, color: t.dim },
        Ink::Fill { x: p.x, y: p.y, w: p.w, h: 52, color: t.bg },
    ] + query_inks(l, t, p, width) + matches_inks(l, t, p, last_seen(l, p))
}

/// The launcher scrolled so that the marked match is seen.
pub open spec fn in_view(l: LauncherModel, rows: int) -> LauncherModel {
    LauncherModel { scroll: scrolled(l.selected, l.scroll, rows), ..l }
}

impl Launcher {
    /// Paints the query.
    fn draw_query(&self, out: &mut Vec<Paint>, t: &LauncherTheme, p: Panel, width: i32)
        ensures
            final(out).deep_view() == old(out).deep_view() + query_inks(self.deep_view(), *t, p, width),
    {
        let ghost before = out.deep_view();
        let x: i32 = clip_to(p.x as i128 + 16);
        let y: i32 = clip_to(p.y as i128 + 15);
        if self.query.as_str().is_empty() {
            add_paint(
                out,
                Paint::Text {
                    x,
                    y,
                    text: "Type to search…".to_owned(),
                    font: FontSize::Px(22),
                    color: (t.fg.0, t.fg.1, t.fg.2, 0x60),
                    family: None,
                },
            );
        } else {
            add_paint(
                out,
                Paint::Text {
                    x,
                    y,
                    text: self.query.clone(),
                    font: FontSize::Px(22),
                    color: t.fg,
                    family: None,
                },
            );
            add_paint(
                out,
                Paint::Fill {
                    x: clip_to(p.x as i128 + 18 + width as i128),
                    y: clip_to(p.y as i128 + 12),
                    w: 2,
                    h: 28,
                    color: t.sel_bg,
                },
            );
        }
        assert(out.deep_view() =~= before + query_inks(self.deep_view(), *t, p, width));
    }

    /// Paints a row of the list.
    fn draw_match(&self, out: &mut Vec<Paint>, t: &LauncherTheme, p: Panel, k: usize)
        requires
            self.scroll <= k < self.matches@.len(),
        ensures
            final(out).deep_view() == old(out).deep_view() + match_inks(self.deep_view(), *t, p, k as int),
    {
        let ghost before = out.deep_view();
        let ghost l = self.deep_view();
        let y: i128 = p.list as i128 + (k as i128 - self.scroll as i128) * 36;
        let marked: bool = k == self.selected;
        let (bg, fg): (Color, Color) = if marked {
            (t.sel_bg, t.sel_fg)
        } else {
            (t.bg, t.fg)
        };
        let e: usize = self.matches[k];
        let text: String = if e < self.entries.len() {
            assert(l.entries[e as int] == self.entries@[e as int]@);
            self.entries[e].clone()
        } else {
            String::new()
        };
        assert(text@ =~= match_text(l, k as int));
        add_paint(out, Paint::Fill { x: p.x, y: clip_to(y), w: p.w, h: 36, color: bg });
        add_paint(
            out,
            Paint::Text {
                x: clip_to(p.x as i128 + 16),
                y: clip_to(y + 10),
                text,
                font: FontSize::Px(16),
                color: fg,
                family: None,
            },
        );
        assert(out.deep_view() =~= before + match_inks(l, *t, p, k as int));
    }

    /// Paints the launcher; `width` is that of the query.
    fn paint(&self, t: &LauncherTheme, w: i32, h: i32, width: i32) -> (r: Vec<Paint>)
        requires
            w >= 1,
            h >= 1,
        ensures
            r.deep_view() == launcher_inks(self.deep_view(), *t, w, h, width),
    {
        let ghost l = self.deep_view();
        let p = lay_panel(w, h, t.width);
        let mut out: Vec<Paint> = Vec::new();
        add_paint(&mut out, Paint::Fill { x: 0, y: 0, w, h, color: t.dim });
        add_paint(&mut out, Paint::Fill { x: p.x, y: p.y, w: p.w, h: 52, color: t.bg });
        self.draw_query(&mut out, t, p, width);
        let ghost head = out.deep_view();
        let ghost ground = seq![
            Ink::Fill { x: 0, y: 0, w, h, color: t.dim },
            Ink::Fill { x: p.x, y: p.y, w: p.w, h: 52, color: t.bg },
        ];
        assert(head =~= ground + query_inks(l, *t, p, width));
        let rows: usize = p.rows as usize;
        let end: usize = if self.scroll <= self.matches.len() && self.matches.len() - self.scroll > rows {
            self.scroll + rows
        } else {
            self.matches.len()
        };
        assert(end == last_seen(l, p));
        let mut k: usize = self.scroll;
        assert(out.deep_view() =~= head + matches_inks(l, *t, p, k as int));
        while k < end
            invariant
                self.scroll <= k,
                self.scroll <= end ==> k <= end,
                self.scroll > end ==> k == self.scroll,
                end <= self.matches@.len(),
                l == self.deep_view(),
                out.deep_view() == head + matches_inks(l, *t, p, k as int),
            decreases end - k,
        {
            let ghost o0 = matches_inks(l, *t, p, k as int);
            self.draw_match(&mut out, t, p, k);
            assert((head + o0) + match_inks(l, *t, p, k as int) =~= head + (o0 + match_inks(
                l,
                *t,
                p,
                k as int,
            )));
            k += 1;
        }
        proof {
            if self.scroll > end {
                lemma_no_rows(l, *t, p, end as int);
                lemma_no_rows(l, *t, p, k as int);
            }
        }
        assert(out.deep_view() =~= launcher_inks(l, *t, w, h, width));
        out
    }
}

/// Before the first match that is seen there is no row.
proof fn lemma_no_rows(l: LauncherModel, t: LauncherTheme, p: Panel, end: int)
    requires
        end <= l.scroll,
    ensures
        matches_inks(l, t, p, end) == Seq::<Ink>::empty(),
{
}

/// The launcher as it is painted.
#[derive(Debug)]
pub struct LauncherFrame {
    /// The monitor that it covers.
    pub rect: Rect,
    /// What is painted on it.
    pub paints: Vec<Paint>,
}

impl State {
    /// Paints the launcher, scrolled so that the marked match is seen. `width` is that of
    /// the query.
    pub fn render_launcher(&mut self, width: i32) -> (r: Option<LauncherFrame>)
        requires
            old(self)@.wf(),
        ensures
            match (old(self)@.launcher, front_screen(old(self)@)) {
                (Some(l), Some(s)) if old(self)@.globals.shm => {
                    let (w, h) = (at_least_one(s.w), at_least_one(s.h));
                    let t = old(self)@.settings.launcher_theme;
                    let v = in_view(l, panel(w, h, t.width).rows as int);
                    &&& r is Some
                    &&& r->0.rect == (Rect { x: s.x, y: s.y, w, h })
                    &&& r->0.paints.deep_view() == launcher_inks(v, t, w, h, width)
                    &&& final(self)@ == (World { launcher: Some(v), ..old(self)@ })
                },
                _ => r is None && final(self)@ == old(self)@,
            },
            final(self)@.wf(),
    {
        if !self.globals.shm || self.launcher.is_none() {
            return None;
        }
        let screen = match self.find_front_screen() {
            None => {
                return None;
            },
            Some(s) => s,
        };
        let w: i32 = if screen.w > 1 {
            screen.w
        } else {
            1
        };
        let h: i32 = if screen.h > 1 {
            screen.h
        } else {
            1
        };
        let t = self.settings.launcher_theme;
        let rows: usize = lay_panel(w, h, t.width).rows as usize;
        match &mut self.launcher {
            None => None,
            Some(l) => {
                if l.selected < l.scroll {
                    l.scroll = l.selected;
                } else if l.selected - l.scroll >= rows {
                    l.scroll = l.selected - rows + 1;
                }
                let paints = l.paint(&t, w, h, width);
                Some(LauncherFrame { rect: Rect::new(screen.x, screen.y, w, h), paints })
            },
        }
    }
}

/// The marked match is among those that are seen.
pub proof fn law_marked_in_view(l: LauncherModel, rows: int)
    requires
        rows >= 1,
        l.selected < l.matches.len(),
        l.matches.len() <= usize::MAX,
        l.scroll + rows <= usize::MAX,
    ensures
        in_view(l, rows).scroll <= l.selected < in_view(l, rows).scroll + rows,
{
}

} // verus!
