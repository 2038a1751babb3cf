//! Painting the bar.

use vstd::prelude::*;
use crate::bar::{Bar, BarModel, BarModule, Executor, Goal, HitKind, HitZone, Part, Reader, SepStyle, Zone};
use crate::launcher::{alphanumeric, is_alphanumeric};
use crate::monitor::{clip, clip_to, divide, quotient, Rect};
use crate::paint::{add_paint, FontSize, Ink, Paint, Points};
use crate::rules::DockAnchor;
use crate::state::{State, World};
use crate::text::{chars_of, Text};
use crate::theme::Color;
use crate::tray::{TrayEntry, TrayItem};

verus! {

/// How wide a text is, and how high its font, in pixels.
#[derive(Clone, Copy, Debug)]
pub struct Measure {
    pub width: i32,
    pub size: i32,
}

/// The greater of two numbers.
pub open spec fn more(a: int, b: int) -> int {
    if a > b {
        a
    } else {
        b
    }
}

/// The greater of two numbers.
fn greater(a: i128, b: i128) -> (r: i128)
    ensures
        r == more(a as int, b as int),
{
    if a > b {
        a
    } else {
        b
    }
}

/// The monitor that a bar is on: its own, or else the first.
pub open spec fn bar_screen(w: World, mon: usize) -> Option<Rect> {
    if mon < w.desk.list.len() {
        Some(w.desk.list[mon as int].rect)
    } else if w.desk.list.len() > 0 {
        Some(w.desk.list[0].rect)
    } else {
        None
    }
}

/// Where a bar goes on a monitor.
pub open spec fn bar_rect(b: BarModel, r: Rect) -> Rect {
    let h = more(b.height as int, 1);
    Rect {
        x: clip(r.x + b.margin_x),
        y: match b.anchor {
            DockAnchor::Top => clip(r.y + b.margin_y),
            DockAnchor::Bottom => clip(r.y + r.h - h - b.margin_y),
        },
        w: clip(more(r.w - 2 * b.margin_x, 1)),
        h: h as i32,
    }
}

/// The side of a tray icon.
pub open spec fn icon_side(size: i32, h: int) -> int {
    if size > 0 {
        size as int
    } else {
        more(h - 8, 8)
    }
}

/// The width of a part; a spacer has none of its own.
pub open spec fn part_width(p: Part, m: Measure, items: int, h: int) -> int {
    match p {
        Part::Separator { size, .. } => size as int,
        Part::Spacer => 0,
        Part::Reader(e) => m.width + 2 * e.pad,
        Part::Tray { size, spacing } => items * (icon_side(size, h) + spacing),
    }
}

/// The width of parts, held within the range of coordinates.
pub open spec fn parts_width(parts: Seq<Part>, ms: Seq<Measure>, items: int, h: int) -> i32
    decreases parts.len(),
{
    if parts.len() == 0 {
        0
    } else {
        clip(
            parts_width(parts.drop_last(), ms, items, h) + part_width(
                parts.last(),
                ms[parts.len() - 1],
                items,
                h,
            ),
        )
    }
}

/// How many spacers there are.
pub open spec fn spacer_count(parts: Seq<Part>) -> nat
    decreases parts.len(),
{
    if parts.len() == 0 {
        0
    } else {
        spacer_count(parts.drop_last()) + (if parts.last() is Spacer {
            1nat
        } else {
            0
        })
    }
}

/// The width of a spacer: its share of what the other parts leave.
pub open spec fn spacer_width(parts: Seq<Part>, ms: Seq<Measure>, items: int, w: int, h: int) -> i32 {
    let n = spacer_count(parts);
    if n > 0 {
        clip(more(w - parts_width(parts, ms, items, h), 0) / n as int)
    } else {
        0
    }
}

/// A character in upper case, as Unicode has it.
pub uninterp spec fn uppercase(c: char) -> Seq<char>;

/// Puts a character in upper case: `char::to_uppercase`, whose result depends on the
/// character alone and is named, not described.
#[verifier::external_body]
fn to_uppercase(c: char) -> (r: String)
    ensures
        r@ == uppercase(c),
{
    c.to_uppercase().to_string()
}

/// The first letter or number of a text, or a question mark.
pub open spec fn first_letter(t: Text) -> char
    decreases t.len(),
{
    if t.len() == 0 {
        '?'
    } else if is_alphanumeric(t[0]) {
        t[0]
    } else {
        first_letter(t.drop_first())
    }
}

/// What is painted so far, what takes clicks, and how far it reaches.
#[verifier::ext_equal]
pub ghost struct Strip {
    pub inks: Seq<Ink>,
    pub zones: Seq<Zone>,
    pub at: i32,
}

/// A mark in a separator.
pub open spec fn mark_inks(style: SepStyle, size: i32, color: Color, at: int, h: int) -> Seq<Ink> {
    match style {
        SepStyle::Line => seq![
            Ink::Fill {
                x: clip(at + quotient(size as int, 2)),
                y: (h / 4) as i32,
                w: 1,
                h: more(h / 2, 1) as i32,
                color,
            },
        ],
        SepStyle::Dot => seq![
            Ink::Fill {
                x: clip(at + quotient(size as int, 2) - 1),
                y: (h / 2 - 1) as i32,
                w: 2,
                h: 2,
                color,
            },
        ],
        SepStyle::Empty => Seq::empty(),
    }
}

/// A text of a command added.
pub open spec fn with_reader(s: Strip, b: BarModel, e: Reader, m: Measure, h: int) -> Strip {
    let wd = part_width(Part::Reader(e), m, 0, h);
    let back = match e.bg {
        Some(color) => seq![
            Ink::Fill { x: s.at, y: 0, w: clip(wd), h: h as i32, color },
        ],
        None => Seq::empty(),
    };
    let text = Ink::Text {
        x: clip(s.at + e.pad),
        y: clip(more(quotient(h - m.size, 2), 0)),
        text: e.text,
        font: Points::Written(
            match e.size {
                Some(t) => Some(t),
                None => b.font,
            },
        ),
        color: match e.fg {
            Some(c) => c,
            None => b.fg,
        },
        family: e.family,
    };
    Strip {
        inks: (s.inks + back).push(text),
        zones: if e.lclick is Some || e.rclick is Some {
            s.zones.push(Zone { x0: s.at, x1: clip(s.at + wd), goal: Goal::Exec(e.id) })
        } else {
            s.zones
        },
        at: clip(s.at + wd),
    }
}

/// The icon of a tray item, or a letter in its place.
pub open spec fn item_inks(e: TrayEntry, i: int, letter: Measure, at: int, side: int, h: int) -> Seq<Ink> {
    let top = clip(more(quotient(h - side, 2), 0));
    if e.icon is Some {
        seq![Ink::Icon { x: clip(at), y: top, size: clip(side), item: i as usize }]
    } else {
        seq![
            Ink::Fill { x: clip(at), y: top, w: clip(side), h: clip(side), color: (0x4e, 0x9b, 0xcf, 0xff) },
            Ink::Text {
                x: clip(at + quotient(side - letter.width, 2)),
                y: clip(
                    more(quotient(h - side, 2), 0) + more(quotient(side - letter.size, 2), 0),
                ),
                text: uppercase(first_letter(e.title)),
                font: Points::Letter(clip(side)),
                color: (0xff, 0xff, 0xff, 0xff),
                family: None,
            },
        ]
    }
}

/// The icons of tray items added.
pub open spec fn with_items(
    s: Strip,
    items: Seq<TrayEntry>,
    letters: Seq<Measure>,
    side: int,
    spacing: int,
    h: int,
) -> Strip
    decreases items.len(),
{
    if items.len() == 0 {
        s
    } else {
        let v = with_items(s, items.drop_last(), letters, side, spacing, h);
        let i = items.len() - 1;
        Strip {
            inks: v.inks + item_inks(items.last(), i, letters[i], v.at as int, side, h),
            zones: v.zones.push(
                Zone {
                    x0: v.at,
                    x1: clip(v.at + side + spacing),
                    goal: Goal::Tray(items.last().key),
                },
            ),
            at: clip(v.at + side + spacing),
        }
    }
}

/// A part added.
pub open spec fn with_part(
    s: Strip,
    b: BarModel,
    p: Part,
    m: Measure,
    items: Seq<TrayEntry>,
    letters: Seq<Measure>,
    spacer: int,
    h: int,
) -> Strip {
    match p {
        Part::Spacer => Strip { at: clip(s.at + spacer), ..s },
        Part::Separator { size, color, style } => Strip {
            inks: s.inks + mark_inks(style, size, color, s.at as int, h),
            at: clip(s.at + size),
            ..s
        },
        Part::Reader(e) => with_reader(s, b, e, m, h),
        Part::Tray { size, spacing } => with_items(
            s,
            items,
            letters,
            icon_side(size, h),
            spacing as int,
            h,
        ),
    }
}

/// Lists of measures.
pub open spec fn measures(v: Seq<Vec<Measure>>) -> Seq<Seq<Measure>> {
    v.map_values(|m: Vec<Measure>| m@)
}

/// Parts added, from the left to the right. The letters of tray items are measured for
/// each part.
pub open spec fn with_parts(
    s: Strip,
    b: BarModel,
    parts: Seq<Part>,
    ms: Seq<Measure>,
    items: Seq<TrayEntry>,
    letters: Seq<Seq<Measure>>,
    spacer: int,
    h: int,
) -> Strip
    decreases parts.len(),
{
    if parts.len() == 0 {
        s
    } else {
        with_part(
            with_parts(s, b, parts.drop_last(), ms, items, letters, spacer, h),
            b,
            parts.last(),
            ms[parts.len() - 1],
            items,
            letters[parts.len() - 1],
            spacer,
            h,
        )
    }
}

/// A bar as it is painted: on its background, its parts.
pub open spec fn bar_strip(
    b: BarModel,
    r: Rect,
    ms: Seq<Measure>,
    items: Seq<TrayEntry>,
    letters: Seq<Seq<Measure>>,
) -> Strip {
    let (w, h) = (bar_rect(b, r).w as int, bar_rect(b, r).h as int);
    let ground = Strip {
        inks: seq![Ink::Fill { x: 0, y: 0, w: w as i32, h: h as i32, color: b.bg }],
        zones: Seq::empty(),
        at: 0,
    };
    with_parts(
        ground,
        b,
        b.parts,
        ms,
        items,
        letters,
        spacer_width(b.parts, ms, items.len() as int, w, h) as int,
        h,
    )
}

/// Finds the first letter or number of a string.
fn find_letter(title: &str) -> (r: char)
    ensures
        r == first_letter(title@),
{
    let v = chars_of(title);
    let mut i: usize = 0;
    assert(v@.skip(0) =~= v@);
    while i < v.len()
        invariant
            i <= v@.len(),
            v@ == title@,
            first_letter(v@) == first_letter(v@.skip(i as int)),
        decreases v@.len() - i,
    {
        assert(v@.skip(i as int)[0] == v@[i as int]);
        assert(v@.skip(i as int).drop_first() =~= v@.skip(i + 1));
        if alphanumeric(v[i]) {
            return v[i];
        }
        i += 1;
    }
    '?'
}

/// The letter that stands for a tray item without an icon.
pub fn item_letter(title: &str) -> (r: String)
    ensures
        r@ == uppercase(first_letter(title@)),
{
    to_uppercase(find_letter(title))
}

/// The side of a tray icon.
pub fn side_of(size: i32, h: i32) -> (r: i32)
    requires
        h >= 1,
    ensures
        r == icon_side(size, h as int),
        r > 0,
{
    if size > 0 {
        size
    } else if h - 8 > 8 {
        h - 8
    } else {
        8
    }
}

/// The width of a part.
fn width_of(p: &BarModule, m: Measure, items: usize, h: i32) -> (r: i128)
    requires
        h >= 1,
    ensures
        r == part_width(p.deep_view(), m, items as int, h as int),
        -0x1_0000_0000_0000_0000_0000_0000_0000 < r < 0x1_0000_0000_0000_0000_0000_0000_0000,
{
    match p {
        BarModule::Separator { size, .. } => *size as i128,
        BarModule::Spacer => 0,
        BarModule::Executor(e) => m.width as i128 + 2 * e.pad as i128,
        BarModule::Tray { size, spacing } => {
            let each: i128 = side_of(*size, h) as i128 + *spacing as i128;
            assert(-0x1_0000_0000 <= each <= 0x1_0000_0000);
            assert(-0x1_0000_0000_0000_0000_0000_0000_0000 < items * each
                < 0x1_0000_0000_0000_0000_0000_0000_0000) by (nonlinear_arith)
                requires
                    -0x1_0000_0000 <= each <= 0x1_0000_0000,
                    0 <= items <= 0xffff_ffff_ffff_ffff,
            ;
            items as i128 * each
        },
    }
}

/// What is painted of a bar, what takes clicks, and how far it reaches.
struct Painter {
    paints: Vec<Paint>,
    zones: Vec<HitZone>,
    at: i32,
}

impl Painter {
    spec fn view(&self) -> Strip {
        Strip { inks: self.paints.deep_view(), zones: self.zones.deep_view(), at: self.at }
    }

    /// Adds something that takes clicks.
    fn add_zone(&mut self, x0: i32, x1: i32, kind: HitKind)
        ensures
            final(self)@ == (Strip {
                zones: old(self)@.zones.push((HitZone { x0, x1, kind }).deep_view()),
                ..old(self)@
            }),
    {
        let ghost before = self.zones.deep_view();
        let z = HitZone { x0, x1, kind };
        self.zones.push(z);
        assert(self.zones.deep_view() =~= before.push(z.deep_view()));
    }

    /// Adds a mark in a separator.
    fn add_mark(&mut self, style: SepStyle, size: i32, color: Color, h: i32)
        requires
            h >= 1,
        ensures
            final(self)@ == (Strip {
                inks: old(self)@.inks + mark_inks(style, size, color, old(self).at as int, h as int),
                ..old(self)@
            }),
    {
        let ghost before = self.paints.deep_view();
        let at: i128 = self.at as i128 + divide(size as i128, 2);
        match style {
            SepStyle::Line => {
                let high: i32 = if h / 2 > 1 {
                    h / 2
                } else {
                    1
                };
                add_paint(
                    &mut self.paints,
                    Paint::Fill { x: clip_to(at), y: h / 4, w: 1, h: high, color },
                );
            },
            SepStyle::Dot => {
                add_paint(
                    &mut self.paints,
                    Paint::Fill { x: clip_to(at - 1), y: h / 2 - 1, w: 2, h: 2, color },
                );
            },
            SepStyle::Empty => {},
        }
        assert(self.paints.deep_view() =~= before + mark_inks(
            style,
            size,
            color,
            old(self).at as int,
            h as int,
        ));
    }

    /// Adds a text of a command.
    fn add_reader(&mut self, b: &Bar, e: &Executor, m: Measure, h: i32)
        requires
            h >= 1,
        ensures
            final(self)@ == with_reader(old(self)@, b.deep_view(), e.deep_view(), m, h as int),
    {
        let ghost before = self.paints.deep_view();
        let ghost s = self@;
        let wd: i128 = m.width as i128 + 2 * e.pad as i128;
        let ghost back: Seq<Ink> = match e.bg {
            Some(color) => seq![Ink::Fill { x: s.at, y: 0, w: clip(wd as int), h, color }],
            None => Seq::empty(),
        };
        if let Some(color) = e.bg {
            add_paint(&mut self.paints, Paint::Fill { x: self.at, y: 0, w: clip_to(wd), h, color });
        }
        assert(self.paints.deep_view() =~= before + back);
        let font = FontSize::Written(
            match &e.size {
                Some(t) => Some(t.clone()),
                None => b.font.clone(),
            },
        );
        let text = Paint::Text {
            x: clip_to(self.at as i128 + e.pad as i128),
            y: clip_to(greater(divide(h as i128 - m.size as i128, 2), 0)),
            text: e.text.clone(),
            font,
            color: match e.fg {
                Some(c) => c,
                None => b.fg,
            },
            family: e.family.clone(),
        };
        add_paint(&mut self.paints, text);
        let end: i32 = clip_to(self.at as i128 + wd);
        if e.lclick.is_some() || e.rclick.is_some() {
            let x0: i32 = self.at;
            self.add_zone(x0, end, HitKind::Exec(e.id));
        }
        self.at = end;
    }

    /// Adds the icon of a tray item, or a letter in its place.
    fn add_item(&mut self, item: &TrayItem, i: usize, letter: Measure, side: i32, h: i32)
        requires
            h >= 1,
            side > 0,
        ensures
            final(self)@ == (Strip {
                inks: old(self)@.inks + item_inks(
                    item.deep_view(),
                    i as int,
                    letter,
                    old(self).at as int,
                    side as int,
                    h as int,
                ),
                ..old(self)@
            }),
    {
        let ghost before = self.paints.deep_view();
        let at: i32 = self.at;
        let top: i128 = greater(divide(h as i128 - side as i128, 2), 0);
        if item.icon.is_some() {
            add_paint(
                &mut self.paints,
                Paint::Icon { x: at, y: clip_to(top), size: side, item: i },
            );
        } else {
            add_paint(
                &mut self.paints,
                Paint::Fill { x: at, y: clip_to(top), w: side, h: side, color: (0x4e, 0x9b, 0xcf, 0xff) },
            );
            let text = item_letter(item.title.as_str());
            add_paint(
                &mut self.paints,
                Paint::Text {
                    x: clip_to(at as i128 + divide(side as i128 - letter.width as i128, 2)),
                    y: clip_to(top + greater(divide(side as i128 - letter.size as i128, 2), 0)),
                    text,
                    font: FontSize::Letter(side),
                    color: (0xff, 0xff, 0xff, 0xff),
                    family: None,
                },
            );
        }
        assert(self.paints.deep_view() =~= before + item_inks(
            item.deep_view(),
            i as int,
            letter,
            at as int,
            side as int,
            h as int,
        ));
    }

    /// Adds the icons of tray items.
    fn add_items(&mut self, items: &Vec<TrayItem>, letters: &Vec<Measure>, side: i32, spacing: i32, h: i32)
        requires
            h >= 1,
            side > 0,
            letters@.len() == items@.len(),
        ensures
            final(self)@ == with_items(
                old(self)@,
                items.deep_view(),
                letters@,
                side as int,
                spacing as int,
                h as int,
            ),
    {
        let ghost start = self@;
        let ghost all = items.deep_view();
        let mut i: usize = 0;
        assert(all.take(0) =~= Seq::<TrayEntry>::empty());
        while i < items.len()
            invariant
                i <= items@.len() == all.len(),
                letters@.len() == items@.len(),
                all == items.deep_view(),
                h >= 1,
                side > 0,
                self@ == with_items(
                    start,
                    all.take(i as int),
                    letters@,
                    side as int,
                    spacing as int,
                    h as int,
                ),
            decreases items@.len() - i,
        {
            assert(all.take(i + 1).drop_last() =~= all.take(i as int));
            assert(all.take(i + 1).last() == items@[i as int].deep_view());
            self.add_item(&items[i], i, letters[i], side, h);
            let x0: i32 = self.at;
            let x1: i32 = clip_to(x0 as i128 + side as i128 + spacing as i128);
            self.add_zone(x0, x1, HitKind::Tray(items[i].key.clone()));
            self.at = x1;
            i += 1;
        }
        assert(all.take(i as int) =~= all);
    }

    /// Adds a part.
    fn add_part(
        &mut self,
        b: &Bar,
        p: &BarModule,
        m: Measure,
        items: &Vec<TrayItem>,
        letters: &Vec<Measure>,
        spacer: i32,
        h: i32,
    )
        requires
            h >= 1,
            letters@.len() == items@.len(),
        ensures
            final(self)@ == with_part(
                old(self)@,
                b.deep_view(),
                p.deep_view(),
                m,
                items.deep_view(),
                letters@,
                spacer as int,
                h as int,
            ),
    {
        match p {
            BarModule::Spacer => {
                self.at = clip_to(self.at as i128 + spacer as i128);
            },
            BarModule::Separator { size, color, style } => {
                self.add_mark(*style, *size, *color, h);
                self.at = clip_to(self.at as i128 + *size as i128);
            },
            BarModule::Executor(e) => {
                self.add_reader(b, e, m, h);
            },
            BarModule::Tray { size, spacing } => {
                let side: i32 = side_of(*size, h);
                self.add_items(items, letters, side, *spacing, h);
            },
        }
    }
}

/// The width of a spacer.
fn share_of(b: &Bar, ms: &Vec<Measure>, items: usize, w: i32, h: i32) -> (r: i32)
    requires
        h >= 1,
        w >= 1,
        ms@.len() == b.modules@.len(),
    ensures
        r == spacer_width(b.deep_view().parts, ms@, items as int, w as int, h as int),
{
    let ghost parts = b.deep_view().parts;
    let mut fixed: i32 = 0;
    let mut n: usize = 0;
    let mut i: usize = 0;
    assert(parts.take(0) =~= Seq::<Part>::empty());
    while i < b.modules.len()
        invariant
            i <= b.modules@.len() == parts.len(),
            b.modules.len() == parts.len(),
            ms@.len() == parts.len(),
            parts == b.deep_view().parts,
            h >= 1,
            n <= i,
            fixed == parts_width(parts.take(i as int), ms@, items as int, h as int),
            n == spacer_count(parts.take(i as int)),
        decreases parts.len() - i,
    {
        assert(parts.take(i + 1).drop_last() =~= parts.take(i as int));
        assert(parts.take(i + 1).last() == b.modules@[i as int].deep_view());
        let wd: i128 = width_of(&b.modules[i], ms[i], items, h);
        fixed = clip_to(fixed as i128 + wd);
        if let BarModule::Spacer = &b.modules[i] {
            n += 1;
        }
        i += 1;
    }
    assert(parts.take(i as int) =~= parts);
    if n == 0 {
        return 0;
    }
    let left: i128 = greater(w as i128 - fixed as i128, 0);
    assert(0 <= left / n as i128 <= left) by (nonlinear_arith)
        requires
            left >= 0,
            n > 0,
    ;
    clip_to(left / n as i128)
}

/// A bar as it is painted.
#[derive(Debug)]
pub struct BarFrame {
    /// Where it is on the monitors.
    pub rect: Rect,
    /// What is painted on it.
    pub paints: Vec<Paint>,
}

/// What is painted of the bar, and the world in which it is known where it takes clicks.
pub open spec fn bar_painted(w: World, ms: Seq<Measure>, letters: Seq<Seq<Measure>>) -> (World, Option<(Rect, Seq<Ink>)>) {
    match w.bar {
        None => (w, None),
        Some(b) => match bar_screen(w, b.mon) {
            None => (w, None),
            Some(r) => if !w.globals.shm {
                (w, None)
            } else {
                let at = bar_rect(b, r);
                let strip = bar_strip(b, r, ms, w.tray_items, letters);
                (
                    World {
                        bar: Some(BarModel { hit: strip.zones, origin: (at.x, at.y), ..b }),
                        ..w
                    },
                    Some((at, strip.inks)),
                )
            },
        },
    }
}

impl Bar {
    /// Paints the bar on a monitor.
    fn paint(&self, r: Rect, ms: &Vec<Measure>, items: &Vec<TrayItem>, letters: &Vec<Vec<Measure>>) -> (p: (
        Rect,
        Vec<Paint>,
        Vec<HitZone>,
    ))
        requires
            ms@.len() == self.modules@.len(),
            letters@.len() == self.modules@.len(),
            forall|i: int| 0 <= i < letters@.len() ==> (#[trigger] letters@[i])@.len() == items@.len(),
        ensures
            p.0 == bar_rect(self.deep_view(), r),
            p.1.deep_view() == bar_strip(
                self.deep_view(),
                r,
                ms@,
                items.deep_view(),
                measures(letters@),
            ).inks,
            p.2.deep_view() == bar_strip(
                self.deep_view(),
                r,
                ms@,
                items.deep_view(),
                measures(letters@),
            ).zones,
    {
        let ghost b = self.deep_view();
        let ghost all = items.deep_view();
        let h: i32 = if self.height > 1 {
            self.height
        } else {
            1
        };
        let w: i32 = clip_to(greater(r.w as i128 - 2 * self.margin_x as i128, 1));
        let x: i32 = clip_to(r.x as i128 + self.margin_x as i128);
        let y: i32 = match self.anchor {
            DockAnchor::Top => clip_to(r.y as i128 + self.margin_y as i128),
            DockAnchor::Bottom => clip_to(
                r.y as i128 + r.h as i128 - h as i128 - self.margin_y as i128,
            ),
        };
        let spacer: i32 = share_of(self, ms, items.len(), w, h);
        let mut s = Painter { paints: Vec::new(), zones: Vec::new(), at: 0 };
        add_paint(&mut s.paints, Paint::Fill { x: 0, y: 0, w, h, color: self.bg });
        let ghost ground = Strip {
            inks: seq![Ink::Fill { x: 0, y: 0, w, h, color: b.bg }],
            zones: Seq::empty(),
            at: 0,
        };
        assert(s@ =~= ground);
        let ghost parts = b.parts;
        let mut i: usize = 0;
        assert(parts.take(0) =~= Seq::<Part>::empty());
        while i < self.modules.len()
            invariant
                i <= self.modules@.len() == parts.len(),
                ms@.len() == parts.len(),
                letters@.len() == parts.len(),
                forall|i: int|
                    0 <= i < letters@.len() ==> (#[trigger] letters@[i])@.len() == items@.len(),
                b == self.deep_view(),
                parts == b.parts,
                all == items.deep_view(),
                h >= 1,
                s@ == with_parts(
                    ground,
                    b,
                    parts.take(i as int),
                    ms@,
                    all,
                    measures(letters@),
                    spacer as int,
                    h as int,
                ),
            decreases parts.len() - i,
        {
            assert(parts.take(i + 1).drop_last() =~= parts.take(i as int));
            assert(parts.take(i + 1).last() == self.modules@[i as int].deep_view());
            s.add_part(self, &self.modules[i], ms[i], items, &letters[i], spacer, h);
            i += 1;
        }
        assert(parts.take(i as int) =~= parts);
        (Rect::new(x, y, w, h), s.paints, s.zones)
    }
}

impl State {
    /// The monitor that a bar is on.
    fn find_bar_screen(&self, mon: usize) -> (r: Option<Rect>)
        ensures
            r == bar_screen(self@, mon),
    {
        if mon < self.monitors.list.len() {
            assert(self@.desk.list[mon as int].rect == self.monitors.list@[mon as int].rect);
            Some(self.monitors.list[mon].rect)
        } else if self.monitors.list.len() > 0 {
            assert(self@.desk.list[0].rect == self.monitors.list@[0].rect);
            Some(self.monitors.list[0].rect)
        } else {
            None
        }
    }

    /// Paints the bar, and notes where it takes clicks. `ms` are the measures of the texts
    /// of its modules, `letters` those of the letters of tray items, for each module.
    pub fn render_bar(&mut self, ms: &Vec<Measure>, letters: &Vec<Vec<Measure>>) -> (r: Option<BarFrame>)
        requires
            old(self)@.wf(),
            old(self)@.bar matches Some(b) ==> ms@.len() == b.parts.len() && letters@.len()
                == b.parts.len(),
            forall|i: int|
                0 <= i < letters@.len() ==> (#[trigger] letters@[i])@.len()
                    == old(self)@.tray_items.len(),
        ensures
            final(self)@ == bar_painted(old(self)@, ms@, measures(letters@)).0,
            match bar_painted(old(self)@, ms@, measures(letters@)).1 {
                Some((at, inks)) => r is Some && r->0.rect == at && r->0.paints.deep_view() == inks,
                None => r is None,
            },
            final(self)@.wf(),
    {
        if !self.globals.shm {
            return None;
        }
        let mon: usize = match &self.bar {
            None => {
                return None;
            },
            Some(b) => b.mon,
        };
        let screen = match self.find_bar_screen(mon) {
            None => {
                return None;
            },
            Some(r) => r,
        };
        let (rect, paints, zones) = match &self.bar {
            None => {
                return None;
            },
            Some(b) => b.paint(screen, ms, &self.tray_items, letters),
        };
        if let Some(b) = &mut self.bar {
            b.hit = zones;
            b.origin = (rect.x, rect.y);
        }
        Some(BarFrame { rect, paints })
    }
}

} // verus!
