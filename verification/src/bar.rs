//! The status bar: its modules, where they are drawn, and what a click on them does.

use vstd::prelude::*;
use crate::rules::DockAnchor;
use crate::text::Text;
use crate::theme::Color;

verus! {

/// How often a module's command is run.
#[derive(Clone, Copy, Debug, PartialEq, Eq, Structural)]
pub enum ExecMode {
    /// Every so many seconds; once where that is zero.
    Interval(u64),
    /// For good; each line that it prints is shown.
    Continuous,
}

/// How a separator is drawn.
#[derive(Clone, Copy, Debug, PartialEq, Eq, Structural)]
pub enum SepStyle {
    Line,
    Empty,
    Dot,
}

/// A module that shows what a command prints.
#[derive(Debug)]
pub struct Executor {
    pub id: u64,
    pub fg: Option<Color>,
    pub bg: Option<Color>,
    pub pad: i32,
    pub family: Option<String>,
    /// The font's size, as it was written.
    pub size: Option<String>,
    pub lclick: Option<String>,
    pub rclick: Option<String>,
    pub text: String,
}

/// A module of the bar.
#[derive(Debug)]
pub enum BarModule {
    Executor(Executor),
    /// Some room, with or without a mark in it.
    Separator { size: i32, color: Color, style: SepStyle },
    /// A share of the room that the other modules leave.
    Spacer,
    /// The icons of the tray.
    Tray { size: i32, spacing: i32 },
}

/// A module that shows what a command prints, its strings as texts.
#[verifier::ext_equal]
pub ghost struct Reader {
    pub id: u64,
    pub fg: Option<Color>,
    pub bg: Option<Color>,
    pub pad: i32,
    pub family: Option<Text>,
    pub size: Option<Text>,
    pub lclick: Option<Text>,
    pub rclick: Option<Text>,
    pub text: Text,
}

/// A module of the bar, its strings as texts.
pub ghost enum Part {
    Reader(Reader),
    Separator { size: i32, color: Color, style: SepStyle },
    Spacer,
    Tray { size: i32, spacing: i32 },
}

impl DeepView for Executor {
    type V = Reader;

    open spec fn deep_view(&self) -> Reader {
        Reader {
            id: self.id,
            fg: self.fg,
            bg: self.bg,
            pad: self.pad,
            family: self.family.deep_view(),
            size: self.size.deep_view(),
            lclick: self.lclick.deep_view(),
            rclick: self.rclick.deep_view(),
            text: self.text@,
        }
    }
}

impl DeepView for BarModule {
    type V = Part;

    open spec fn deep_view(&self) -> Part {
        match self {
            BarModule::Executor(e) => Part::Reader(e.deep_view()),
            BarModule::Separator { size, color, style } => Part::Separator {
                size: *size,
                color: *color,
                style: *style,
            },
            BarModule::Spacer => Part::Spacer,
            BarModule::Tray { size, spacing } => Part::Tray { size: *size, spacing: *spacing },
        }
    }
}

/// What a click on a part of the bar goes to.
#[derive(Debug)]
pub enum HitKind {
    /// The module of a command.
    Exec(u64),
    /// An icon of the tray.
    Tray(String),
}

/// A part of the bar that takes clicks: from `x0` up to `x1`.
#[derive(Debug)]
pub struct HitZone {
    pub x0: i32,
    pub x1: i32,
    pub kind: HitKind,
}

/// What a click goes to, a string as a text.
pub ghost enum Goal {
    Exec(u64),
    Tray(Text),
}

/// A part of the bar that takes clicks.
#[verifier::ext_equal]
pub ghost struct Zone {
    pub x0: i32,
    pub x1: i32,
    pub goal: Goal,
}

impl DeepView for HitZone {
    type V = Zone;

    open spec fn deep_view(&self) -> Zone {
        Zone {
            x0: self.x0,
            x1: self.x1,
            goal: match &self.kind {
                HitKind::Exec(id) => Goal::Exec(*id),
                HitKind::Tray(k) => Goal::Tray(k@),
            },
        }
    }
}

/// The bar.
#[derive(Debug)]
pub struct Bar {
    /// The monitor that it is on.
    pub mon: usize,
    pub anchor: DockAnchor,
    pub height: i32,
    /// The room that it leaves at the sides, and at its edge.
    pub margin_x: i32,
    pub margin_y: i32,
    pub bg: Color,
    pub fg: Color,
    /// The font's size, as it was written; the usual one where it was not.
    pub font: Option<String>,
    pub modules: Vec<BarModule>,
    /// What takes clicks, from the last time that it was drawn.
    pub hit: Vec<HitZone>,
    /// Where its corner was then.
    pub origin: (i32, i32),
}

/// The bar, its strings as texts.
#[verifier::ext_equal]
pub ghost struct BarModel {
    pub mon: usize,
    pub anchor: DockAnchor,
    pub height: i32,
    pub margin_x: i32,
    pub margin_y: i32,
    pub bg: Color,
    pub fg: Color,
    pub font: Option<Text>,
    pub parts: Seq<Part>,
    pub hit: Seq<Zone>,
    pub origin: (i32, i32),
}

impl DeepView for Bar {
    type V = BarModel;

    open spec fn deep_view(&self) -> BarModel {
        BarModel {
            mon: self.mon,
            anchor: self.anchor,
            height: self.height,
            margin_x: self.margin_x,
            margin_y: self.margin_y,
            bg: self.bg,
            fg: self.fg,
            font: self.font.deep_view(),
            parts: self.modules.deep_view(),
            hit: self.hit.deep_view(),
            origin: self.origin,
        }
    }
}

} // verus!
