//! What is painted, one thing after the other.

use vstd::prelude::*;
use crate::text::Text;
use crate::theme::Color;

verus! {

/// The size of a font.
#[derive(Debug, PartialEq, Eq)]
pub enum FontSize {
    /// So many pixels.
    Px(i32),
    /// As it was written; the usual size where it was not.
    Written(Option<String>),
    /// That of a letter on a square of so many pixels.
    Letter(i32),
}

/// The size of a font, a string as a text.
pub ghost enum Points {
    Px(i32),
    Written(Option<Text>),
    Letter(i32),
}

impl View for FontSize {
    type V = Points;

    open spec fn view(&self) -> Points {
        match self {
            FontSize::Px(n) => Points::Px(*n),
            FontSize::Written(s) => Points::Written(s.deep_view()),
            FontSize::Letter(n) => Points::Letter(*n),
        }
    }
}

/// Something that is painted.
#[derive(Debug, PartialEq, Eq)]
pub enum Paint {
    /// A rectangle.
    Fill { x: i32, y: i32, w: i32, h: i32, color: Color },
    /// A line of text.
    Text { x: i32, y: i32, text: String, font: FontSize, color: Color, family: Option<String> },
    /// A text broken into lines of a width.
    Wrapped { x: i32, y: i32, width: i32, text: String, font: FontSize, color: Color },
    /// The icon of an item of the tray.
    Icon { x: i32, y: i32, size: i32, item: usize },
    /// The icon of a row of a menu.
    RowIcon { x: i32, y: i32, size: i32, column: usize, row: usize },
}

/// Something that is painted, its strings as texts.
pub ghost enum Ink {
    Fill { x: i32, y: i32, w: i32, h: i32, color: Color },
    Text { x: i32, y: i32, text: Text, font: Points, color: Color, family: Option<Text> },
    Wrapped { x: i32, y: i32, width: i32, text: Text, font: Points, color: Color },
    Icon { x: i32, y: i32, size: i32, item: usize },
    RowIcon { x: i32, y: i32, size: i32, column: usize, row: usize },
}

impl DeepView for Paint {
    type V = Ink;

    open spec fn deep_view(&self) -> Ink {
        match self {
            Paint::Fill { x, y, w, h, color } => Ink::Fill {
                x: *x,
                y: *y,
                w: *w,
                h: *h,
                color: *color,
            },
            Paint::Text { x, y, text, font, color, family } => Ink::Text {
                x: *x,
                y: *y,
                text: text@,
                font: font@,
                color: *color,
                family: family.deep_view(),
            },
            Paint::Wrapped { x, y, width, text, font, color } => Ink::Wrapped {
                x: *x,
                y: *y,
                width: *width,
                text: text@,
                font: font@,
                color: *color,
            },
            Paint::Icon { x, y, size, item } => Ink::Icon {
                x: *x,
                y: *y,
                size: *size,
                item: *item,
            },
            Paint::RowIcon { x, y, size, column, row } => Ink::RowIcon {
                x: *x,
                y: *y,
                size: *size,
                column: *column,
                row: *row,
            },
        }
    }
}

/// Adds something to what is painted.
pub fn add_paint(out: &mut Vec<Paint>, p: Paint)
    ensures
        final(out).deep_view() == old(out).deep_view().push(p.deep_view()),
{
    let ghost before = out.deep_view();
    out.push(p);
    assert(out.deep_view() =~= before.push(p.deep_view()));
}

} // verus!
