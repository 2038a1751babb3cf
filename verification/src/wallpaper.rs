//! Backgrounds of monitors.

use vstd::prelude::*;
use crate::text::Text;
use crate::theme::Color;

verus! {

/// How a picture is fitted to a monitor.
#[derive(Clone, Copy, Debug, PartialEq, Eq, Structural)]
pub enum WallMode {
    /// As large as it must be to cover the monitor.
    Fill,
    /// As large as it can be within the monitor.
    Fit,
    /// As large as the monitor, whatever its shape.
    Stretch,
    /// As large as it is, in the middle.
    Center,
    /// As large as it is, again and again.
    Tile,
}

/// What a background shows.
#[derive(Debug)]
pub enum WallpaperContent {
    Color(Color),
    Image { path: String, mode: WallMode },
}

/// What a background shows, a string as a text.
pub ghost enum Backdrop {
    Color(Color),
    Image { path: Text, mode: WallMode },
}

impl DeepView for WallpaperContent {
    type V = Backdrop;

    open spec fn deep_view(&self) -> Backdrop {
        match self {
            WallpaperContent::Color(c) => Backdrop::Color(*c),
            WallpaperContent::Image { path, mode } => Backdrop::Image { path: path@, mode: *mode },
        }
    }
}

} // verus!
