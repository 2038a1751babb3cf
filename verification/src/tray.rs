//! The system tray: its items, their icons and their menus.

use vstd::prelude::*;
use crate::text::Text;

verus! {

/// An icon: rows of pixels of four bytes each, blue, green, red and opacity.
#[derive(Debug)]
pub struct TrayIcon {
    pub width: u32,
    pub height: u32,
    pub bgra: Vec<u8>,
}

/// An icon as a mathematical value.
#[verifier::ext_equal]
pub ghost struct Picture {
    pub width: u32,
    pub height: u32,
    pub bgra: Seq<u8>,
}

impl DeepView for TrayIcon {
    type V = Picture;

    open spec fn deep_view(&self) -> Picture {
        Picture { width: self.width, height: self.height, bgra: self.bgra@ }
    }
}

/// An item of the tray.
#[derive(Debug)]
pub struct TrayItem {
    pub key: String,
    pub title: String,
    pub status: String,
    pub icon: Option<TrayIcon>,
    /// Whether it has nothing but a menu.
    pub is_menu: bool,
    pub menu: Option<String>,
}

/// An item of the tray, its strings as texts.
#[verifier::ext_equal]
pub ghost struct TrayEntry {
    pub key: Text,
    pub title: Text,
    pub status: Text,
    pub icon: Option<Picture>,
    pub is_menu: bool,
    pub menu: Option<Text>,
}

impl DeepView for TrayItem {
    type V = TrayEntry;

    open spec fn deep_view(&self) -> TrayEntry {
        TrayEntry {
            key: self.key@,
            title: self.title@,
            status: self.status@,
            icon: self.icon.deep_view(),
            is_menu: self.is_menu,
            menu: self.menu.deep_view(),
        }
    }
}

/// What an item of the tray is told.
#[derive(Debug)]
pub enum TrayCmd {
    Activate { key: String, x: i32, y: i32 },
    SecondaryActivate { key: String, x: i32, y: i32 },
    /// To hand over its menu.
    OpenMenu { key: String, x: i32, y: i32 },
    /// That an entry of its menu was clicked.
    MenuClicked { key: String, id: i32 },
    Scroll { key: String, delta: i32, horizontal: bool },
}

/// What an item of the tray is told, its string as a text.
pub ghost enum Errand {
    Activate { key: Text, x: i32, y: i32 },
    SecondaryActivate { key: Text, x: i32, y: i32 },
    OpenMenu { key: Text, x: i32, y: i32 },
    MenuClicked { key: Text, id: i32 },
    Scroll { key: Text, delta: i32, horizontal: bool },
}

impl View for TrayCmd {
    type V = Errand;

    open spec fn view(&self) -> Errand {
        match self {
            TrayCmd::Activate { key, x, y } => Errand::Activate { key: key@, x: *x, y: *y },
            TrayCmd::SecondaryActivate { key, x, y } => Errand::SecondaryActivate {
                key: key@,
                x: *x,
                y: *y,
            },
            TrayCmd::OpenMenu { key, x, y } => Errand::OpenMenu { key: key@, x: *x, y: *y },
            TrayCmd::MenuClicked { key, id } => Errand::MenuClicked { key: key@, id: *id },
            TrayCmd::Scroll { key, delta, horizontal } => Errand::Scroll {
                key: key@,
                delta: *delta,
                horizontal: *horizontal,
            },
        }
    }
}

} // verus!
