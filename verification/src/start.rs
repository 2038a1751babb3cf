//! The window manager as it starts.

use vstd::prelude::*;
use crate::double::Double;
use crate::frame::LayoutMode;
use crate::monitor::{Desk, Monitors};
use crate::state::{in_number_order, sound_trees, Globals, State, World};
use crate::theme::{
    default_launcher_theme, default_notif_theme, LauncherTheme, NotifTheme, Settings,
};

verus! {

/// The settings that nothing was set of.
pub open spec fn default_settings() -> Settings {
    Settings {
        window_gap: 0,
        border_width: 0,
        border_active: (0x4eu8, 0x9bu8, 0xcfu8, 0xffu8),
        border_normal: (0x1du8, 0x25u8, 0x2bu8, 0xffu8),
        border_urgent: (0xffu8, 0x6cu8, 0x6bu8, 0xffu8),
        focus_follows_mouse: false,
        raise_on_focus: false,
        smart_frame_surroundings: false,
        smart_window_surroundings: false,
        default_frame_layout: LayoutMode::Vertical,
        inactive_dim: Double::Mag { neg: false, units: 0 },
        notif_theme: default_notif_theme(),
        launcher_theme: default_launcher_theme(),
    }
}

/// The world before anything happened.
pub open spec fn fresh_world(globals: Globals) -> World {
    World {
        desk: Desk { list: Seq::empty(), focus: 0, next_id: 0 },
        windows: Seq::empty(),
        next_win: 1,
        trees: Seq::empty(),
        settings: default_settings(),
        floating_tags: Seq::empty(),
        next_raise: 1,
        rules: Seq::empty(),
        tag_monitor: Seq::empty(),
        prev_tag: Seq::empty(),
        last_rects: Seq::empty(),
        pending_close: Seq::empty(),
        user_attrs: Seq::empty(),
        gesturebinds: Seq::empty(),
        keybinds: Seq::empty(),
        mousebinds: Seq::empty(),
        next_bind: 0,
        outputs: Seq::empty(),
        auto_monitors: true,
        globals,
        bar: None,
        next_bar_module: 0,
        wallpapers: Seq::empty(),
        tray_items: Seq::empty(),
        launcher: None,
        apps: Seq::empty(),
        pointer_focus: None,
        pointer_pos: (0, 0),
        op: None,
        pending_op_start: Seq::empty(),
        pending_op_end: Seq::empty(),
        tray_menu: None,
        pointer_over_menu: false,
        menu_pointer: (0, 0),
        pointer_over_bar: false,
        bar_pointer: (0, 0),
        last_pointer_button: 0x110,
        notifications: Seq::empty(),
        overlays: Seq::empty(),
        painted: Seq::empty(),
        effects: Seq::empty(),
    }
}

impl State {
    /// The window manager as it starts.
    pub fn new(globals: Globals) -> (r: State)
        ensures
            r@ == fresh_world(globals),
            r@.wf(),
    {
        let r = State {
            monitors: Monitors::new(),
            windows: Vec::new(),
            next_win: 1,
            tags: Vec::new(),
            settings: Settings {
                window_gap: 0,
                border_width: 0,
                border_active: (0x4e, 0x9b, 0xcf, 0xff),
                border_normal: (0x1d, 0x25, 0x2b, 0xff),
                border_urgent: (0xff, 0x6c, 0x6b, 0xff),
                focus_follows_mouse: false,
                raise_on_focus: false,
                smart_frame_surroundings: false,
                smart_window_surroundings: false,
                default_frame_layout: LayoutMode::Vertical,
                inactive_dim: Double::Mag { neg: false, units: 0 },
                notif_theme: NotifTheme::default(),
                launcher_theme: LauncherTheme::default(),
            },
            floating_tags: Vec::new(),
            next_raise: 1,
            rules: Vec::new(),
            tag_monitor: Vec::new(),
            prev_tag: Vec::new(),
            last_rects: Vec::new(),
            pending_close: Vec::new(),
            user_attrs: Vec::new(),
            gesturebinds: Vec::new(),
            keybinds: Vec::new(),
            mousebinds: Vec::new(),
            next_bind: 0,
            outputs: Vec::new(),
            auto_monitors: true,
            globals,
            bar: None,
            next_bar_module: 0,
            wallpapers: Vec::new(),
            tray_items: Vec::new(),
            launcher: None,
            apps: Vec::new(),
            pointer_focus: None,
            pointer_pos: (0, 0),
            op: None,
            pending_op_start: Vec::new(),
            pending_op_end: Vec::new(),
            tray_menu: None,
            pointer_over_menu: false,
            menu_pointer: (0, 0),
            pointer_over_bar: false,
            bar_pointer: (0, 0),
            last_pointer_button: 0x110,
            notifications: Vec::new(),
            overlays: Vec::new(),
            painted: Vec::new(),
            effects: Vec::new(),
        };
        assert(r@ =~= fresh_world(globals));
        proof {
            reveal(in_number_order);
            reveal(sound_trees);
        }
        r
    }
}

} // verus!
