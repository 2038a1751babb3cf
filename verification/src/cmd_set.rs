//! The command that sets settings.

use vstd::prelude::*;
use crate::double::{double_text, Double};
use crate::frame::{layout_named, LayoutMode};
use crate::number::{parse_i32, signed32};
use crate::reply::{err, err_text, is_yes, ok, ok_text, parse_bool};
use crate::state::{Deed, Effect, State, World};
use crate::text::{same, Text};
use crate::theme::{
    color_text, dimming, is_dimming, parse_color, to_dimming, Color, LauncherTheme, NotifTheme, Settings,
};

verus! {

/// A kind of setting.
#[derive(Clone, Copy, Debug, PartialEq, Eq, Structural)]
pub enum Name {
    WindowGap,
    BorderWidth,
    BorderActive,
    BorderNormal,
    BorderUrgent,
    FocusFollowsMouse,
    InactiveDim,
    NotifyBg,
    NotifyFg,
    NotifyBodyFg,
    NotifyAccent,
    NotifyAccentCritical,
    NotifyWidth,
    NotifyTimeout,
    LauncherDim,
    LauncherBg,
    LauncherFg,
    LauncherSelBg,
    LauncherSelFg,
    LauncherWidth,
    RaiseOnFocus,
    SmartFrame,
    SmartWindow,
    DefaultLayout,
    Unknown,
}

/// The setting of a name.
pub open spec fn setting_named(s: Text) -> Name {
    if s == "window_gap"@ || s == "frame_gap"@ {
        Name::WindowGap
    } else if s == "border_width"@ {
        Name::BorderWidth
    } else if s == "border_color_active"@ || s == "frame_border_active_color"@ {
        Name::BorderActive
    } else if s == "border_color_normal"@ || s == "frame_border_normal_color"@ {
        Name::BorderNormal
    } else if s == "border_color_urgent"@ {
        Name::BorderUrgent
    } else if s == "focus_follows_mouse"@ {
        Name::FocusFollowsMouse
    } else if s == "inactive_dim"@ {
        Name::InactiveDim
    } else if s == "notify_bg"@ {
        Name::NotifyBg
    } else if s == "notify_fg"@ {
        Name::NotifyFg
    } else if s == "notify_body_fg"@ {
        Name::NotifyBodyFg
    } else if s == "notify_accent"@ {
        Name::NotifyAccent
    } else if s == "notify_accent_critical"@ {
        Name::NotifyAccentCritical
    } else if s == "notify_width"@ {
        Name::NotifyWidth
    } else if s == "notify_timeout"@ {
        Name::NotifyTimeout
    } else if s == "launcher_dim"@ {
        Name::LauncherDim
    } else if s == "launcher_bg"@ {
        Name::LauncherBg
    } else if s == "launcher_fg"@ {
        Name::LauncherFg
    } else if s == "launcher_sel_bg"@ {
        Name::LauncherSelBg
    } else if s == "launcher_sel_fg"@ {
        Name::LauncherSelFg
    } else if s == "launcher_width"@ {
        Name::LauncherWidth
    } else if s == "raise_on_focus"@ {
        Name::RaiseOnFocus
    } else if s == "smart_frame_surroundings"@ {
        Name::SmartFrame
    } else if s == "smart_window_surroundings"@ {
        Name::SmartWindow
    } else if s == "default_frame_layout"@ {
        Name::DefaultLayout
    } else {
        Name::Unknown
    }
}

/// The setting of a name.
pub fn parse_name(s: &str) -> (r: Name)
    ensures
        r == setting_named(s@),
{
    if same(s, "window_gap") || same(s, "frame_gap") {
        Name::WindowGap
    } else if same(s, "border_width") {
        Name::BorderWidth
    } else if same(s, "border_color_active") || same(s, "frame_border_active_color") {
        Name::BorderActive
    } else if same(s, "border_color_normal") || same(s, "frame_border_normal_color") {
        Name::BorderNormal
    } else if same(s, "border_color_urgent") {
        Name::BorderUrgent
    } else if same(s, "focus_follows_mouse") {
        Name::FocusFollowsMouse
    } else if same(s, "inactive_dim") {
        Name::InactiveDim
    } else if same(s, "notify_bg") {
        Name::NotifyBg
    } else if same(s, "notify_fg") {
        Name::NotifyFg
    } else if same(s, "notify_body_fg") {
        Name::NotifyBodyFg
    } else if same(s, "notify_accent") {
        Name::NotifyAccent
    } else if same(s, "notify_accent_critical") {
        Name::NotifyAccentCritical
    } else if same(s, "notify_width") {
        Name::NotifyWidth
    } else if same(s, "notify_timeout") {
        Name::NotifyTimeout
    } else if same(s, "launcher_dim") {
        Name::LauncherDim
    } else if same(s, "launcher_bg") {
        Name::LauncherBg
    } else if same(s, "launcher_fg") {
        Name::LauncherFg
    } else if same(s, "launcher_sel_bg") {
        Name::LauncherSelBg
    } else if same(s, "launcher_sel_fg") {
        Name::LauncherSelFg
    } else if same(s, "launcher_width") {
        Name::LauncherWidth
    } else if same(s, "raise_on_focus") {
        Name::RaiseOnFocus
    } else if same(s, "smart_frame_surroundings") {
        Name::SmartFrame
    } else if same(s, "smart_window_surroundings") {
        Name::SmartWindow
    } else if same(s, "default_frame_layout") {
        Name::DefaultLayout
    } else {
        Name::Unknown
    }
}

/// A number not below a least one.
pub open spec fn at_least(n: int, least: int) -> i32 {
    if n > least {
        n as i32
    } else {
        least as i32
    }
}

/// What is said of a value that is no colour.
pub open spec fn color_complaint(name: Name) -> Text {
    if name == Name::LauncherDim {
        "set: bad colour (use #rrggbb or #rrggbbaa)"@
    } else {
        "set: bad colour (use #rrggbb)"@
    }
}

/// The settings with a colour set.
pub open spec fn with_color(s: Settings, name: Name, c: Color) -> Settings {
    match name {
        Name::BorderActive => Settings { border_active: c, ..s },
        Name::BorderNormal => Settings { border_normal: c, ..s },
        Name::BorderUrgent => Settings { border_urgent: c, ..s },
        Name::NotifyBg => Settings { notif_theme: NotifTheme { bg: c, ..s.notif_theme }, ..s },
        Name::NotifyFg => Settings { notif_theme: NotifTheme { fg: c, ..s.notif_theme }, ..s },
        Name::NotifyBodyFg => Settings { notif_theme: NotifTheme { body_fg: c, ..s.notif_theme }, ..s },
        Name::NotifyAccent => Settings { notif_theme: NotifTheme { accent: c, ..s.notif_theme }, ..s },
        Name::NotifyAccentCritical => Settings {
            notif_theme: NotifTheme { accent_critical: c, ..s.notif_theme },
            ..s
        },
        Name::LauncherDim => Settings {
            launcher_theme: LauncherTheme { dim: c, ..s.launcher_theme },
            ..s
        },
        Name::LauncherBg => Settings {
            launcher_theme: LauncherTheme { bg: c, ..s.launcher_theme },
            ..s
        },
        Name::LauncherFg => Settings {
            launcher_theme: LauncherTheme { fg: c, ..s.launcher_theme },
            ..s
        },
        Name::LauncherSelBg => Settings {
            launcher_theme: LauncherTheme { sel_bg: c, ..s.launcher_theme },
            ..s
        },
        Name::LauncherSelFg => Settings {
            launcher_theme: LauncherTheme { sel_fg: c, ..s.launcher_theme },
            ..s
        },
        _ => s,
    }
}

/// The settings with a value set, or what is said of a value that cannot be.
pub open spec fn with_setting(s: Settings, name: Name, v: Text) -> Result<Settings, Text> {
    match name {
        Name::WindowGap => match signed32(v) {
            Some(n) => Ok(Settings { window_gap: at_least(n, 0), ..s }),
            None => Err("set window_gap: expected an integer"@),
        },
        Name::BorderWidth => match signed32(v) {
            Some(n) => Ok(Settings { border_width: at_least(n, 0), ..s }),
            None => Err("set border_width: expected an integer"@),
        },
        Name::FocusFollowsMouse => Ok(Settings { focus_follows_mouse: is_yes(v), ..s }),
        Name::InactiveDim => match double_text(v) {
            Some(d) => Ok(Settings { inactive_dim: dimming(d), ..s }),
            None => Err("set inactive_dim: expected a number 0.0..=1.0"@),
        },
        Name::NotifyWidth => match signed32(v) {
            Some(n) => Ok(
                Settings {
                    notif_theme: NotifTheme { width: at_least(n, 120), ..s.notif_theme },
                    ..s
                },
            ),
            None => Err("set notify_width: expected an integer"@),
        },
        Name::NotifyTimeout => match signed32(v) {
            Some(n) => Ok(
                Settings {
                    notif_theme: NotifTheme { timeout_ms: at_least(n, 0), ..s.notif_theme },
                    ..s
                },
            ),
            None => Err("set notify_timeout: expected milliseconds"@),
        },
        Name::LauncherWidth => match signed32(v) {
            Some(n) => Ok(
                Settings {
                    launcher_theme: LauncherTheme { width: at_least(n, 240), ..s.launcher_theme },
                    ..s
                },
            ),
            None => Err("set launcher_width: expected an integer"@),
        },
        Name::RaiseOnFocus => Ok(Settings { raise_on_focus: is_yes(v), ..s }),
        Name::SmartFrame => Ok(Settings { smart_frame_surroundings: is_yes(v), ..s }),
        Name::SmartWindow => Ok(Settings { smart_window_surroundings: is_yes(v), ..s }),
        Name::DefaultLayout => match layout_named(v) {
            Some(l) => Ok(Settings { default_frame_layout: l, ..s }),
            None => Err("set default_frame_layout: expected max|vertical|horizontal|grid"@),
        },
        Name::Unknown => Ok(s),
        _ => match color_text(v) {
            Some(c) => Ok(with_color(s, name, c)),
            None => Err(color_complaint(name)),
        },
    }
}

/// `set <name> <value>`. A name that is not known is taken without a word.
pub open spec fn set(w: World, a: Seq<Text>) -> (World, Text) {
    if a.len() < 2 {
        (w, err_text("set: expected <name> <value>"@))
    } else {
        let name = setting_named(a[0]);
        if name == Name::Unknown {
            (w, ok_text())
        } else {
            match with_setting(w.settings, name, a[1]) {
                Err(e) => (w, err_text(e)),
                Ok(s) => {
                    let v = World { settings: s, ..w };
                    let u = if name == Name::InactiveDim {
                        v.then_do(Deed::RefreshDim)
                    } else {
                        v
                    };
                    (u.manage(), ok_text())
                },
            }
        }
    }
}

/// A number not below a least one.
fn no_less(n: i32, least: i32) -> (r: i32)
    ensures
        r == at_least(n as int, least as int),
{
    if n > least {
        n
    } else {
        least
    }
}

/// Sets a colour.
fn set_color(s: Settings, name: Name, c: Color) -> (r: Settings)
    ensures
        r == with_color(s, name, c),
{
    let mut r = s;
    match name {
        Name::BorderActive => {
            r.border_active = c;
        },
        Name::BorderNormal => {
            r.border_normal = c;
        },
        Name::BorderUrgent => {
            r.border_urgent = c;
        },
        Name::NotifyBg => {
            r.notif_theme.bg = c;
        },
        Name::NotifyFg => {
            r.notif_theme.fg = c;
        },
        Name::NotifyBodyFg => {
            r.notif_theme.body_fg = c;
        },
        Name::NotifyAccent => {
            r.notif_theme.accent = c;
        },
        Name::NotifyAccentCritical => {
            r.notif_theme.accent_critical = c;
        },
        Name::LauncherDim => {
            r.launcher_theme.dim = c;
        },
        Name::LauncherBg => {
            r.launcher_theme.bg = c;
        },
        Name::LauncherFg => {
            r.launcher_theme.fg = c;
        },
        Name::LauncherSelBg => {
            r.launcher_theme.sel_bg = c;
        },
        Name::LauncherSelFg => {
            r.launcher_theme.sel_fg = c;
        },
        _ => {},
    }
    r
}

impl Settings {
    /// Sets a value; says what is wrong with one that cannot be set.
    pub fn put(self, name: Name, v: &str) -> (r: Result<Settings, &'static str>)
        ensures
            match with_setting(self, name, v@) {
                Ok(s) => r == Ok::<Settings, &'static str>(s),
                Err(e) => r is Err && r->Err_0@ == e,
            },
            is_dimming(self.inactive_dim) && r is Ok ==> is_dimming(r->Ok_0.inactive_dim),
    {
        let mut r = self;
        match name {
            Name::WindowGap => match parse_i32(v) {
                Some(n) => {
                    r.window_gap = no_less(n, 0);
                },
                None => {
                    return Err("set window_gap: expected an integer");
                },
            },
            Name::BorderWidth => match parse_i32(v) {
                Some(n) => {
                    r.border_width = no_less(n, 0);
                },
                None => {
                    return Err("set border_width: expected an integer");
                },
            },
            Name::FocusFollowsMouse => {
                r.focus_follows_mouse = parse_bool(v);
            },
            Name::InactiveDim => match Double::parse(v) {
                Some(d) => {
                    r.inactive_dim = to_dimming(d);
                },
                None => {
                    return Err("set inactive_dim: expected a number 0.0..=1.0");
                },
            },
            Name::NotifyWidth => match parse_i32(v) {
                Some(n) => {
                    r.notif_theme.width = no_less(n, 120);
                },
                None => {
                    return Err("set notify_width: expected an integer");
                },
            },
            Name::NotifyTimeout => match parse_i32(v) {
                Some(n) => {
                    r.notif_theme.timeout_ms = no_less(n, 0);
                },
                None => {
                    return Err("set notify_timeout: expected milliseconds");
                },
            },
            Name::LauncherWidth => match parse_i32(v) {
                Some(n) => {
                    r.launcher_theme.width = no_less(n, 240);
                },
                None => {
                    return Err("set launcher_width: expected an integer");
                },
            },
            Name::RaiseOnFocus => {
                r.raise_on_focus = parse_bool(v);
            },
            Name::SmartFrame => {
                r.smart_frame_surroundings = parse_bool(v);
            },
            Name::SmartWindow => {
                r.smart_window_surroundings = parse_bool(v);
            },
            Name::DefaultLayout => match LayoutMode::parse(v) {
                Some(l) => {
                    r.default_frame_layout = l;
                },
                None => {
                    return Err("set default_frame_layout: expected max|vertical|horizontal|grid");
                },
            },
            Name::Unknown => {},
            _ => match parse_color(v) {
                Some(c) => {
                    r = set_color(self, name, c);
                },
                None => {
                    return if name == Name::LauncherDim {
                        Err("set: bad colour (use #rrggbb or #rrggbbaa)")
                    } else {
                        Err("set: bad colour (use #rrggbb)")
                    };
                },
            },
        }
        Ok(r)
    }
}

/// Sets a setting by its name.
pub fn apply_setting(state: &mut State, name: &str, v: &str) -> (r: String)
    requires
        old(state)@.wf(),
    ensures
        (final(state)@, r@) == set(old(state)@, seq![name@, v@]),
        final(state)@.wf(),
{
    let which = parse_name(name);
    if which == Name::Unknown {
        return ok();
    }
    match state.settings.put(which, v) {
        Err(e) => err(e),
        Ok(s) => {
            state.settings = s;
            if which == Name::InactiveDim {
                state.perform(Effect::RefreshDim);
            }
            state.request_manage();
            ok()
        },
    }
}

pub fn cmd_set(state: &mut State, a: &[String]) -> (r: String)
    requires
        old(state)@.wf(),
    ensures
        (final(state)@, r@) == set(old(state)@, a.deep_view()),
        final(state)@.wf(),
{
    if a.len() < 2 {
        return err("set: expected <name> <value>");
    }
    assert(a.deep_view()[0] == a@[0]@ && a.deep_view()[1] == a@[1]@);
    apply_setting(state, a[0].as_str(), a[1].as_str())
}

} // verus!
