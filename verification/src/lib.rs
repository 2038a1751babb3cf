//! The logic of a tiling window manager: virtual monitors, frame trees, commands.

pub mod double;
pub mod frame;
pub mod monitor;
pub mod number;
pub mod ratio;
pub mod text;
pub mod tree;
pub mod sexpr;
pub mod round_trip;
pub mod frame_laws;
pub mod direction_laws;
pub mod arrange_laws;
pub mod place_laws;
pub mod monitor_laws;
pub mod table;
pub mod theme;
pub mod bar;
pub mod launcher;
pub mod rules;
pub mod state;
pub mod tray;
pub mod menu;
pub mod notices;
pub mod wallpaper;
pub mod reply;
pub mod cmd_monitor;
pub mod outputs;
pub mod cmd_window;
pub mod cmd_frame;
pub mod cmd_layout;
pub mod cmd_set;
pub mod attr;
pub mod keys;
pub mod gestures;
pub mod listing;
pub mod cmd_bar;
pub mod cmd_wallpaper;
pub mod cmd_tray;
pub mod launching;
pub mod combine;
pub mod route;
pub mod ipc;
pub mod ipc_laws;
pub mod layout;
pub mod layout_laws;
pub mod manage;
pub mod render;
pub mod pixels;
pub mod images;
pub mod paint;
pub mod bar_paint;
pub mod menu_paint;
pub mod launcher_paint;
pub mod notice_paint;
pub mod events;
pub mod home_laws;
pub mod rule_laws;
pub mod screen_laws;
pub mod window_laws;
pub mod key_laws;
pub mod pass_laws;
pub mod desk_laws;
pub mod order_laws;
pub mod list_laws;
pub mod command_laws;
pub mod chrome_laws;
pub mod lock_laws;
pub mod surfaces;
pub mod bar_laws;
pub mod paint_laws;
pub mod client_laws;
pub mod entry_laws;
pub mod theme_laws;
pub mod read_laws;
pub mod browse_laws;
pub mod start;
pub mod wire;
pub mod path;
pub mod ini;
pub mod order;
pub mod icon_theme;
pub mod icon_laws;
pub mod tray_menu;
pub mod tray_icon;
pub mod tray_watch;
pub mod config;
pub mod config_laws;
pub mod drawing;
pub mod thumbs;
pub mod programs;
pub mod browser;
pub mod look_laws;
