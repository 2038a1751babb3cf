use sfwm::browser::{ask_once, hex_color, says_error, usual_dirs, Adding, Browser, Mode};
use sfwm::config::{Config, Saved};
use sfwm::icon_theme::IconTheme;
use sfwm::programs::{
    app_dirs, cursor_places, executor_text, find_cursor_themes, is_desktop_file, list_images,
    pause_of, query_monitors, restore_calls, sc_failure,
};
use sfwm::bar::ExecMode;
use sfwm::images::Image;
use sfwm::thumbs::{sample_icons, show_small, shrink, Picture, Pixels, ICON_PX, THUMB_MAX};

fn s(t: &str) -> String {
    t.to_string()
}

fn words(list: &[&str]) -> Vec<String> {
    list.iter().map(|t| t.to_string()).collect()
}

fn browser() -> Browser {
    let mut cfg = Config::load(Some("icon-theme B\ncursor-theme y\n"));
    cfg.dirs = words(&["/a", "/b", "/c"]);
    let theme = |d: &str, n: &str| IconTheme { dir_name: s(d), display_name: s(n) };
    Browser::new(
        cfg,
        words(&["/unused"]),
        words(&["all", "0"]),
        vec![theme("A", "Aa"), theme("B", "Bb")],
        words(&["x", "y"]),
    )
}

#[test]
fn modes_go_by_words() {
    for m in [Mode::Fill, Mode::Fit, Mode::Stretch, Mode::Center, Mode::Tile] {
        assert_eq!(Mode::from_token(m.token()), m);
    }
    assert_eq!(Mode::from_token("other"), Mode::Fill);
    assert_eq!(Mode::Center.label(), "Center");
}

#[test]
fn browser_opens_with_what_was_chosen() {
    let b = browser();
    assert_eq!(b.selected_theme, Some(1));
    assert_eq!(b.selected_cursor, Some(1));
    assert_eq!(b.cursor_size, 24);
    assert_eq!(b.monitor, "all");
    assert_eq!(b.cfg.dirs.len(), 3);
    let c = Browser::new(Config::load(None), usual_dirs("/h"), Vec::new(), Vec::new(), Vec::new());
    assert_eq!(c.cfg.dirs, words(&["/h/Pictures/wallpapers", "/h/wallpapers"]));
    assert_eq!(c.monitor, "all");
}

#[test]
fn images_are_applied_and_kept() {
    let mut b = browser();
    assert!(b.image_call().is_none());
    assert!(!b.apply_and_save_image(Ok(())));
    assert_eq!(b.status, "No image selected.");
    b.selected_image = Some(s("/w/sea.png"));
    b.mode = Mode::Fit;
    b.monitor = s("0");
    assert_eq!(b.image_call(), Some(words(&["wallpaper", "/w/sea.png", "mode=fit", "monitor=0"])));
    assert!(!b.apply_and_save_image(Err(s("no such file"))));
    assert_eq!(b.status, "error: no such file");
    assert!(says_error(&b.status));
    assert!(b.cfg.saved.is_empty());
    assert!(b.apply_and_save_image(Ok(())));
    assert_eq!(b.status, "Applied sea.png (Fit, monitor 0).");
    b.saved(Ok(()));
    assert_eq!(b.status, "Applied sea.png (Fit, monitor 0). Saved.");
    assert_eq!(b.cfg.saved.len(), 1);
    b.saved(Err(s("disk full")));
    assert_eq!(b.status, "error: saving config: disk full");
}

#[test]
fn colours_are_applied_and_kept() {
    let mut b = browser();
    assert_eq!(hex_color((1, 171, 255)), "#01abff");
    assert_eq!(b.color_call(), words(&["wallpaper", "color", "#1e1e2e", "monitor=all"]));
    assert!(!b.apply_color(Ok(()), false));
    assert!(b.cfg.saved.is_empty());
    assert!(b.apply_color(Ok(()), true));
    assert_eq!(b.status, "Applied colour #1e1e2e (monitor all).");
    assert_eq!(b.cfg.saved.len(), 1);
    assert!(!b.apply_color(Err(s("x")), true));
    assert_eq!(b.clear_args(), words(&["wallpaper", "off", "monitor=all"]));
    b.cleared(Ok(()));
    assert_eq!(b.status, "Cleared monitor all.");
}

#[test]
fn cursors_and_icons_are_applied_and_kept() {
    let mut b = browser();
    b.cursor_size = 0;
    assert_eq!(b.cursor_args(), Some(words(&["cursor_theme", "y", "1"])));
    assert!(b.apply_cursor_theme(Ok(())));
    b.cursor_saved(Ok(()));
    assert_eq!(b.cursor_status, "Applied cursor theme y @ 1px. Saved.");
    assert_eq!(b.cfg.cursor_size, Some(1));
    b.selected_cursor = None;
    assert!(!b.apply_cursor_theme(Ok(())));
    assert_eq!(b.cursor_status, "No cursor theme selected.");
    b.selected_theme = Some(0);
    assert_eq!(b.icon_choice(), Some(s("A")));
    assert!(b.apply_icon_theme(Ok(())));
    b.icon_saved(Ok(()));
    assert_eq!(b.icon_status, "Applied icon theme Aa (A). Saved.");
    assert_eq!(b.cfg.icon_theme, Some(s("A")));
}

#[test]
fn directories_are_added_and_removed() {
    let mut b = browser();
    b.new_dir_input = s("  ");
    assert!(matches!(b.add_dir(true), Adding::Stays));
    b.new_dir_input = s("rel");
    assert!(matches!(b.add_dir(true), Adding::Stays));
    assert_eq!(b.status, "error: not an absolute path: rel");
    b.new_dir_input = s("/nope");
    assert!(matches!(b.add_dir(false), Adding::Stays));
    assert_eq!(b.status, "error: not a directory: /nope");
    b.new_dir_input = s("/b");
    assert!(matches!(b.add_dir(true), Adding::Stays));
    assert_eq!(b.status, "Directory already in list.");
    assert_eq!(b.new_dir_input, "");
    b.new_dir_input = s(" /d ");
    assert!(matches!(b.add_dir(true), Adding::Shown(3)));
    assert_eq!(b.status, "Added /d.");
    b.select_dir(3, words(&["/d/x.png"]));
    b.remove_dir(0);
    assert_eq!(b.selected_dir, Some(2));
    assert_eq!(b.images.len(), 1);
    b.remove_dir(2);
    assert_eq!(b.selected_dir, None);
    assert!(b.images.is_empty());
    b.select_dir(9, words(&["/x"]));
    assert!(b.images.is_empty());
}

#[test]
fn the_look_is_restored_all_monitors_first() {
    let mut c = Config::load(None);
    c.set_saved("0", Saved::Color { color: s("#111111") });
    c.set_saved("all", Saved::Image { mode: s("fill"), path: s("/x.png") });
    c.set_cursor_theme("Breeze", 32);
    c.cursor_size = None;
    assert_eq!(
        restore_calls(&c),
        vec![
            (s("restoring monitor all"), words(&["wallpaper", "/x.png", "mode=fill", "monitor=all"])),
            (s("restoring monitor 0"), words(&["wallpaper", "color", "#111111", "monitor=0"])),
            (s("restoring cursor theme"), words(&["cursor_theme", "Breeze", "24"])),
        ]
    );
}

#[test]
fn what_programs_say_is_read() {
    assert_eq!(executor_text(&b" 12:00 \n\n".to_vec()), " 12:00");
    assert_eq!(executor_text(&vec![0xff, b'\n']), "\u{fffd}");
    assert_eq!(pause_of(ExecMode::Interval(0)), None);
    assert_eq!(pause_of(ExecMode::Interval(5)), Some(5));
    assert_eq!(pause_of(ExecMode::Continuous), None);
    assert_eq!(sc_failure(&b" out \n".to_vec(), &b"err".to_vec(), "exit status: 1"), "out");
    assert_eq!(sc_failure(&b"\n".to_vec(), &b"err\n".to_vec(), "exit status: 1"), "err");
    assert_eq!(
        sc_failure(&Vec::new(), &Vec::new(), "exit status: 1"),
        "sc exited with status exit status: 1"
    );
    assert_eq!(query_monitors(None), words(&["all", "0"]));
    assert_eq!(query_monitors(Some(b"\n  \n".to_vec())), words(&["all", "0"]));
    assert_eq!(query_monitors(Some(b"0: x\n\n1: y\n".to_vec())), words(&["all", "0", "1"]));
}

#[test]
fn files_are_listed() {
    assert_eq!(list_images(&words(&["b.PNG", "a.txt", "A.jpg", ".gif", "a.webp"])), vec![2, 4, 0]);
    assert_eq!(
        find_cursor_themes(&vec![(s("b"), true), (s("A"), true), (s("c"), false), (s("b"), true)]),
        words(&["A", "b"])
    );
    assert_eq!(cursor_places("/h"), words(&["/h/.icons", "/h/.local/share/icons", "/usr/share/icons"]));
    assert_eq!(
        app_dirs(Some(s("/h")), None, None),
        words(&["/h/.local/share/applications", "/usr/local/share/applications", "/usr/share/applications"])
    );
    assert_eq!(app_dirs(None, Some(s("/d")), Some(s(":/x:"))), words(&["/x/applications"]));
    assert!(is_desktop_file("/a/b.desktop"));
    assert!(!is_desktop_file("/a/desktop"));
}

#[test]
fn things_are_asked_for_once() {
    let mut asked = Vec::new();
    assert!(ask_once(&mut asked, "a"));
    assert!(!ask_once(&mut asked, "a"));
    assert_eq!(asked, words(&["a"]));
}

fn flat(width: u32, height: u32, px: [u8; 4], opaque: bool) -> Picture {
    let count = width as usize * height as usize;
    let rgba: Vec<u8> = px.iter().copied().cycle().take(count * 4).collect();
    Picture { width, height, opaque, pixels: Pixels::Plain(rgba) }
}

fn all_are(image: &Image, px: [u8; 4]) -> bool {
    image.rgba.chunks(4).all(|p| p == px)
}

#[test]
fn pictures_are_made_small() {
    let wide = shrink(&flat(400, 200, [10, 20, 30, 40], false), THUMB_MAX).unwrap();
    assert_eq!((wide.width, wide.height), (200, 100));
    assert_eq!(wide.rgba.len(), 200 * 100 * 4);
    assert!(all_are(&wide, [10, 20, 30, 40]));
    let tall = shrink(&flat(64, 640, [1, 2, 3, 255], true), ICON_PX).unwrap();
    assert_eq!((tall.width, tall.height), (6, 64));
    let line = shrink(&flat(5000, 1, [1, 2, 3, 255], true), ICON_PX).unwrap();
    assert_eq!((line.width, line.height), (64, 1));
}

#[test]
fn a_small_picture_has_the_mean_of_its_pixels() {
    let rgba = vec![0, 100, 7, 255, 10, 200, 7, 255, 20, 100, 7, 255, 30, 200, 7, 255];
    let p = Picture { width: 2, height: 2, opaque: false, pixels: Pixels::Plain(rgba) };
    let one = shrink(&p, 1).unwrap();
    assert_eq!((one.width, one.height, one.rgba), (1, 1, vec![15, 150, 7, 255]));
    let deep: Vec<u16> = vec![0, 0xffff, 0x8080, 0xffff, 0, 0xffff, 0x8080, 0xffff];
    let p = Picture { width: 2, height: 1, opaque: false, pixels: Pixels::Deep(deep) };
    let one = shrink(&p, 1).unwrap();
    assert_eq!((one.width, one.height, one.rgba), (1, 1, vec![0, 255, 128, 255]));
}

#[test]
fn a_picture_without_opacity_is_not_seen_through() {
    let icon = shrink(&flat(3, 3, [0, 0, 0, 255], true), ICON_PX).unwrap();
    assert_eq!((icon.width, icon.height), (64, 64));
    assert!(all_are(&icon, [0, 0, 0, 255]));
    let shown = show_small(true, 2, 1, vec![1, 2, 3, 254, 5, 6, 7, 0]);
    assert_eq!(shown.rgba, vec![1, 2, 3, 255, 5, 6, 7, 255]);
    let shown = show_small(false, 2, 1, vec![1, 2, 3, 254, 5, 6, 7, 0]);
    assert_eq!(shown.rgba, vec![1, 2, 3, 254, 5, 6, 7, 0]);
}

#[test]
fn pictures_of_no_pixels_or_too_many_are_not_made_small() {
    assert!(shrink(&flat(0, 5, [0; 4], true), THUMB_MAX).is_none());
    assert!(shrink(&flat(5, 0, [0; 4], true), THUMB_MAX).is_none());
    assert!(shrink(&flat(5, 5, [0; 4], true), 0).is_none());
    assert!(shrink(&flat(2001, 1, [0; 4], true), 1).is_none());
    assert!(shrink(&flat(2000, 1, [0; 4], true), 1).is_some());
    let deep = |n: u32| Picture {
        width: n,
        height: 1,
        opaque: true,
        pixels: Pixels::Deep(vec![0; n as usize * 4]),
    };
    assert!(shrink(&deep(151), 1).is_none());
    assert!(shrink(&deep(150), 1).is_some());
    let short = Picture { width: 2, height: 2, opaque: true, pixels: Pixels::Plain(vec![0; 15]) };
    assert!(shrink(&short, ICON_PX).is_none());
}

#[test]
fn themes_are_shown_by_seven_icons() {
    let icons = sample_icons();
    let first: Vec<&str> = icons.iter().map(|names| names[0].as_str()).collect();
    assert_eq!(
        first,
        vec![
            "folder",
            "user-home",
            "text-editor",
            "web-browser",
            "utilities-terminal",
            "system-file-manager",
            "applications-system"
        ]
    );
    assert_eq!(icons[2], words(&["text-editor", "accessories-text-editor"]));
    assert_eq!(icons[3], words(&["web-browser", "firefox"]));
    assert_eq!(icons[4], words(&["utilities-terminal", "terminal"]));
}
