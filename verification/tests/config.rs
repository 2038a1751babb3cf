use sfwm::config::{config_path, Config, Saved};

const HEAD: &str = "# sommerflusswm wallpaper browser config\n# managed by sfwm-appearance; edits are preserved on the\n# next save only for recognised directives.\n";

#[test]
fn nothing_is_chosen_without_a_file() {
    let c = Config::load(None);
    assert!(c.dirs.is_empty() && c.saved.is_empty());
    assert!(c.icon_theme.is_none() && c.cursor_theme.is_none() && c.cursor_size.is_none());
    assert_eq!(c.save(), HEAD);
}

#[test]
fn directives_are_read() {
    let c = Config::load(Some(
        "# remark\n\n dir /a b \ndir /a b\ndir\nsaved all fill /w/x y.png\nsaved 0 fit /z.jpg\nsaved 0 tile /q.jpg\nsaved 1 fill\nsaved-color 2 #1e1e2e\nicon-theme Papirus\ncursor-theme Adwaita\ncursor-size 32\ncursor-size x\nother thing\n",
    ));
    assert_eq!(c.dirs, vec!["/a b".to_string()]);
    assert_eq!(c.saved.len(), 3);
    assert_eq!(c.saved[0].0, "0");
    match &c.saved[0].1 {
        Saved::Image { mode, path } => {
            assert_eq!(mode, "tile");
            assert_eq!(path, "/q.jpg");
        }
        _ => panic!("no image"),
    }
    assert_eq!(c.saved[1].0, "2");
    match &c.saved[1].1 {
        Saved::Color { color } => assert_eq!(color, "#1e1e2e"),
        _ => panic!("no colour"),
    }
    assert_eq!(c.saved[2].0, "all");
    assert_eq!(c.icon_theme, Some("Papirus".to_string()));
    assert_eq!(c.cursor_theme, Some("Adwaita".to_string()));
    assert_eq!(c.cursor_size, Some(32));
}

#[test]
fn what_is_kept_is_read_again() {
    let mut c = Config::load(None);
    c.dirs.push("/home/u/my wallpapers".to_string());
    c.set_saved("1", Saved::Color { color: "#000000".to_string() });
    c.set_saved("all", Saved::Image { mode: "fill".to_string(), path: "/a b.png".to_string() });
    c.set_saved("0", Saved::Color { color: "#111111".to_string() });
    c.set_saved("1", Saved::Color { color: "#222222".to_string() });
    c.set_icon_theme("Papirus-Dark");
    c.set_cursor_theme("Breeze", 48);
    let text = c.save();
    assert_eq!(
        text,
        format!(
            "{HEAD}dir /home/u/my wallpapers\nsaved-color 0 #111111\nsaved-color 1 #222222\nsaved all fill /a b.png\nicon-theme Papirus-Dark\ncursor-theme Breeze\ncursor-size 48\n"
        )
    );
    assert_eq!(Config::load(Some(&text)).save(), text);
}

#[test]
fn the_file_is_below_home() {
    assert_eq!(
        config_path(Some("/home/u".to_string())),
        "/home/u/.config/sommerflusswm/wallpaper.conf"
    );
    assert_eq!(config_path(None), "./.config/sommerflusswm/wallpaper.conf");
}
