use sfwm::ini::{apply_qt6ct_icon_theme, qt6ct_conf_path, set_ini_key};

#[test]
fn replaces_existing_key() {
    let input = "[Appearance]\nicon_theme=Old\nstyle=Fusion\n";
    let out = set_ini_key(input, "Appearance", "icon_theme", "New");
    assert!(out.contains("icon_theme=New"));
    assert!(out.contains("style=Fusion"));
    assert!(!out.contains("Old"));
}

#[test]
fn inserts_key_in_existing_group() {
    let input = "[Appearance]\nstyle=Fusion\n\n[Fonts]\nfixed=x\n";
    let out = set_ini_key(input, "Appearance", "icon_theme", "New");
    assert!(out.contains("icon_theme=New"));
    assert!(out.contains("[Fonts]"));
    assert!(out.contains("style=Fusion"));
}

#[test]
fn appends_missing_group() {
    let input = "[Fonts]\nfixed=x\n";
    let out = set_ini_key(input, "Appearance", "icon_theme", "New");
    assert!(out.contains("[Appearance]"));
    assert!(out.contains("icon_theme=New"));
    assert!(out.contains("[Fonts]"));
}

#[test]
fn from_empty() {
    let out = set_ini_key("", "Appearance", "icon_theme", "New");
    assert_eq!(out, "[Appearance]\nicon_theme=New\n");
}

#[test]
fn key_goes_before_blank_lines_at_the_end_of_its_group() {
    let out = set_ini_key("[A]\nx=1\n\n\n[B]\ny=2\n", "A", "z", "3");
    assert_eq!(out, "[A]\nx=1\nz=3\n\n\n[B]\ny=2\n");
}

#[test]
fn new_group_stands_behind_a_blank_line() {
    assert_eq!(set_ini_key("[B]\ny=2", "A", "z", "3"), "[B]\ny=2\n\n[A]\nz=3\n");
    assert_eq!(set_ini_key("[B]\ny=2\n\n", "A", "z", "3"), "[B]\ny=2\n\n[A]\nz=3\n");
}

#[test]
fn key_of_another_group_stays() {
    let out = set_ini_key("[A]\nk=1\n[B]\nk=2\n", "B", "k", "3");
    assert_eq!(out, "[A]\nk=1\n[B]\nk=3\n");
}

#[test]
fn setting_twice_is_setting_once() {
    let once = set_ini_key("[A]\nx=1\n", "A", "k", "v");
    assert_eq!(set_ini_key(&once, "A", "k", "v"), once);
    assert_eq!(set_ini_key(&once, "A", "k", "w"), "[A]\nx=1\nk=w\n");
}

#[test]
fn icon_theme_is_set_where_there_was_nothing() {
    assert_eq!(apply_qt6ct_icon_theme(None, "Papirus"), "[Appearance]\nicon_theme=Papirus\n");
    assert_eq!(
        apply_qt6ct_icon_theme(Some("[Appearance]\nicon_theme=Old\n"), "Papirus"),
        "[Appearance]\nicon_theme=Papirus\n"
    );
}

#[test]
fn qt_settings_are_below_home() {
    assert_eq!(qt6ct_conf_path(Some("/home/u".to_string())), "/home/u/.config/qt6ct/qt6ct.conf");
    assert_eq!(qt6ct_conf_path(None), "./.config/qt6ct/qt6ct.conf");
}
