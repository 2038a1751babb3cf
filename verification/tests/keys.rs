use sfwm::keys::{bind_key, holds_zero, parse_key_words, parse_mousebutton};
use sfwm::reply::split_groups;

/// A binding, with the keysym that the keyboard library knows for its key.
fn binding(spec: &str, keysym: u32) -> Result<(u32, u32), String> {
    let (mods, name) = parse_key_words(spec)?;
    bind_key(mods, &name, keysym)
}

#[test]
fn chain_splits_on_separator() {
    let args: Vec<String> = ["use", "2", ",", "spawn", "alacritty"]
        .iter()
        .map(|s| s.to_string())
        .collect();
    let g = split_groups(&args, ",");
    assert_eq!(g.len(), 2);
    assert_eq!(g[0], vec!["use", "2"]);
    assert_eq!(g[1], vec!["spawn", "alacritty"]);
}

#[test]
fn binding_modifiers_and_base_keysym() {
    assert_eq!(binding("Mod4-Shift-q", 0x71), Ok((65, 0x71)));
    assert_eq!(binding("Mod4+Return", 0xff0d), Ok((64, 0xff0d)));
    assert_eq!(binding("super+1", 0x31), Ok((64, 0x31)));
    assert_eq!(binding("Alt+Tab", 0xff09), Ok((8, 0xff09)));
}

#[test]
fn binding_resolves_xf86_keys() {
    assert_eq!(parse_key_words("XF86AudioRaiseVolume"), Ok((0, "XF86AudioRaiseVolume".to_string())));
    assert_eq!(binding("XF86AudioRaiseVolume", 0x1008ff13), Ok((0, 0x1008ff13)));
}

#[test]
fn binding_errors() {
    assert!(binding("Mod9+q", 0x71).is_err()); // unknown modifier
    assert!(binding("Mod4+definitelynotakey", 0).is_err()); // unknown key
}

#[test]
fn binding_words_keep_the_key_as_written() {
    assert_eq!(parse_key_words("Mod4-Shift-q"), Ok((65, "q".to_string())));
    assert_eq!(parse_key_words("Ctrl+Alt+Delete"), Ok((12, "Delete".to_string())));
}

#[test]
fn mouse_buttons_by_name() {
    assert_eq!(parse_mousebutton("Mod4+Button1"), Ok((64, 0x110)));
    assert_eq!(parse_mousebutton("Mod4-Button3"), Ok((64, 0x111)));
    assert!(parse_mousebutton("Mod4+Button9x").is_err());
}

#[test]
fn zero_characters_are_seen() {
    assert!(holds_zero("a\0b"));
    assert!(!holds_zero("ab"));
}
