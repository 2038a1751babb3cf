use sfwm::launcher::{
    clean_exec, filter, fuzzy_score, key_of_sym, parse_desktop, read_apps, Launcher, LauncherKey,
};
use sfwm::launching::{launcher_key, Launch};
use sfwm::state::{Globals, State};

fn s(t: &str) -> String {
    t.to_string()
}

fn words(list: &[&str]) -> Vec<String> {
    list.iter().map(|t| t.to_string()).collect()
}

#[test]
fn scores_favour_runs_and_word_starts() {
    assert_eq!(fuzzy_score("", "anything"), Some(0));
    assert_eq!(fuzzy_score("ff", "Firefox"), Some(5));
    assert_eq!(fuzzy_score("fi", "Firefox"), Some(10));
    assert_eq!(fuzzy_score("te", "my term"), Some(10));
    assert_eq!(fuzzy_score("xyz", "Firefox"), None);
    assert_eq!(fuzzy_score("a", "a23456789012345678901"), Some(3));
}

#[test]
fn case_and_letters_follow_unicode() {
    assert_eq!(fuzzy_score("\u{c4}", "\u{e4}x"), Some(4));
    assert_eq!(fuzzy_score("b", "\u{e9}b"), Some(1));
    assert_eq!(fuzzy_score("b", "-b"), Some(4));
}

#[test]
fn best_matches_come_first() {
    let entries = words(&["Files", "Firefox", "foot", "Xterm"]);
    assert_eq!(filter(&entries, "f"), vec![2, 0, 1]);
    assert_eq!(filter(&entries, "fi"), vec![0, 1]);
    assert_eq!(filter(&entries, ""), vec![2, 0, 3, 1]);
}

#[test]
fn commands_lose_their_codes() {
    assert_eq!(clean_exec("foot  -e %U mc %f"), "foot -e mc");
    assert_eq!(clean_exec("a%%b"), "ab");
    assert_eq!(clean_exec("tail%"), "tail");
}

#[test]
fn desktop_entries_are_read() {
    let app = parse_desktop(
        "[Desktop Entry]\nName=Foot\nName=Other\nExec=foot %U\nType=Application\n[Desktop Action x]\nName=No\n",
    )
    .unwrap();
    assert_eq!((app.name.as_str(), app.command.as_str()), ("Foot", "foot"));
    assert!(parse_desktop("[Desktop Entry]\nName=A\nExec=a\nNoDisplay=True\n").is_none());
    assert!(parse_desktop("[Desktop Entry]\nName=A\nExec=a\nType=Link\n").is_none());
    assert!(parse_desktop("[Desktop Entry]\nName=A\nExec=%U\n").is_none());
    assert!(parse_desktop("Name=A\nExec=a\n").is_none());
}

#[test]
fn applications_are_sorted_and_the_first_file_counts() {
    let entry = |n: &str| Some(format!("[Desktop Entry]\nName={n}\nExec={n}\n"));
    let apps = read_apps(&vec![
        (s("b.desktop"), entry("beta")),
        (s("a.desktop"), None),
        (s("c.desktop"), entry("Alpha")),
        (s("b.desktop"), entry("gamma")),
        (s("a.desktop"), entry("delta")),
    ]);
    let names: Vec<&str> = apps.iter().map(|a| a.name.as_str()).collect();
    assert_eq!(names, vec!["Alpha", "beta"]);
}

#[test]
fn keys_change_the_query_and_the_choice() {
    let mut l = Launcher::open(words(&["one", "two", "three"]), None);
    assert_eq!(l.choice(), Some(s("one")));
    l.key(&LauncherKey::Down);
    assert_eq!(l.choice(), Some(s("two")));
    l.key(&LauncherKey::Other(s("t\u{1b}")));
    assert_eq!(l.query, "t");
    assert_eq!(l.choice(), Some(s("two")));
    l.key(&LauncherKey::Down);
    l.key(&LauncherKey::Down);
    assert_eq!(l.choice(), Some(s("three")));
    l.key(&LauncherKey::BackSpace);
    assert_eq!(l.query, "");
    assert_eq!(l.matches.len(), 3);
}

#[test]
fn the_chosen_row_is_run_or_handed_back() {
    let mut st = State::new(Globals {
        wm: true,
        compositor: true,
        shm: true,
        xkb_bindings: true,
        tray: true,
        dimming: true,
        seats: 1,
    });
    st.open_launcher_menu(words(&["x", "y"]));
    assert!(matches!(launcher_key(&mut st, &LauncherKey::Down), Launch::Nothing));
    match launcher_key(&mut st, &LauncherKey::Enter) {
        Launch::Pick(p) => assert_eq!(p, "y"),
        _ => panic!("nothing picked"),
    }
    assert!(st.launcher.is_none());
    st.open_launcher_with(words(&["Foot"]), Some(words(&["foot -s"])));
    match launcher_key(&mut st, &LauncherKey::Enter) {
        Launch::Run(c) => assert_eq!(c, "foot -s"),
        _ => panic!("nothing run"),
    }
    st.open_launcher_menu(words(&["x"]));
    assert!(matches!(launcher_key(&mut st, &LauncherKey::Escape), Launch::Nothing));
    assert!(st.launcher.is_none());
}

#[test]
fn keys_go_by_their_symbols() {
    let key = |sym: u32| key_of_sym(sym, s("t"));
    assert!(matches!(key(0xff1b), LauncherKey::Escape));
    assert!(matches!(key(0xff0d), LauncherKey::Enter));
    assert!(matches!(key(0xff8d), LauncherKey::Enter));
    assert!(matches!(key(0xff08), LauncherKey::BackSpace));
    assert!(matches!(key(0xff52), LauncherKey::Up));
    assert!(matches!(key(0xff54), LauncherKey::Down));
    assert!(matches!(key(0xff09), LauncherKey::Down));
    assert!(matches!(key(0x74), LauncherKey::Other(t) if t == "t"));
}

#[test]
fn equal_matches_keep_their_order() {
    let entries = words(&["foe", "fob", "fog", "fo"]);
    assert_eq!(filter(&entries, "fo"), vec![3, 0, 1, 2]);
    assert_eq!(filter(&words(&["ab", "ab", "ab"]), "b"), vec![0, 1, 2]);
}
