use sfwm::wire::{
    append_lines, autostart_path, judge_reply, payload, pick_script, plan_client, socket_path, split_request,
    take_call, Call, ClientStep, Verdict,
};

fn words(list: &[&str]) -> Vec<String> {
    list.iter().map(|s| s.to_string()).collect()
}

#[test]
fn requests_are_read_as_sent() {
    let args = words(&["spawn", "foot", "-e", "h\u{e9}llo w\u{f6}rld"]);
    let bytes = payload(&args);
    assert_eq!(bytes.iter().filter(|b| **b == 0).count(), 3);
    assert_eq!(split_request(&bytes), args);
}

#[test]
fn empty_arguments_get_lost() {
    assert_eq!(payload(&words(&["a", "", "b"])), b"a\0\0b".to_vec());
    assert_eq!(split_request(&b"a\0\0b\0".to_vec()), words(&["a", "b"]));
    assert!(split_request(&Vec::new()).is_empty());
}

#[test]
fn bytes_that_are_no_text_are_replaced() {
    assert_eq!(split_request(&vec![b'a', 0xff, b'b']), words(&["a\u{fffd}b"]));
}

#[test]
fn connections_are_for_hooks_menus_or_commands() {
    assert!(matches!(take_call(words(&["--idle"])), Call::Idle));
    assert!(matches!(take_call(words(&["-i", "x"])), Call::Idle));
    match take_call(words(&["menu", "one", "two"])) {
        Call::Menu(items) => assert_eq!(items, words(&["one", "two"])),
        _ => panic!("no menu"),
    }
    match take_call(words(&["use", "2"])) {
        Call::Command(args) => assert_eq!(args, words(&["use", "2"])),
        _ => panic!("no command"),
    }
    match take_call(Vec::new()) {
        Call::Command(args) => assert!(args.is_empty()),
        _ => panic!("no command"),
    }
}

#[test]
fn client_knows_what_to_do() {
    assert_eq!(plan_client(&Vec::new()), ClientStep::Usage);
    assert_eq!(plan_client(&words(&["--help"])), ClientStep::Help);
    assert_eq!(plan_client(&words(&["-h"])), ClientStep::Help);
    assert_eq!(plan_client(&words(&["help"])), ClientStep::Help);
    assert_eq!(plan_client(&words(&["menu"])), ClientStep::Menu);
    assert_eq!(plan_client(&words(&["-i"])), ClientStep::Idle);
    assert_eq!(plan_client(&words(&["use", "1"])), ClientStep::Send);
}

#[test]
fn menu_lines_are_sent_unless_empty() {
    let mut args = words(&["menu"]);
    append_lines(&mut args, "one\r\n\ntwo\n three \n");
    assert_eq!(args, words(&["menu", "one", "two", " three "]));
}

#[test]
fn replies_are_judged() {
    assert!(matches!(judge_reply(false, "ok\n"), Verdict::Print));
    match judge_reply(false, "error: no such tag \n") {
        Verdict::Complain(s) => assert_eq!(s, "sc: error: no such tag"),
        _ => panic!("no complaint"),
    }
    assert!(matches!(judge_reply(true, "\n"), Verdict::Fail));
    assert!(matches!(judge_reply(true, ""), Verdict::Fail));
    assert!(matches!(judge_reply(true, "error: picked\n"), Verdict::Print));
}

#[test]
fn socket_is_named_or_goes_by_the_display() {
    let s = |t: &str| Some(t.to_string());
    assert_eq!(socket_path(s("/x"), s("/run"), s("w")), "/x");
    assert_eq!(socket_path(None, s("/run/user/1"), s("wayland-1")), "/run/user/1/sfwm-wayland-1.sock");
    assert_eq!(socket_path(None, s("/run/"), None), "/run/sfwm-wayland-0.sock");
    assert_eq!(socket_path(None, None, None), "/tmp/sfwm-wayland-0.sock");
}

#[test]
fn start_script_is_named_or_in_the_configuration() {
    let s = |t: &str| Some(t.to_string());
    assert_eq!(autostart_path(s("/a"), s("/c"), s("/h")), "/a");
    assert_eq!(autostart_path(None, s("/c"), s("/h")), "/c/sommerflusswm/autostart");
    assert_eq!(autostart_path(None, None, s("/h")), "/h/.config/sommerflusswm/autostart");
    assert_eq!(autostart_path(None, None, None), ".config/sommerflusswm/autostart");
    assert_eq!(pick_script("/a", true, true), s("/a"));
    assert_eq!(pick_script("/a", false, true), s("/usr/share/sommerflusswm/autostart"));
    assert_eq!(pick_script("/a", false, false), None);
}
