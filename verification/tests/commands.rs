use sfwm::ipc::{dispatch, resume, Answer, Outcome, Request};
use sfwm::state::{Effect, Globals, State};
use sfwm::theme::is_dimmed;

fn fresh() -> State {
    State::new(Globals {
        wm: true,
        compositor: true,
        shm: true,
        xkb_bindings: true,
        tray: true,
        dimming: true,
        seats: 1,
    })
}

fn words(list: &[&str]) -> Vec<String> {
    list.iter().map(|s| s.to_string()).collect()
}

/// Carries out a command that asks for nothing.
fn run(state: &mut State, args: &[&str]) -> String {
    match dispatch(state, words(args)) {
        Outcome::Reply(s) => s,
        Outcome::Ask(_) => panic!("asked"),
    }
}

fn with_screen() -> State {
    let mut s = fresh();
    assert_eq!(run(&mut s, &["set_monitors", "1000x800+0+0"]), "ok\n");
    s
}

#[test]
fn unknown_and_empty_commands_fail() {
    let mut s = fresh();
    assert_eq!(run(&mut s, &[]), "error: empty command\n");
    assert_eq!(run(&mut s, &["frobnicate"]), "error: unknown command: frobnicate\n");
}

#[test]
fn monitors_are_listed() {
    let mut s = fresh();
    assert_eq!(run(&mut s, &["list_monitors"]), "(no monitors)\n");
    assert_eq!(run(&mut s, &["set_monitors", "100x50+0+0", "200x50-100+0"]), "ok\n");
    assert_eq!(run(&mut s, &["add_monitor", "10x10+5+5", "7", "pop"]), "monitor 2\n");
    assert_eq!(
        run(&mut s, &["list_monitors"]),
        "0: id=0 name=- 100x50+0+0 z=0 tag=1 lock=- [focused]\n1: id=1 name=- 200x50-100+0 z=0 tag=2 lock=-\n2: id=2 name=pop 10x10+5+5 z=0 tag=7 lock=-\n"
    );
    assert_eq!(run(&mut s, &["set_monitors", "junk"]), "error: set_monitors: bad rect 'junk'\n");
    assert_eq!(
        run(&mut s, &["raise_monitor", "nope"]),
        "error: raise_monitor: no such monitor 'nope'\n"
    );
}

#[test]
fn outputs_make_monitors_until_some_are_set() {
    let mut s = fresh();
    s.output_added(7);
    s.output_sized(7, 1920, 1080);
    assert_eq!(s.monitors.list.len(), 1);
    s.output_added(8);
    s.output_moved(8, 1920, 0);
    s.output_sized(8, 800, 600);
    assert_eq!(s.monitors.list.len(), 2);
    assert_eq!(s.monitors.list[1].rect.x, 1920);
    s.output_removed(8);
    assert_eq!(s.monitors.list.len(), 1);
    assert_eq!(run(&mut s, &["set_monitors", "500x500+0+0", "500x500+500+0"]), "ok\n");
    s.output_removed(7);
    assert_eq!(s.monitors.list.len(), 2);
}

#[test]
fn detected_monitors_do_not_follow_the_outputs() {
    let mut s = fresh();
    s.output_added(7);
    s.output_sized(7, 1920, 1080);
    assert_eq!(run(&mut s, &["detect_monitors"]), "ok\n");
    assert_eq!(s.monitors.list.len(), 1);
    assert!(!s.auto_monitors);
    s.output_added(8);
    s.output_sized(8, 800, 600);
    assert_eq!(s.monitors.list.len(), 1);
}

#[test]
fn windows_come_and_go() {
    let mut s = with_screen();
    let a = s.window_added();
    let b = s.window_added();
    s.window_app_id(a, Some("foot".to_string()));
    s.window_title(b, Some("notes".to_string()));
    assert_eq!(
        run(&mut s, &["list_clients"]),
        "win=1 tag=1 app_id=foot title=-\nwin=2 tag=1 app_id=- title=notes [focused]\n"
    );
    s.window_closed(b);
    assert_eq!(run(&mut s, &["list_clients"]), "win=1 tag=1 app_id=foot title=- [focused]\n");
    s.window_closed(a);
    assert_eq!(run(&mut s, &["list_clients"]), "(no clients)\n");
}

#[test]
fn tags_are_used_and_windows_moved() {
    let mut s = with_screen();
    s.window_added();
    assert_eq!(run(&mut s, &["move", "3"]), "ok\n");
    assert_eq!(run(&mut s, &["tag_status"]), "#1\t.2\t:3\t.4\t.5\t.6\t.7\t.8\t.9\t\n");
    assert_eq!(run(&mut s, &["use", "3"]), "ok\n");
    assert_eq!(run(&mut s, &["get_attr", "clients.focus.winid"]), "1\n");
    assert_eq!(run(&mut s, &["use_previous"]), "ok\n");
    assert_eq!(run(&mut s, &["tag_status"]), "#1\t.2\t:3\t.4\t.5\t.6\t.7\t.8\t.9\t\n");
    assert!(run(&mut s, &["use", "x"]).starts_with("error:"));
}

#[test]
fn rules_apply_to_windows_by_name() {
    let mut s = with_screen();
    assert_eq!(run(&mut s, &["rule", "app_id=mpv", "tag=4", "floating=on", "switchtag=on"]), "ok\n");
    assert_eq!(run(&mut s, &["rule", "title~note", "monitor=0"]), "ok\n");
    assert_eq!(
        run(&mut s, &["list_rules"]),
        "0:app_id=mpv tag=4 floating=on switchtag=on\n1:title~note monitor=Index(0)\n"
    );
    let a = s.window_added();
    s.window_app_id(a, Some("mpv".to_string()));
    assert_eq!(run(&mut s, &["get_attr", "clients.1.tag"]), "4\n");
    assert_eq!(run(&mut s, &["get_attr", "clients.1.floating"]), "true\n");
    assert_eq!(run(&mut s, &["unrule"]), "ok\n");
    assert_eq!(run(&mut s, &["list_rules"]), "(no rules)\n");
}

#[test]
fn monitor_names_in_rules_are_quoted() {
    let mut s = with_screen();
    assert_eq!(run(&mut s, &["rule", "monitor=le\"ft"]), "ok\n");
    assert_eq!(run(&mut s, &["list_rules"]), "0:monitor=Name(\"le\\\"ft\")\n");
}

#[test]
fn layouts_are_dumped_and_loaded() {
    let mut s = with_screen();
    for _ in 0..3 {
        s.window_added();
    }
    assert_eq!(run(&mut s, &["dump"]), "(clients vertical:2 1 2 3)\n");
    assert_eq!(run(&mut s, &["split", "right", "0.5"]), "ok\n");
    let text = run(&mut s, &["dump"]);
    assert_eq!(run(&mut s, &["load", text.trim_end()]), "ok\n");
    assert_eq!(run(&mut s, &["dump"]), text);
    assert!(run(&mut s, &["load", "garbage"]).starts_with("error:"));
}

#[test]
fn attributes_are_read_and_written() {
    let mut s = with_screen();
    s.window_added();
    assert_eq!(run(&mut s, &["get_attr", "settings.window_gap"]), "0\n");
    assert_eq!(run(&mut s, &["set_attr", "settings.window_gap", "12"]), "ok\n");
    assert_eq!(run(&mut s, &["get_attr", "settings.frame_gap"]), "12\n");
    assert_eq!(run(&mut s, &["get_attr", "settings.border_color_active"]), "#4e9bcfff\n");
    assert_eq!(run(&mut s, &["set_attr", "clients.focus.floating_geometry", "300x200+10-5"]), "ok\n");
    assert_eq!(run(&mut s, &["get_attr", "clients.1.floating_geometry"]), "300x200+10-5\n");
    assert_eq!(run(&mut s, &["get_attr", "monitors.0.width"]), "1000\n");
    assert_eq!(run(&mut s, &["get_attr", "nope.x"]), "error: no such attribute: nope.x\n");
}

#[test]
fn user_attributes_live_with_their_window() {
    let mut s = with_screen();
    let a = s.window_added();
    assert_eq!(run(&mut s, &["new_attr", "int", "my_x"]), "ok\n");
    assert_eq!(run(&mut s, &["new_attr", "int", "my_x"]), "error: new_attr: my_x already exists\n");
    assert_eq!(run(&mut s, &["new_attr", "string", "clients.focus.my_y"]), "ok\n");
    assert_eq!(run(&mut s, &["set_attr", "clients.1.my_y", "hello"]), "ok\n");
    assert_eq!(run(&mut s, &["get_attr", "clients.focus.my_y"]), "hello\n");
    assert_eq!(s.user_attrs.len(), 2);
    s.window_closed(a);
    assert_eq!(s.user_attrs.len(), 1);
    assert_eq!(run(&mut s, &["remove_attr", "my_x"]), "ok\n");
    assert!(run(&mut s, &["remove_attr", "my_x"]).starts_with("error:"));
}

#[test]
fn commands_combine() {
    let mut s = with_screen();
    assert_eq!(run(&mut s, &["chain", ",", "echo", "a", "b", ",", "echo", "c"]), "a b\nc\n");
    assert_eq!(run(&mut s, &["and", ",", "true", ",", "false", ",", "echo", "x"]), "error: false\n");
    assert_eq!(run(&mut s, &["or", ",", "false", ",", "echo", "x", ",", "echo", "y"]), "x\n");
    assert_eq!(run(&mut s, &["!", "false"]), "ok\n");
    assert!(run(&mut s, &["negate", "true"]).starts_with("error:"));
    assert_eq!(run(&mut s, &["try", "false"]), "ok\n");
    assert_eq!(run(&mut s, &["try", "echo", "x"]), "x\n");
    assert_eq!(run(&mut s, &["silent", "echo", "x"]), "");
    assert_eq!(run(&mut s, &["silent", "false"]), "error: (silenced)\n");
    assert_eq!(run(&mut s, &["chain"]), "error: chain: expected a separator token\n");
}

#[test]
fn values_are_compared_and_filled_in() {
    let mut s = with_screen();
    assert_eq!(run(&mut s, &["set", "window_gap", "9"]), "ok\n");
    assert_eq!(run(&mut s, &["compare", "settings.window_gap", "lt", "10"]), "ok\n");
    assert_eq!(run(&mut s, &["compare", "settings.window_gap", "gt", "10"]), "error: compare: false\n");
    assert_eq!(run(&mut s, &["compare", "settings.window_gap", "lt", "x"]), "ok\n");
    assert!(run(&mut s, &["compare", "settings.window_gap", "??", "1"]).starts_with("error:"));
    assert_eq!(run(&mut s, &["substitute", "G", "settings.window_gap", "echo", "G", "xG"]), "9 xG\n");
    assert_eq!(
        run(&mut s, &["sprintf", "T", "gap=%s/%s", "settings.window_gap", "lit", "echo", "T"]),
        "gap=9/lit\n"
    );
    assert!(run(&mut s, &["sprintf", "T", "%s%s", "a"]).starts_with("error:"));
}

#[test]
fn settings_are_checked() {
    let mut s = with_screen();
    assert_eq!(run(&mut s, &["set", "border_color_active", "#010203"]), "ok\n");
    assert_eq!(run(&mut s, &["get_attr", "settings.border_color_active"]), "#010203ff\n");
    assert!(run(&mut s, &["set", "border_color_active", "blue"]).starts_with("error:"));
    assert_eq!(run(&mut s, &["set", "inactive_dim", "0.345"]), "ok\n");
    assert_eq!(run(&mut s, &["get_attr", "settings.inactive_dim"]), "0.34\n");
    assert_eq!(run(&mut s, &["set", "inactive_dim", "7"]), "ok\n");
    assert_eq!(run(&mut s, &["get_attr", "settings.inactive_dim"]), "1.00\n");
    assert_eq!(run(&mut s, &["set", "no_such", "1"]), "ok\n");
    assert!(run(&mut s, &["set", "window_gap", "x"]).starts_with("error:"));
}

#[test]
fn what_only_the_outside_knows_is_asked_for() {
    let mut s = with_screen();
    let out = dispatch(&mut s, words(&["chain", ",", "getenv", "HOME", ",", "echo", "end"]));
    let asked = match out {
        Outcome::Ask(a) => a,
        Outcome::Reply(_) => panic!("replied"),
    };
    match &asked.request {
        Request::Getenv(n) => assert_eq!(n, "HOME"),
        _ => panic!("asked for something else"),
    }
    match resume(&mut s, asked, Answer::Value("/home/u".to_string())) {
        Outcome::Reply(r) => assert_eq!(r, "/home/u\nend\n"),
        Outcome::Ask(_) => panic!("asked again"),
    }
}

#[test]
fn keys_are_bound_to_commands() {
    let mut s = with_screen();
    let out = dispatch(&mut s, words(&["keybind", "Mod4-Shift-q", "close"]));
    let asked = match out {
        Outcome::Ask(a) => a,
        Outcome::Reply(r) => panic!("{}", r),
    };
    match &asked.request {
        Request::Keysym { mods, name, .. } => {
            assert_eq!(*mods, 65);
            assert_eq!(name, "q");
        }
        _ => panic!("asked for something else"),
    }
    match resume(&mut s, asked, Answer::Number(0x71)) {
        Outcome::Reply(r) => assert_eq!(r, "ok\n"),
        Outcome::Ask(_) => panic!("asked again"),
    }
    assert_eq!(run(&mut s, &["list_keybinds"]), "Mod4-Shift-q\tclose\n");
    let id = s.keybinds[0].id;
    assert_eq!(s.key_command(id), Some(words(&["close"])));
    assert!(s.effects.iter().any(|e| matches!(e, Effect::BindKey { mods: 65, keysym: 0x71, .. })));
}

#[test]
fn gestures_are_bound_by_name() {
    let mut s = with_screen();
    assert_eq!(run(&mut s, &["gesturebind", "swipe3-left", "use", "2"]), "ok\n");
    assert_eq!(sfwm::gestures::gesture_command(&s, "swipe3-left"), Some(words(&["use", "2"])));
    assert!(run(&mut s, &["gesturebind", "swipe9-left", "use", "2"]).starts_with("error:"));
    assert_eq!(
        sfwm::gestures::swipe_name(3, (-50.0f64).to_bits(), 10.0f64.to_bits()),
        Some("swipe3-left".to_string())
    );
    assert_eq!(
        sfwm::gestures::swipe_name(4, 3.0f64.to_bits(), 40.0f64.to_bits()),
        Some("swipe4-down".to_string())
    );
    assert_eq!(sfwm::gestures::swipe_name(3, 39.9f64.to_bits(), 0.0f64.to_bits()), None);
    assert_eq!(
        sfwm::gestures::swipe_name(3, f64::NAN.to_bits(), 50.0f64.to_bits()),
        Some("swipe3-down".to_string())
    );
    assert_eq!(sfwm::gestures::swipe_name(3, 50.0f64.to_bits(), f64::NAN.to_bits()), None);
}

#[test]
fn hooks_tell_of_tags() {
    let mut s = with_screen();
    s.effects.clear();
    assert_eq!(run(&mut s, &["emit_hook", "a", "b"]), "ok\n");
    match &s.effects[0] {
        Effect::Hook(l) => assert_eq!(l, "a\tb\n"),
        _ => panic!("no hook"),
    }
}

/// Whether each window stands in a frame of its tag.
fn all_stand(s: &State) -> bool {
    s.windows.iter().all(|w| {
        s.tags
            .iter()
            .any(|(tag, tree)| *tag == w.tag as u64 && tree.all_windows().contains(&w.id))
    })
}

#[test]
fn no_command_loses_a_window() {
    let mut s = with_screen();
    let a = s.window_added();
    let b = s.window_added();
    let c = s.window_added();
    assert!(all_stand(&s));
    let commands: [&[&str]; 14] = [
        &["split", "right"],
        &["shift", "right"],
        &["split", "explode"],
        &["move", "5"],
        &["bring", "1"],
        &["floating", "on"],
        &["dock", "top"],
        &["chain", ",", "use", "5", ",", "merge_tag", "1", "5"],
        &["load", "(clients max:0 2)"],
        &["load", "9", "(split horizontal:0.5:0 (clients grid:0 1 99) (clients max:0))"],
        &["merge_tag", "9", "1"],
        &["use", "1"],
        &["remove"],
        &["resize", "left", "0.1"],
    ];
    for command in commands {
        let reply = run(&mut s, command);
        assert!(!reply.starts_with("error:"), "{command:?}: {reply}");
        assert!(all_stand(&s), "{command:?}");
    }
    s.window_title(b, Some("x".to_string()));
    s.window_closed(c);
    s.do_manage();
    assert!(all_stand(&s));
    assert_eq!(s.windows.len(), 2);
    assert!(s.windows.iter().any(|w| w.id == a) && s.windows.iter().any(|w| w.id == b));
}

#[test]
fn no_command_breaks_a_lock() {
    let mut s = with_screen();
    assert_eq!(run(&mut s, &["add_monitor", "100x100+0+0", "8", "over"]), "monitor 1\n");
    assert_eq!(run(&mut s, &["lock_tag", "8", "over"]), "ok\n");
    assert_eq!(run(&mut s, &["focus_monitor", "over"]), "ok\n");
    let commands: [&[&str]; 7] = [
        &["use", "3"],
        &["use_index", "+1"],
        &["use_previous"],
        &["set_attr", "monitors.1.tag", "4"],
        &["raise_monitor", "over"],
        &["rule", "app_id=x", "tag=5", "switchtag=on"],
        &["chain", ",", "use", "2", ",", "move_monitor", "over", "50x50+1+1"],
    ];
    for command in commands {
        run(&mut s, command);
        assert_eq!(s.monitors.list[1].tag, 8, "{command:?}");
    }
    let w = s.window_added();
    s.window_app_id(w, Some("x".to_string()));
    assert_eq!(s.windows[0].tag, 5);
    assert_eq!(s.monitors.list[1].tag, 8);
    assert_eq!(run(&mut s, &["unlock_tag", "over"]), "ok\n");
    assert_eq!(run(&mut s, &["use", "3"]), "ok\n");
    assert_eq!(s.monitors.list[1].tag, 3);
}

#[test]
fn formats_are_filled_from_the_left_once() {
    let mut s = with_screen();
    for (name, value) in [("my_a", "%s"), ("my_b", "b")] {
        assert_eq!(run(&mut s, &["new_attr", "string", name]), "ok\n");
        assert_eq!(run(&mut s, &["set_attr", name, value]), "ok\n");
    }
    assert_eq!(run(&mut s, &["sprintf", "X", "%s-%s", "my_a", "my_b", "echo", "X"]), "%s-b\n");
    assert_eq!(run(&mut s, &["sprintf", "X", "100%", "echo", "X"]), "100%\n");
    assert_eq!(run(&mut s, &["sprintf", "X", "%%s", "my_b", "echo", "X"]), "%b\n");
}

#[test]
fn shares_and_dimming_are_numbers() {
    let mut s = with_screen();
    assert_eq!(run(&mut s, &["split", "left", "nan"]), "ok\n");
    assert!(run(&mut s, &["dump"]).starts_with("(split horizontal:0.5000:1 "));
    assert_eq!(run(&mut s, &["resize", "left", "nan"]), "ok\n");
    assert!(run(&mut s, &["dump"]).starts_with("(split horizontal:0.5000:1 "));
    assert_eq!(run(&mut s, &["set", "inactive_dim", "0.5"]), "ok\n");
    assert_eq!(run(&mut s, &["set", "inactive_dim", "nan"]), "ok\n");
    assert_eq!(run(&mut s, &["get_attr", "settings.inactive_dim"]), "0.00\n");
}

#[test]
fn tags_of_other_monitors_are_skipped() {
    let mut s = with_screen();
    assert_eq!(run(&mut s, &["use_index", "+9", "--skip-visible"]), "ok\n");
    assert_eq!(s.monitors.list[0].tag, 1);
    assert_eq!(run(&mut s, &["add_monitor", "100x100+0+0", "2"]), "monitor 1\n");
    assert_eq!(run(&mut s, &["use_index", "+1", "--skip-visible"]), "ok\n");
    assert_eq!(s.monitors.list[0].tag, 3);
    assert_eq!(run(&mut s, &["use_index", "-1", "--skip-visible"]), "ok\n");
    assert_eq!(s.monitors.list[0].tag, 1);
}

#[test]
fn plugging_an_output_makes_the_monitors_anew() {
    let mut s = fresh();
    s.output_added(7);
    s.output_sized(7, 1920, 1080);
    assert_eq!(run(&mut s, &["add_monitor", "100x100+0+0", "8", "over"]), "monitor 1\n");
    s.output_moved(7, 5, 0);
    assert_eq!(s.monitors.list.len(), 2);
    assert_eq!(s.monitors.list[1].tag, 8);
    s.output_added(8);
    s.output_moved(8, 1920, 0);
    s.output_sized(8, 800, 600);
    let rects: Vec<(i32, i32, i32)> =
        s.monitors.list.iter().map(|m| (m.rect.x, m.rect.w, m.z)).collect();
    assert_eq!(rects, vec![(5, 1920, 0), (1920, 800, 0)]);
    assert_eq!(s.monitors.list[1].tag, 2);
}

#[test]
fn focus_clears_urgency() {
    let mut s = with_screen();
    let a = s.window_added();
    let b = s.window_added();
    for path in ["clients.1.urgent", "clients.2.urgent"] {
        assert_eq!(run(&mut s, &["set_attr", path, "on"]), "ok\n");
    }
    assert_eq!((a, b), (1, 2));
    s.do_manage();
    assert_eq!(run(&mut s, &["get_attr", "clients.2.urgent"]), "false\n");
    assert_eq!(run(&mut s, &["get_attr", "clients.1.urgent"]), "true\n");
    assert_eq!(run(&mut s, &["cycle", "-1"]), "ok\n");
    s.do_manage();
    assert_eq!(run(&mut s, &["get_attr", "clients.1.urgent"]), "false\n");
}

#[test]
fn the_lowered_window_is_below_every_other() {
    let mut s = with_screen();
    for _ in 0..3 {
        s.window_added();
        assert_eq!(run(&mut s, &["floating", "on"]), "ok\n");
    }
    let heights = |s: &State| s.windows.iter().map(|w| w.raise_seq).collect::<Vec<u64>>();
    assert_eq!(heights(&s), vec![1, 2, 3]);
    assert_eq!(run(&mut s, &["lower"]), "ok\n");
    assert_eq!(heights(&s), vec![2, 3, 0]);
    assert_eq!(run(&mut s, &["jumpto", "2"]), "ok\n");
    assert_eq!(run(&mut s, &["lower"]), "ok\n");
    let h = heights(&s);
    assert!(h[1] < h[2] && h[2] < h[0]);
    assert_eq!(run(&mut s, &["raise"]), "ok\n");
    let h = heights(&s);
    assert!(h[2] < h[0] && h[0] < h[1]);
}

#[test]
fn use_previous_toggles() {
    let mut s = with_screen();
    assert_eq!(run(&mut s, &["use", "2"]), "ok\n");
    assert_eq!(run(&mut s, &["use", "2"]), "ok\n");
    assert_eq!(run(&mut s, &["use_previous"]), "ok\n");
    assert_eq!(s.monitors.list[0].tag, 1);
    assert_eq!(run(&mut s, &["use_previous"]), "ok\n");
    assert_eq!(s.monitors.list[0].tag, 2);
}

#[test]
fn brought_windows_come_into_the_focused_frame() {
    let mut s = with_screen();
    s.window_added();
    s.window_added();
    assert_eq!(run(&mut s, &["split", "right"]), "ok\n");
    assert_eq!(run(&mut s, &["focus", "right"]), "ok\n");
    assert_eq!(run(&mut s, &["bring", "1"]), "ok\n");
    assert_eq!(
        run(&mut s, &["dump"]),
        "(split horizontal:0.5000:1 (clients vertical:0 2) (clients vertical:0 1))\n"
    );
    assert_eq!(run(&mut s, &["bring", "1"]), "ok\n");
    assert_eq!(s.focused_window(), Some(1));
    assert_eq!(run(&mut s, &["use", "2"]), "ok\n");
    assert_eq!(run(&mut s, &["bring", "2"]), "ok\n");
    assert_eq!(run(&mut s, &["dump"]), "(clients vertical:0 2)\n");
}

#[test]
fn the_focus_stays_where_it_is_while_there_are_no_monitors() {
    let mut s = fresh();
    run(&mut s, &["set_monitors", "100x100+0+0", "100x100+100+0", "100x100+200+0"]);
    assert_eq!(run(&mut s, &["focus_monitor", "2"]), "ok\n");
    assert_eq!(run(&mut s, &["detect_monitors"]), "ok\n");
    assert_eq!(run(&mut s, &["list_monitors"]), "(no monitors)\n");
    assert_eq!(s.monitors.focus, 2);
    assert_eq!(run(&mut s, &["add_monitor", "10x10+0+0", "4"]), "monitor 3\n");
    assert!(!run(&mut s, &["list_monitors"]).contains("[focused]"));
    assert_eq!(run(&mut s, &["set_monitors", "9x9+0+0", "9x9+9+0", "9x9+18+0"]), "ok\n");
    assert!(run(&mut s, &["list_monitors"]).ends_with("lock=- [focused]\n"));
}

#[test]
fn the_least_dimming_is_still_some() {
    let mut s = with_screen();
    for (text, dims) in
        [("1e-40", true), ("1e-300", true), ("1e-400", false), ("-1e-40", false), ("0", false)]
    {
        assert_eq!(run(&mut s, &["set", "inactive_dim", text]), "ok\n");
        assert_eq!(run(&mut s, &["get_attr", "settings.inactive_dim"]), "0.00\n");
        assert_eq!(is_dimmed(s.settings.inactive_dim), dims, "{text}");
    }
}

#[test]
fn the_size_of_a_font_is_at_least_one() {
    let mut s = with_screen();
    assert_eq!(run(&mut s, &["bar", "create", "top"]), "ok\n");
    let mut sized = |n: &str| run(&mut s, &["bar", "add", "executor", "x", &format!("size={n}")]);
    for n in ["1", "1.0", "0.9999999701976776123046875", "0.99999998", "13", "inf"] {
        assert_eq!(sized(n), "ok\n", "{n}");
    }
    for n in ["0.9999999701976776123046874", "0.9999999701976776123046874999999999", "0", "-1", "nan"] {
        let told = format!("error: bar add executor: bad size '{n}'\n");
        assert_eq!(sized(n), told);
    }
}
