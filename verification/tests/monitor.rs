use sfwm::monitor::{Insets, Monitor, MonitorId, MonitorSel, Monitors, Rect};

#[test]
fn parse_geometry() {
    assert_eq!(Rect::parse("4096x2160+1440+2160"), Some(Rect::new(1440, 2160, 4096, 2160)));
    assert_eq!(Rect::parse("1440x2560+0+1876"), Some(Rect::new(0, 1876, 1440, 2560)));
    assert_eq!(Rect::parse("100x200-10+20"), Some(Rect::new(-10, 20, 100, 200)));
    assert_eq!(Rect::parse("garbage"), None);
    assert_eq!(Rect::parse("100x200"), None); // missing offset
}

#[test]
fn usable_subtracts_pad() {
    let m = Monitor {
        id: MonitorId(0),
        name: None,
        rect: Rect::new(0, 0, 1000, 1000),
        z: 0,
        // hlwm pad order: top right bottom left
        pad: Insets { top: 36, right: 4, bottom: 4, left: 4 },
        tag: 1,
        locked_tag: None,
    };
    assert_eq!(m.usable(), Rect::new(4, 36, 992, 960));
}

#[test]
fn set_monitors_assigns_sequential_tags() {
    let mut m = Monitors::new();
    m.set_monitors(&[
        Rect::new(0, 0, 100, 100),
        Rect::new(100, 0, 100, 100),
    ]);
    assert_eq!(m.list.len(), 2);
    assert_eq!(m.list[0].tag, 1);
    assert_eq!(m.list[1].tag, 2);
}

/// The defining requirement: an overlay added over a base monitor and raised
/// must render *above* it, and a tag locked onto the overlay must display
/// there. This mirrors the autostart's float1/float2 setup.
#[test]
fn overlapping_overlay_renders_on_top() {
    let mut m = Monitors::new();
    // base monitor over a 4K panel
    m.set_monitors(&[Rect::new(1440, 0, 3840, 2160)]);
    // float1 overlay on the SAME rect
    let float1 = m.add_monitor(Rect::new(1440, 0, 3840, 2160), 8, Some("float1".into()));
    m.raise_monitor(&MonitorSel::Name("float1".into()));
    m.lock_tag(8, &MonitorSel::Name("float1".into()));

    // render order: base (index 0, z=0) first, overlay last (on top)
    let order = m.render_order();
    assert_eq!(order, vec![0, 1]);
    let top_idx = *order.last().unwrap();
    assert_eq!(m.list[top_idx].id, float1);
    assert_eq!(m.list[top_idx].tag, 8); // lock displayed tag 8 there
    assert!(m.list[top_idx].z > m.list[0].z);
}

#[test]
fn lock_prevents_showing_other_tag_on_focused() {
    let mut m = Monitors::new();
    m.set_monitors(&[Rect::new(0, 0, 100, 100)]);
    m.add_monitor(Rect::new(0, 0, 100, 100), 9, Some("float2".into()));
    m.focus_monitor(&MonitorSel::Name("float2".into()));
    m.lock_tag(9, &MonitorSel::Name("float2".into()));
    // Attempting to show a different tag on the locked monitor is a no-op.
    m.show_on_focused(3);
    assert_eq!(m.focused().unwrap().tag, 9);
    // Showing the locked tag itself is fine.
    m.show_on_focused(9);
    assert_eq!(m.focused().unwrap().tag, 9);
}

#[test]
fn cycle_monitor_wraps() {
    let mut m = Monitors::new();
    m.set_monitors(&[
        Rect::new(0, 0, 1, 1),
        Rect::new(1, 0, 1, 1),
        Rect::new(2, 0, 1, 1),
    ]);
    assert_eq!(m.focus, 0);
    m.cycle_monitor(1);
    assert_eq!(m.focus, 1);
    m.cycle_monitor(-2);
    assert_eq!(m.focus, 2); // (1 - 2) mod 3 = 2
}

#[test]
fn visible_tags_dedup() {
    let mut m = Monitors::new();
    m.set_monitors(&[Rect::new(0, 0, 1, 1), Rect::new(1, 0, 1, 1)]);
    m.list[1].tag = 1; // both show tag 1
    assert_eq!(m.visible_tags(), vec![1]);
    assert!(m.tag_visible(1));
    assert!(!m.tag_visible(5));
}

#[test]
fn remove_monitor_keeps_focus_in_range() {
    let mut m = Monitors::new();
    m.set_monitors(&[Rect::new(0, 0, 1, 1), Rect::new(1, 0, 1, 1), Rect::new(2, 0, 1, 1)]);
    m.focus = 2;
    assert!(m.remove_monitor(&MonitorSel::Index(2)));
    assert_eq!(m.list.len(), 2);
    assert_eq!(m.focus, 1); // clamped back into range
    assert!(m.rename_monitor(&MonitorSel::Index(0), Some("primary".into())));
    assert_eq!(m.tag_of(&MonitorSel::Name("primary".into())), Some(1));
    assert!(!m.remove_monitor(&MonitorSel::Index(9)));
}

#[test]
fn the_focused_monitor_can_be_changed() {
    let mut m = Monitors::new();
    assert!(m.focused_mut().is_none());
    m.set_monitors(&[Rect::new(0, 0, 100, 100), Rect::new(100, 0, 100, 100)]);
    m.focus_monitor(&MonitorSel::Index(1));
    m.focused_mut().unwrap().name = Some("right".to_string());
    assert_eq!(m.list[0].name, None);
    assert_eq!(m.list[1].name, Some("right".to_string()));
}
