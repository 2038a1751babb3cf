use sfwm::menu::{MenuNode, TrayMenu};
use sfwm::monitor::Rect;
use sfwm::state::{Effect, Globals, State};
use sfwm::surfaces::{Surface, TrayEvent};
use sfwm::tray::{TrayCmd, TrayIcon, TrayItem};
use sfwm::tray_menu::{parse_menu_value, parse_menu_values, strip_mnemonics, MenuValue};
use sfwm::tray_watch::{
    command_key, key_of, locate_item, menu_path, needs_owner, scroll_orientation, status_or_default,
    Registry,
};

fn s(t: &str) -> String {
    t.to_string()
}

fn text(t: &str) -> MenuValue {
    MenuValue::Str(s(t))
}

fn wrapped(v: MenuValue) -> MenuValue {
    MenuValue::Variant(Box::new(v))
}

fn state() -> State {
    let mut st = State::new(Globals {
        wm: true,
        compositor: true,
        shm: true,
        xkb_bindings: true,
        tray: true,
        dimming: true,
        seats: 1,
    });
    st.output_added(1);
    st.output_sized(1, 1000, 800);
    st
}

#[test]
fn mnemonics_are_stripped() {
    assert_eq!(strip_mnemonics("_File"), "File");
    assert_eq!(strip_mnemonics("a__b_c_"), "a_bc");
    assert_eq!(strip_mnemonics("___x"), "_x");
    assert_eq!(strip_mnemonics("plain"), "plain");
}

#[test]
fn menu_entries_are_read() {
    let props = MenuValue::Dict(vec![
        (text("label"), wrapped(text("_Open"))),
        (text("enabled"), wrapped(MenuValue::Bool(false))),
        (text("toggle-type"), wrapped(text("radio"))),
        (text("toggle-state"), wrapped(MenuValue::U8(1))),
        (text("children-display"), text("submenu")),
        (text("icon-name"), text("")),
        (MenuValue::I32(1), text("ignored")),
    ]);
    let child = wrapped(MenuValue::Structure(vec![
        MenuValue::U32(u32::MAX),
        MenuValue::Dict(vec![(text("type"), text("separator"))]),
        MenuValue::Array(vec![]),
    ]));
    let item = parse_menu_value(&MenuValue::Structure(vec![
        MenuValue::I16(7),
        props,
        MenuValue::Array(vec![child, MenuValue::Other, wrapped(wrapped(MenuValue::Other))]),
    ]))
    .unwrap();
    assert_eq!((item.id, item.label.as_str()), (7, "Open"));
    assert!(!item.enabled && item.visible && item.has_submenu && !item.is_separator);
    assert_eq!((item.toggle_type, item.toggle_state), (2, 1));
    assert_eq!(item.icon_name, None);
    assert_eq!(item.children.len(), 1);
    assert_eq!(item.children[0].id, -1);
    assert!(item.children[0].is_separator);
    assert_eq!(item.children[0].toggle_state, -1);
}

#[test]
fn values_that_are_no_entries_are_left_out() {
    assert!(parse_menu_value(&text("x")).is_none());
    assert!(parse_menu_value(&MenuValue::Structure(vec![MenuValue::I32(1)])).is_none());
    assert!(parse_menu_values(&vec![MenuValue::Other]).is_empty());
}

#[test]
fn items_register_by_name_or_by_path() {
    assert_eq!(
        locate_item("/org/item", Some(s(":1.5"))),
        Some((s(":1.5"), s("/org/item")))
    );
    assert_eq!(locate_item("/org/item", None), None);
    assert_eq!(locate_item("org.x", None), Some((s("org.x"), s("/StatusNotifierItem"))));
    assert!(needs_owner("org.x"));
    assert!(!needs_owner(":1.5"));
    assert_eq!(key_of(s("org.x"), Some(s(":1.9"))), ":1.9");
    assert_eq!(key_of(s("org.x"), None), "org.x");
    assert_eq!(key_of(s(":1.5"), Some(s(":1.9"))), ":1.5");
}

#[test]
fn registered_items_are_found_until_gone() {
    let mut r = Registry::new();
    assert!(r.register(":1.5", "/a", "svc"));
    assert!(!r.register(":1.5", "/b", "svc2"));
    assert!(r.register(":1.6", "/c", "svc"));
    assert_eq!(r.services, vec![s("svc")]);
    assert_eq!(r.lookup(":1.5"), Some((s(":1.5"), s("/b"))));
    assert_eq!(r.lookup(":1.7"), None);
    r.unregister(":1.5", "svc");
    assert_eq!(r.lookup(":1.5"), None);
    assert!(r.services.is_empty());
    r.forget(":1.6");
    assert!(r.items.is_empty());
}

#[test]
fn errands_name_their_item() {
    assert_eq!(command_key(&TrayCmd::MenuClicked { key: s("k"), id: 1 }), "k");
    assert_eq!(command_key(&TrayCmd::Activate { key: s("a"), x: 1, y: 2 }), "a");
    assert_eq!(scroll_orientation(true), "horizontal");
    assert_eq!(scroll_orientation(false), "vertical");
    assert_eq!(menu_path(Some(s("/"))), None);
    assert_eq!(menu_path(Some(s("/Menu"))), Some(s("/Menu")));
    assert_eq!(status_or_default(None), "Active");
    assert_eq!(status_or_default(Some(s("Passive"))), "Passive");
}

fn item(key: &str, is_menu: bool) -> TrayItem {
    TrayItem { key: s(key), title: s("Title"), status: s("Active"), icon: None, is_menu, menu: None }
}

fn node(id: i32, label: &str, children: Vec<MenuNode>) -> MenuNode {
    MenuNode {
        id,
        label: s(label),
        enabled: true,
        visible: true,
        is_separator: false,
        has_submenu: !children.is_empty(),
        toggle_type: 0,
        toggle_state: -1,
        icon: None,
        children,
    }
}

#[test]
fn items_come_change_and_go() {
    let mut st = state();
    st.handle_tray_event(TrayEvent::Upsert(item("a", false)));
    st.handle_tray_event(TrayEvent::Upsert(item("b", true)));
    st.handle_tray_event(TrayEvent::Upsert(item("a", true)));
    assert_eq!(st.tray_items.len(), 2);
    assert!(st.tray_items[0].is_menu);
    st.handle_tray_event(TrayEvent::Remove(s("a")));
    assert_eq!(st.tray_items.len(), 1);
    assert_eq!(st.tray_items[0].key, "b");
}

#[test]
fn clicking_a_menu_entry_tells_the_item() {
    let mut st = state();
    st.handle_tray_event(TrayEvent::Upsert(item("a", false)));
    st.handle_tray_event(TrayEvent::Menu {
        key: s("a"),
        x: 10,
        y: 10,
        items: vec![node(1, "One", vec![]), node(2, "More", vec![node(3, "Three", vec![])])],
    });
    assert!(st.tray_menu.is_some());
    let frame = st.render_menu(&vec![vec![40, 60]]).unwrap();
    assert!(frame.rect.w > 0);
    let row = {
        let m = st.tray_menu.as_ref().unwrap();
        (m.columns[0].x + 5, m.columns[0].rows[0].y0 + 1)
    };
    st.effects.clear();
    st.surface_enter(Surface::Menu, row.0, row.1);
    st.surface_button(0x110);
    assert!(st.effects.iter().any(|e| matches!(
        e,
        Effect::TellTray(TrayCmd::MenuClicked { id: 1, .. })
    )));
    assert!(st.tray_menu.is_none());
}

#[test]
fn pointing_at_a_submenu_opens_it() {
    let mut st = state();
    st.handle_tray_event(TrayEvent::Upsert(item("a", false)));
    st.open_tray_menu(
        s("a"),
        vec![node(1, "One", vec![]), node(2, "More", vec![node(3, "Three", vec![])])],
        (10, 10),
    );
    let _ = st.render_menu(&vec![vec![40, 60]]);
    let at = {
        let m = st.tray_menu.as_ref().unwrap();
        (m.columns[0].x + 5, m.columns[0].rows[1].y0 + 1)
    };
    st.menu_pointer_moved(at.0, at.1);
    assert_eq!(st.tray_menu.as_ref().unwrap().open_path, vec![1]);
    st.menu_key(true);
    assert!(st.tray_menu.is_none());
}

#[test]
fn rows_of_open_columns_have_their_icons() {
    let mut hidden = node(1, "hidden", vec![]);
    hidden.visible = false;
    let mut marked = node(4, "marked", vec![]);
    marked.icon = Some(TrayIcon { width: 1, height: 1, bgra: vec![1, 2, 3, 4] });
    let menu = TrayMenu {
        key: s("k"),
        root: vec![hidden, node(2, "more", vec![node(3, "plain", vec![]), marked])],
        anchor: (0, 0),
        mon: Rect::new(0, 0, 100, 100),
        open_path: vec![0],
        hover: None,
        columns: vec![],
    };
    assert!(menu.columns_nodes()[1][1].has_icon);
    assert_eq!(menu.icon_at(1, 1).map(|i| i.bgra.clone()), Some(vec![1, 2, 3, 4]));
    assert!(menu.icon_at(1, 0).is_none());
    assert!(menu.icon_at(0, 0).is_none());
    assert!(menu.icon_at(0, 1).is_none());
    assert!(menu.icon_at(2, 0).is_none());
}
