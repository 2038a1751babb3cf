use sfwm::bar_paint::{side_of, Measure};
use sfwm::drawing::{icon_samples, image_fits, pixel_at, render_wallpaper_pixels};
use sfwm::images::{can_resize, Image};
use sfwm::ipc::{dispatch, Outcome};
use sfwm::layout::Layer;
use sfwm::manage::{tiled_edges, Focus, Order};
use sfwm::monitor::Rect;
use sfwm::notice_paint::text_width;
use sfwm::notices::{notify, NotifEvent};
use sfwm::paint::Paint;
use sfwm::pixels::{blank, fill_rect, premultiply, swap_red_blue, unpremultiply};
use sfwm::state::{Effect, Globals, State};
use sfwm::surfaces::Surface;
use sfwm::theme::{expand_color, parse_color};
use sfwm::tray::{TrayCmd, TrayItem};
use sfwm::wallpaper::{WallMode, WallpaperContent};

fn state() -> State {
    let mut st = State::new(Globals {
        wm: true,
        compositor: true,
        shm: true,
        xkb_bindings: true,
        tray: true,
        dimming: true,
        seats: 1,
    });
    st.output_added(1);
    st.output_sized(1, 1000, 800);
    st
}

fn run(state: &mut State, args: &[&str]) -> String {
    match dispatch(state, args.iter().map(|s| s.to_string()).collect()) {
        Outcome::Reply(s) => s,
        Outcome::Ask(_) => panic!("asked"),
    }
}

#[test]
fn windows_are_laid_out_and_shown() {
    let mut st = state();
    st.window_added();
    st.window_added();
    run(&mut st, &["set", "border_width", "2"]);
    let items = st.compute_layout();
    assert_eq!(items.len(), 2);
    assert!(items.iter().all(|i| i.layer == Layer::Tiled));
    assert_eq!((items[0].rect.h, items[1].rect.h), (400, 400));
    let orders = st.do_manage();
    assert!(orders.iter().any(|o| matches!(o, Order::SetFocus(Focus::Window(2)))));
    assert!(orders.iter().any(|o| matches!(o, Order::Propose { win: 1, .. })));
    let scene = st.do_render();
    assert_eq!(scene.shown.len(), 2);
    assert_eq!(scene.focused, Some(2));
    let border = scene.shown[0].border.as_ref().unwrap();
    assert_eq!(border.width, 2);
}

#[test]
fn the_top_window_of_a_max_frame_alone_is_shown() {
    let mut st = state();
    st.window_added();
    st.window_added();
    run(&mut st, &["set_layout", "max"]);
    let _ = st.do_manage();
    let scene = st.do_render();
    assert_eq!(scene.shown.len(), 1);
    assert_eq!(scene.hidden, vec![1]);
}

#[test]
fn unfocused_windows_are_dimmed() {
    let mut st = state();
    st.window_added();
    st.window_added();
    run(&mut st, &["set", "inactive_dim", "0.5"]);
    let _ = st.do_manage();
    let scene = st.do_render();
    let dims = st.apply_dim(&scene.items, scene.focused, true);
    assert_eq!(dims.len(), 1);
    assert!(st.apply_dim(&scene.items, scene.focused, false).is_empty());
}

#[test]
fn edges_next_to_other_windows_are_told() {
    let e = tiled_edges(Rect::new(0, 0, 500, 800), Rect::new(0, 0, 1000, 800));
    assert!(e.right && !e.left && !e.top && !e.bottom);
}

#[test]
fn windows_are_dragged() {
    let mut st = state();
    st.window_added();
    run(&mut st, &["mousebind", "Mod4+Button1", "move"]);
    run(&mut st, &["set_attr", "clients.1.floating_geometry", "300x200+10+20"]);
    let _ = st.do_manage();
    let _ = st.do_render();
    st.pointer_enter(Some(1));
    let id = st.mousebinds[0].id;
    st.button_pressed(id);
    let orders = st.do_manage();
    assert!(orders.iter().any(|o| matches!(o, Order::StartOp(0))));
    st.op_delta(5, -7);
    assert_eq!(run(&mut st, &["get_attr", "clients.1.floating_geometry"]), "300x200+15+13\n");
    st.op_delta(50, 0);
    assert_eq!(run(&mut st, &["get_attr", "clients.1.floating_geometry"]), "300x200+60+20\n");
    st.button_released(id);
    let orders = st.do_manage();
    assert!(orders.iter().any(|o| matches!(o, Order::EndOp(0))));
    st.op_delta(1, 1);
    assert_eq!(run(&mut st, &["get_attr", "clients.1.floating_geometry"]), "300x200+60+20\n");
}

#[test]
fn the_bar_shows_its_modules_and_takes_clicks() {
    let mut st = state();
    assert!(run(&mut st, &["bar", "add", "spacer"]).starts_with("error:"));
    assert_eq!(run(&mut st, &["bar", "create", "top", "height=20"]), "ok\n");
    assert_eq!(run(&mut st, &["bar", "add", "executor", "date", "lclick=cal"]), "ok\n");
    assert_eq!(run(&mut st, &["bar", "add", "spacer"]), "ok\n");
    assert_eq!(run(&mut st, &["bar", "add", "tray", "size=10"]), "ok\n");
    st.tray_items.push(TrayItem {
        key: "k".to_string(),
        title: "\u{df}net".to_string(),
        status: "Active".to_string(),
        icon: None,
        is_menu: false,
        menu: None,
    });
    let start = st.effects.iter().find_map(|e| match e {
        Effect::StartModule { id, command, .. } => Some((*id, command.clone())),
        _ => None,
    });
    let (id, command) = start.unwrap();
    assert_eq!(command, "date");
    st.set_bar_module_text(id, "12:00".to_string());
    let m = |w: i32| Measure { width: w, size: 10 };
    let letters = vec![vec![m(6)], vec![m(6)], vec![m(6)]];
    let frame = st.render_bar(&vec![m(40), m(0), m(0)], &letters).unwrap();
    assert_eq!((frame.rect.w, frame.rect.h), (1000, 20));
    assert!(frame.paints.iter().any(|p| matches!(p, Paint::Text { text, .. } if text == "12:00")));
    assert!(frame.paints.iter().any(|p| matches!(p, Paint::Text { text, .. } if text == "SS")));
    assert_eq!(st.bar.as_ref().unwrap().hit.len(), 2);
    let (x0, tray) = {
        let hit = &st.bar.as_ref().unwrap().hit;
        (hit[0].x0, hit[1].x0)
    };
    st.effects.clear();
    st.surface_enter(Surface::Bar, x0 + 1, 5);
    st.surface_button(0x110);
    assert!(st.effects.iter().any(|e| matches!(e, Effect::RunShell(c) if c == "cal")));
    st.surface_motion(tray + 1, 5);
    st.surface_button(0x112);
    assert!(st
        .effects
        .iter()
        .any(|e| matches!(e, Effect::TellTray(TrayCmd::SecondaryActivate { .. }))));
    st.surface_axis(false, 10);
    assert!(st.effects.iter().any(|e| matches!(e, Effect::TellTray(TrayCmd::Scroll { .. }))));
}

#[test]
fn at_most_five_notices_are_held() {
    let mut st = state();
    let mut next = 1u32;
    for i in 0..7 {
        let ev = notify(&mut next, 0, format!("n{i}"), String::new(), None, -1);
        st.handle_notif_event(ev);
    }
    assert_eq!(st.notifications.len(), 5);
    assert_eq!(st.notifications[0].summary, "n2");
    assert_eq!(st.notifications[0].id, 3);
    assert_eq!(st.notifications[0].urgency, 1);
    let ev = notify(&mut next, 4, "again".to_string(), String::new(), Some(2), 0);
    match &ev {
        NotifEvent::Show { id, .. } => assert_eq!(*id, 4),
        _ => panic!("not shown"),
    }
    st.handle_notif_event(ev);
    assert_eq!(st.notifications.len(), 5);
    assert_eq!(st.notifications[4].summary, "again");
    st.handle_notif_event(NotifEvent::Close(4));
    assert_eq!(st.notifications.len(), 4);
    for i in 0..4 {
        st.notice_drawn(i, 50);
    }
    let spots = st.place_notices();
    assert_eq!(spots.len(), 4);
    assert_eq!((spots[0].x, spots[0].y), (1000 - st.settings.notif_theme.width - 12, 12));
    assert_eq!(spots[1].y, 70);
}

#[test]
fn notices_are_painted_once() {
    let mut st = state();
    let mut next = 1u32;
    let bare = notify(&mut next, 0, "bare".to_string(), String::new(), None, -1);
    let full = notify(&mut next, 0, "full".to_string(), "text".to_string(), Some(2), -1);
    st.handle_notif_event(bare);
    st.handle_notif_event(full);
    let frames = st.render_notifications(&vec![0, 18]);
    assert_eq!(frames.len(), 2);
    assert_eq!((frames[0].0, frames[0].1.h, frames[0].1.paints.len()), (0, 45, 3));
    assert_eq!((frames[1].0, frames[1].1.h, frames[1].1.paints.len()), (1, 69, 4));
    let theme = st.settings.notif_theme;
    assert!(matches!(&frames[1].1.paints[1], Paint::Fill { color, .. } if *color == theme.accent_critical));
    st.notice_drawn(0, 45);
    let frames = st.render_notifications(&vec![0, 18]);
    assert_eq!(frames.len(), 1);
    assert_eq!(frames[0].0, 1);
    st.monitors.set_monitors(&[]);
    assert!(st.render_notifications(&vec![0, 18]).is_empty());
}

#[test]
fn the_launcher_is_drawn_over_the_screen() {
    let mut st = state();
    st.open_launcher_menu((0..40).map(|i| format!("row {i}")).collect());
    let f = st.render_launcher(600).unwrap();
    assert_eq!((f.rect.w, f.rect.h), (1000, 800));
    assert!(f.paints.iter().any(|p| matches!(p, Paint::Text { text, .. } if text == "row 0")));
}

#[test]
fn rectangles_are_filled_within_the_picture() {
    let mut b = blank(3, 2);
    fill_rect(&mut b, 3, 2, -1, 1, 3, 9, (1, 2, 3, 4));
    assert_eq!(&b[0..12], &[0u8; 12][..]);
    assert_eq!(&b[12..24], &[3, 2, 1, 4, 3, 2, 1, 4, 0, 0, 0, 0][..]);
    let again = b.clone();
    fill_rect(&mut b, 3, 2, -1, 1, 3, 9, (1, 2, 3, 4));
    assert_eq!(b, again);
}

#[test]
fn opacity_goes_in_and_out() {
    let mut p = vec![200u8, 100, 50, 128, 9, 9, 9, 0];
    premultiply(&mut p);
    assert_eq!(p, vec![100, 50, 25, 128, 0, 0, 0, 0]);
    let mut u = vec![25u8, 50, 100, 128, 7, 8, 9, 0];
    unpremultiply(&mut u);
    assert_eq!(u, vec![199, 100, 50, 128, 7, 8, 9, 0]);
    let mut w = vec![1u8, 2, 3, 4];
    swap_red_blue(&mut w);
    assert_eq!(w, vec![3, 2, 1, 4]);
    swap_red_blue(&mut w);
    assert_eq!(w, vec![1, 2, 3, 4]);
    let mut o = vec![5u8, 6, 7, 255];
    premultiply(&mut o);
    assert_eq!(o, vec![5, 6, 7, 255]);
}

fn image(w: u32, h: u32, px: &[[u8; 4]]) -> Image {
    Image { width: w, height: h, rgba: px.iter().flatten().copied().collect() }
}

#[test]
fn wallpapers_are_painted() {
    let c = render_wallpaper_pixels(&WallpaperContent::Color((1, 2, 3, 4)), 2, 1, None, 1, 1);
    assert_eq!(c, vec![3, 2, 1, 4, 3, 2, 1, 4]);
    let file = |mode| WallpaperContent::Image { path: "/x".to_string(), mode };
    let none = render_wallpaper_pixels(&file(WallMode::Fill), 1, 1, None, 1, 1);
    assert_eq!(none, vec![0, 0, 0, 255]);
    let two = || Some(image(2, 1, &[[10, 20, 30, 0], [40, 50, 60, 255]]));
    let tiled = render_wallpaper_pixels(&file(WallMode::Tile), 3, 1, two(), 1, 1);
    assert_eq!(tiled, vec![30, 20, 10, 255, 60, 50, 40, 255, 30, 20, 10, 255]);
    let middle = render_wallpaper_pixels(&file(WallMode::Center), 4, 1, two(), 1, 1);
    assert_eq!(&middle[0..4], &[0, 0, 0, 255][..]);
    assert_eq!(&middle[4..8], &[30, 20, 10, 255][..]);
}

#[test]
fn images_are_resized() {
    let plain = Some(image(1, 1, &[[10, 20, 30, 255]]));
    let file = WallpaperContent::Image { path: "/x".to_string(), mode: WallMode::Stretch };
    let r = render_wallpaper_pixels(&file, 2, 2, plain, 1, 1);
    assert_eq!(r.len(), 16);
    assert_eq!(&r[12..16], &[30, 20, 10, 255][..]);
    let wide = Some(image(2, 1, &[[0, 0, 0, 255], [200, 200, 200, 255]]));
    let fit = WallpaperContent::Image { path: "/x".to_string(), mode: WallMode::Fit };
    let r = render_wallpaper_pixels(&fit, 1, 1, wide, 1, 1);
    assert_eq!(r, vec![100, 100, 100, 255]);
}

#[test]
fn icons_are_sampled() {
    assert_eq!(pixel_at(3, 2, 24, 2, 1), Some(20));
    assert_eq!(pixel_at(3, 2, 24, 3, 1), None);
    assert_eq!(pixel_at(3, 2, 24, 0, -1), None);
    assert_eq!(icon_samples(2, 2, 16, 1, 0, 2, 1, 1, 4), vec![(4, 0), (12, 0)]);
    assert_eq!(icon_samples(2, 2, 16, 0, 0, 1, 2, 2, 16), vec![(0, 0)]);
    assert_eq!(
        icon_samples(2, 2, 16, 0, 0, 2, 2, 2, 15),
        vec![(0, 0), (4, 4), (8, 8)]
    );
    assert!(icon_samples(2, 2, 16, 0, 0, 0, 2, 2, 16).is_empty());
}

#[test]
fn colours_are_read_and_widened() {
    assert_eq!(parse_color("#010203"), Some((1, 2, 3, 255)));
    assert_eq!(parse_color("ff00ff80"), Some((255, 0, 255, 128)));
    assert_eq!(parse_color("#12345"), None);
    assert_eq!(expand_color((255, 1, 0, 128)), (0xffff_ffff, 0x0101_0101, 0, 0x8080_8080));
}

#[test]
fn wallpapers_are_repainted_only_when_changed() {
    let mut st = state();
    assert_eq!(run(&mut st, &["wallpaper", "color", "#112233"]), "ok\n");
    let places = st.render_wallpaper();
    assert_eq!(places.len(), 1);
    assert!(places[0].paint);
    st.wallpaper_painted(&places[0]);
    assert!(!st.render_wallpaper()[0].paint);
    assert_eq!(run(&mut st, &["wallpaper", "color", "#445566"]), "ok\n");
    assert!(st.render_wallpaper()[0].paint);
    assert_eq!(run(&mut st, &["wallpaper", "off"]), "ok\n");
    assert!(st.render_wallpaper().is_empty());
}

#[test]
fn each_tray_module_has_letters_of_its_own_size() {
    let mut st = state();
    run(&mut st, &["bar", "create", "top", "height=40"]);
    run(&mut st, &["bar", "add", "tray", "size=10", "spacing=0"]);
    run(&mut st, &["bar", "add", "tray", "size=30", "spacing=0"]);
    st.tray_items.push(TrayItem {
        key: "k".to_string(),
        title: "net".to_string(),
        status: "Active".to_string(),
        icon: None,
        is_menu: false,
        menu: None,
    });
    let small = Measure { width: 4, size: 8 };
    let large = Measure { width: 12, size: 18 };
    let none = Measure { width: 0, size: 0 };
    let frame = st.render_bar(&vec![none, none], &vec![vec![small], vec![large]]).unwrap();
    let at: Vec<(i32, i32)> = frame
        .paints
        .iter()
        .filter_map(|p| match p {
            Paint::Text { x, y, .. } => Some((*x, *y)),
            _ => None,
        })
        .collect();
    assert_eq!(at, vec![(3, 16), (19, 11)]);
    assert_eq!(side_of(0, 40), 32);
    assert_eq!(side_of(0, 1), 8);
}

#[test]
fn images_fit_where_they_can_be_resized() {
    assert!(can_resize(1, 1, 1920, 1080));
    assert!(!can_resize(0, 1, 5, 5));
    assert!(!can_resize(1, 1, 0x10_0001, 5));
    let one = image(1, 1, &[[1, 2, 3, 4]]);
    assert!(image_fits(&one, WallMode::Stretch, 5, 5, 0, 0));
    assert!(!image_fits(&one, WallMode::Stretch, -5, 5, 1, 1));
    assert!(!image_fits(&one, WallMode::Fit, 5, 5, 0, 1));
    assert!(image_fits(&one, WallMode::Tile, 5, 5, 0, 0));
    assert!(image_fits(&image(0, 3, &[]), WallMode::Fill, 5, 5, 0, 0));
    assert!(!image_fits(&image(2, 1, &[[1, 2, 3, 4]]), WallMode::Tile, 5, 5, 0, 0));
}

#[test]
fn the_text_of_a_notice_has_a_width() {
    let st = state();
    let mut theme = st.settings.notif_theme;
    theme.width = 400;
    assert_eq!(text_width(&theme), 372);
    theme.width = 5;
    assert_eq!(text_width(&theme), 92);
}
