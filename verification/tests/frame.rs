use sfwm::double::Double;
use sfwm::frame::{Dir, Frame, LayoutMode, SplitDir, WinId};
use sfwm::monitor::Rect;
use sfwm::ratio::Ratio;

fn share(s: &str) -> Ratio {
    Double::parse(s).unwrap().clamp()
}

fn step(s: &str) -> Double {
    Double::parse(s).unwrap()
}


fn area() -> Rect {
    Rect::new(0, 0, 1000, 800)
}

#[test]
fn insert_and_focus() {
    let mut f = Frame::new();
    f.insert_window(1);
    f.insert_window(2);
    assert_eq!(f.focused_window(), Some(2));
    f.cycle(-1);
    assert_eq!(f.focused_window(), Some(1));
}

#[test]
fn split_right_creates_empty_sibling_keeping_focus() {
    let mut f = Frame::new();
    f.insert_window(1);
    f.split(SplitDir::Right, share("0.5"));
    // Focus stays on the original (window 1); new frame is empty.
    assert_eq!(f.focused_window(), Some(1));
    let leaves = f.leaf_rects(area(), 0);
    assert_eq!(leaves.len(), 2);
    // Left half holds the window, right half is empty.
    let placements = f.placements(area(), 0);
    assert_eq!(placements.len(), 1);
    assert_eq!(placements[0].win, 1);
    assert_eq!(placements[0].rect, Rect::new(0, 0, 500, 800));
}

#[test]
fn focus_right_moves_into_empty_frame_then_new_window_lands_there() {
    let mut f = Frame::new();
    f.insert_window(1);
    f.split(SplitDir::Right, share("0.5"));
    assert!(f.focus_dir(Dir::Right, area(), 0));
    // The empty right frame is now focused; a new window goes there.
    f.insert_window(2);
    let p = f.placements(area(), 0);
    let w2 = p.iter().find(|p| p.win == 2).unwrap();
    assert_eq!(w2.rect, Rect::new(500, 0, 500, 800));
    // focus_left goes back to window 1.
    assert!(f.focus_dir(Dir::Left, area(), 0));
    assert_eq!(f.focused_window(), Some(1));
}

#[test]
fn vertical_split_geometry() {
    let mut f = Frame::new();
    f.insert_window(1);
    f.split(SplitDir::Down, share("0.5")); // original on top, empty below
    f.focus_dir(Dir::Down, area(), 0);
    f.insert_window(2);
    let p = f.placements(area(), 0);
    let w1 = p.iter().find(|p| p.win == 1).unwrap();
    let w2 = p.iter().find(|p| p.win == 2).unwrap();
    assert_eq!(w1.rect, Rect::new(0, 0, 1000, 400));
    assert_eq!(w2.rect, Rect::new(0, 400, 1000, 400));
}

#[test]
fn leaf_layouts() {
    let mut f = Frame::new();
    f.insert_window(1);
    f.insert_window(2);
    // Two windows, vertical (default): stacked halves.
    let p = f.placements(area(), 0);
    assert_eq!(p.len(), 2);
    assert_eq!(p[0].rect, Rect::new(0, 0, 1000, 400));
    assert_eq!(p[1].rect, Rect::new(0, 400, 1000, 400));
    assert!(p[0].visible && p[1].visible);

    // Max: both full-area, only selected visible.
    f.set_layout(LayoutMode::Max);
    let p = f.placements(area(), 0);
    assert!(p.iter().all(|p| p.rect == area()));
    assert_eq!(p.iter().filter(|p| p.visible).count(), 1);
}

#[test]
fn shift_moves_window_between_frames() {
    let mut f = Frame::new();
    f.insert_window(1);
    f.split(SplitDir::Right, share("0.5"));
    // window 1 on the left, focused. Shift it right into the empty frame.
    assert!(f.shift_dir(Dir::Right, area(), 0));
    let p = f.placements(area(), 0);
    assert_eq!(p.len(), 1);
    assert_eq!(p[0].win, 1);
    assert_eq!(p[0].rect, Rect::new(500, 0, 500, 800));
    assert_eq!(f.focused_window(), Some(1));
}

#[test]
fn remove_frame_merges_into_sibling() {
    let mut f = Frame::new();
    f.insert_window(1);
    f.split(SplitDir::Right, share("0.5"));
    f.focus_dir(Dir::Right, area(), 0);
    f.insert_window(2); // window 2 in the right frame, focused
    f.remove_frame(); // remove right frame, merge into left
    let p = f.placements(area(), 0);
    // Single frame again, full area, holding both windows (vertical layout).
    assert_eq!(p.len(), 2);
    assert!(p.iter().any(|p| p.win == 1));
    assert!(p.iter().any(|p| p.win == 2));
    // back to a single leaf spanning the whole area
    assert_eq!(f.leaf_rects(area(), 0).len(), 1);
}

#[test]
fn resize_adjusts_ratio() {
    let mut f = Frame::new();
    f.insert_window(1);
    f.split(SplitDir::Right, share("0.5")); // focus on left child (index 0)
    f.resize(Dir::Right, step("0.1")); // grow focused (left) frame
    let p = f.placements(area(), 0);
    let w1 = p.iter().find(|p| p.win == 1).unwrap();
    assert_eq!(w1.rect.w, 600);
}

#[test]
fn explode_distributes_windows() {
    let mut f = Frame::new();
    f.insert_window(1);
    f.insert_window(2);
    f.insert_window(3); // 3 windows in one leaf; selected = 3
    f.split(SplitDir::Explode, share("0.5"));
    // selected (3) kept in original; 1 and 2 moved to the sibling.
    let leaves = f.leaf_rects(area(), 0);
    assert_eq!(leaves.len(), 2);
    assert_eq!(f.focused_window(), Some(3));
    assert_eq!(f.all_windows().len(), 3);
}

#[test]
fn serialize_round_trips() {
    let mut f = Frame::new();
    f.insert_window(1);
    f.insert_window(2);
    f.split(SplitDir::Right, share("0.5"));
    f.focus_dir(Dir::Right, area(), 0);
    f.insert_window(3);
    f.set_layout(LayoutMode::Max);

    let dumped = f.serialize();
    let back = Frame::deserialize(&dumped).expect("parse");
    // Same structure & windows survive a round trip.
    assert_eq!(back.serialize(), dumped);
    assert_eq!(back.all_windows().len(), 3);
    assert!(dumped.starts_with("(split horizontal:"));
    assert!(dumped.contains("(clients max:"));

    // Malformed input is rejected, not panicked.
    assert!(Frame::deserialize("(split horizontal:0.5:0 (clients max:0 1))").is_none());
    assert!(Frame::deserialize("garbage").is_none());
}

#[test]
fn retain_drops_absent_windows() {
    let mut f = Frame::deserialize("(clients vertical:1 5 6 7)").unwrap();
    let keep: std::collections::HashSet<WinId> = [6u64].into_iter().collect();
    f.retain_windows(&keep);
    assert_eq!(f.all_windows(), vec![6]);
    assert_eq!(f.focused_window(), Some(6));
}

#[test]
fn remove_window_fixes_selection() {
    let mut f = Frame::new();
    f.insert_window(1);
    f.insert_window(2);
    f.insert_window(3); // selected index 2 (window 3)
    assert!(f.remove_window(3));
    assert_eq!(f.focused_window(), Some(2));
    assert!(!f.remove_window(99));
}

#[test]
fn a_head_with_a_field_too_many_is_no_split() {
    let good = "(split horizontal:0.5:0 (clients max:0 1) (clients max:0 2))";
    assert!(Frame::deserialize(good).is_some());
    let long = "(split horizontal:0.5:0:9 (clients max:0 1) (clients max:0 2))";
    assert!(Frame::deserialize(long).is_none());
    let short = "(split horizontal:0.5 (clients max:0 1) (clients max:0 2))";
    assert!(Frame::deserialize(short).is_none());
}

#[test]
fn every_share_is_in_range() {
    for text in ["nan", "-nan", "inf", "-inf", "0", "7", "0.5"] {
        let layout = format!("(split vertical:{text}:0 (clients max:0 1) (clients max:0 2))");
        let f = Frame::deserialize(&layout).unwrap();
        let placed = f.placements(area(), 0);
        let (a, b) = (placed[0].rect.h, placed[1].rect.h);
        assert!(40 <= a && a <= 760 && a + b == 800, "{text}: {a}");
    }
    assert_eq!(share("nan"), share("0.5"));
    assert_eq!(share("0.3").nudge(step("nan"), true), share("0.3"));
}

#[test]
fn shares_lose_no_more_than_four_decimals_do() {
    let mut f = Frame::new();
    f.split(SplitDir::Left, share("0.12345678"));
    let text = f.serialize();
    assert!(text.contains(":0.1235:"));
    assert_eq!(Frame::deserialize(&text).unwrap().serialize(), text);
    let lost = share("0.12345678").units.abs_diff(share("0.1235").units) as u128;
    assert!(lost * 20000 <= sfwm::ratio::ONE as u128);
    let between = share("0.05035");
    let lost = between.units.abs_diff(share("0.0503").units) as u128 * 20000;
    assert!(lost > sfwm::ratio::ONE as u128 && lost <= sfwm::ratio::ONE as u128 + 160000);
    f = Frame::new();
    f.split(SplitDir::Left, between);
    assert!(f.serialize().contains(":0.0503:"));
}

#[test]
fn windows_are_placed_apart_and_inside() {
    let layout = "(split horizontal:0.37:0 (clients grid:0 1 2 3 4 5) (split vertical:0.8:0 (clients vertical:0 6 7 8) (clients horizontal:1 9 10)))";
    let f = Frame::deserialize(layout).unwrap();
    for gap in [0, 7, 90, 2000] {
        let placed = f.placements(Rect::new(-50, 20, 1000, 800), gap);
        assert_eq!(placed.len(), 10);
        for (i, p) in placed.iter().enumerate() {
            let a = p.rect;
            if a.w <= 0 || a.h <= 0 {
                continue;
            }
            assert!(-50 <= a.x && a.x + a.w <= 950 && 20 <= a.y && a.y + a.h <= 820);
            for q in &placed[i + 1..] {
                let b = q.rect;
                let across = a.x < b.x + b.w && b.x < a.x + a.w;
                let down = a.y < b.y + b.h && b.y < a.y + a.h;
                assert!(b.w <= 0 || b.h <= 0 || !(across && down), "{} {} {gap}", p.win, q.win);
            }
        }
    }
}
