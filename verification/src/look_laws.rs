//! What pictures, wallpapers and icons come to: where the pixels of an image go, which
//! monitor gets which background, which icon is taken.

use vstd::prelude::*;
use crate::wire::text_of;
use crate::number::show;
use crate::thumbs::shown_small;
use crate::cmd_wallpaper::{mode_named, set_backdrops, wall_monitors, wall_words, wallpaper, without_backdrops, Wall};
use crate::config::{Kept, Prefs};
use crate::images::{blitted, tiled};
use crate::monitor::{find_screen, quotient, selector_text};
use crate::path::elided;
use crate::pixels::{column_at, filled, lemma_pixel, premultiplied, row_at};
use crate::programs::{
    app_dirs_of, app_places, choices, client_complaint, full_count, monitor_choices, restored, restoring,
    wallpaper_call,
};
use crate::render::{shown_of, walls_drawn};
use crate::layout::{Layer, RenderItem};
use crate::manage::{item_told, Order};
use crate::outputs::{in_rect, output_place, output_under};
use crate::state::{Output, World};
use crate::table::{keys_differ, law_drop_key, law_put, value_of};
use crate::text::{after, trimmed, Text};
use crate::theme::Color;
use crate::tray_icon::{best_pixmap, narrowest, turned, whole, widest_small, Pixmap};
use crate::wallpaper::{Backdrop, WallMode};

verus! {

// --- pixels -----------------------------------------------------------------------------

/// Where a byte of a pixel of a picture stands.
pub open spec fn byte_at(w: int, x: int, y: int, k: int) -> int {
    4 * (y * w + x) + k
}

proof fn lemma_byte_at(w: int, x: int, y: int, k: int)
    requires
        0 <= x < w,
        0 <= y,
        0 <= k < 4,
    ensures
        column_at(byte_at(w, x, y, k), w) == x,
        row_at(byte_at(w, x, y, k), w) == y,
        byte_at(w, x, y, k) % 4 == k,
        0 <= byte_at(w, x, y, k),
{
    let p = y * w + x;
    assert(0 <= p) by (nonlinear_arith)
        requires
            p == y * w + x,
            0 <= x < w,
            0 <= y,
    ;
    assert((4 * p + k) / 4 == p && (4 * p + k) % 4 == k);
    lemma_pixel(p, w, y, x);
}

/// A pixel of an image that is put into a picture is seen as far right and down of the
/// corner as it is in the image, its colours where the picture has them and nothing seen
/// through; beside the image the picture stays.
pub proof fn law_put_into(
    data: Seq<u8>,
    dw: int,
    rgba: Seq<u8>,
    iw: int,
    ih: int,
    ox: int,
    oy: int,
    x: int,
    y: int,
)
    requires
        0 <= x < dw,
        0 <= y,
        byte_at(dw, x, y, 3) < data.len(),
    ensures
        ({
            let r = blitted(data, dw, rgba, iw, ih, ox, oy);
            let here = |k: int| r[byte_at(dw, x, y, k)];
            let there = |k: int| rgba[byte_at(iw, x - ox, y - oy, k)];
            &&& r.len() == data.len()
            &&& 0 <= x - ox < iw && 0 <= y - oy < ih ==> here(2) == there(0) && here(1) == there(1) && here(0)
                == there(2) && here(3) == 255
            &&& !(0 <= x - ox < iw && 0 <= y - oy < ih) ==> forall|k: int|
                0 <= k < 4 ==> r[#[trigger] byte_at(dw, x, y, k)] == data[byte_at(dw, x, y, k)]
        }),
{
    lemma_byte_at(dw, x, y, 0);
    lemma_byte_at(dw, x, y, 1);
    lemma_byte_at(dw, x, y, 2);
    lemma_byte_at(dw, x, y, 3);
    let r = blitted(data, dw, rgba, iw, ih, ox, oy);
    assert forall|k: int| 0 <= k < 4 && !(0 <= x - ox < iw && 0 <= y - oy < ih) implies r[#[trigger] byte_at(dw, x, y, k)]
        == data[byte_at(dw, x, y, k)] by {
        lemma_byte_at(dw, x, y, k);
    }
}

/// An image that is repeated is the same one width to the right and one height down.
pub proof fn law_repeated(data: Seq<u8>, dw: int, rgba: Seq<u8>, iw: int, ih: int, x: int, y: int, k: int)
    requires
        0 < iw,
        0 < ih,
        0 <= x && x + iw < dw,
        0 <= y,
        0 <= k < 4,
        byte_at(dw, x + iw, y, k) < data.len(),
        byte_at(dw, x, y + ih, k) < data.len(),
        byte_at(dw, x, y, k) < data.len(),
    ensures
        ({
            let r = tiled(data, dw, rgba, iw, ih);
            &&& r[byte_at(dw, x + iw, y, k)] == r[byte_at(dw, x, y, k)]
            &&& r[byte_at(dw, x, y + ih, k)] == r[byte_at(dw, x, y, k)]
            &&& x < iw && y < ih && k < 3 ==> r[byte_at(dw, x, y, k)] == rgba[byte_at(iw, x, y, 2 - k)]
            &&& k == 3 ==> r[byte_at(dw, x, y, k)] == 255
        }),
{
    lemma_byte_at(dw, x, y, k);
    lemma_byte_at(dw, x + iw, y, k);
    lemma_byte_at(dw, x, y + ih, k);
    vstd::arithmetic::div_mod::lemma_mod_add_multiples_vanish(x, iw);
    vstd::arithmetic::div_mod::lemma_mod_add_multiples_vanish(y, ih);
    assert((x + iw) % iw == x % iw);
    assert((y + ih) % ih == y % ih);
    if x < iw && y < ih {
        vstd::arithmetic::div_mod::lemma_small_mod(x as nat, iw as nat);
        vstd::arithmetic::div_mod::lemma_small_mod(y as nat, ih as nat);
    }
}

/// An image in the middle has as much room at its left as at its right, and above as below;
/// where it is larger than the picture, as much of it is cut off.
pub proof fn law_middle(room: int, size: int)
    requires
        0 <= room,
        0 <= size,
    ensures
        ({
            let left = quotient(room - size, 2);
            let right = room - (left + size);
            -1 <= right - left <= 1
        }),
{
}

/// The bytes of a pixel that is filled are those of the colour: blue, green, red and
/// opacity; outside of the rectangle they stay.
pub proof fn law_filled(buf: Seq<u8>, bw: int, x: int, y: int, rw: int, rh: int, c: Color, px: int, py: int)
    requires
        0 <= px < bw,
        0 <= py,
        byte_at(bw, px, py, 3) < buf.len(),
    ensures
        ({
            let r = filled(buf, bw, x, y, rw, rh, c);
            let inside = x <= px < x + rw && y <= py < y + rh;
            &&& inside ==> r[byte_at(bw, px, py, 0)] == c.2 && r[byte_at(bw, px, py, 1)] == c.1 && r[byte_at(
                bw,
                px,
                py,
                2,
            )] == c.0 && r[byte_at(bw, px, py, 3)] == c.3
            &&& !inside ==> r[byte_at(bw, px, py, 0)] == buf[byte_at(bw, px, py, 0)] && r[byte_at(bw, px, py, 3)]
                == buf[byte_at(bw, px, py, 3)]
        }),
{
    lemma_byte_at(bw, px, py, 0);
    lemma_byte_at(bw, px, py, 1);
    lemma_byte_at(bw, px, py, 2);
    lemma_byte_at(bw, px, py, 3);
}

/// A colour is made as strong as its opacity: no stronger than that, the less the less is
/// seen, not at all where nothing is.
pub proof fn law_premultiplied(buf: Seq<u8>, p: int, k: int)
    requires
        0 <= p,
        4 * p + 3 < buf.len(),
        0 <= k < 3,
    ensures
        ({
            let r = premultiplied(buf);
            &&& r[4 * p + 3] == buf[4 * p + 3]
            &&& r[4 * p + k] <= buf[4 * p + 3]
            &&& r[4 * p + k] <= buf[4 * p + k]
            &&& buf[4 * p + 3] == 255 ==> r[4 * p + k] == buf[4 * p + k]
            &&& buf[4 * p + k] == 255 ==> r[4 * p + k] == buf[4 * p + 3]
        }),
{
    assert((4 * p + k) / 4 == p && (4 * p + k) % 4 == k);
    assert((4 * p + 3) / 4 == p && (4 * p + 3) % 4 == 3);
    let c = buf[4 * p + k] as int;
    let a = buf[4 * p + 3] as int;
    assert(0 <= c * a / 255 <= a && c * a / 255 <= c) by (nonlinear_arith)
        requires
            0 <= c <= 255,
            0 <= a <= 255,
    ;
    assert(a == 255 ==> c * a / 255 == c);
    assert(c == 255 ==> c * a / 255 == a);
}

// --- wallpapers -------------------------------------------------------------------------

/// A background that monitors are given is that of each of them, and of no other.
pub proof fn law_given_background(w: World, mons: Seq<usize>, c: Backdrop, m: u64)
    requires
        keys_differ(w.wallpapers),
    ensures
        ({
            let v = set_backdrops(w, mons, c);
            &&& keys_differ(v.wallpapers)
            &&& (exists|i: int| 0 <= i < mons.len() && #[trigger] mons[i] as u64 == m) ==> value_of(v.wallpapers, m)
                == Some(c)
            &&& !(exists|i: int| 0 <= i < mons.len() && #[trigger] mons[i] as u64 == m) ==> value_of(v.wallpapers, m)
                == value_of(w.wallpapers, m)
        }),
    decreases mons.len(),
{
    if mons.len() > 0 {
        let front = mons.drop_last();
        law_given_background(w, front, c, m);
        let v = set_backdrops(w, front, c);
        law_put(v.wallpapers, mons.last() as u64, c, m);
        assert(mons[mons.len() - 1] == mons.last());
        if exists|i: int| 0 <= i < front.len() && #[trigger] front[i] as u64 == m {
            let i = choose|i: int| 0 <= i < front.len() && #[trigger] front[i] as u64 == m;
            assert(mons[i] as u64 == m);
        }
        if exists|i: int| 0 <= i < mons.len() && #[trigger] mons[i] as u64 == m {
            let i = choose|i: int| 0 <= i < mons.len() && #[trigger] mons[i] as u64 == m;
            if i < front.len() {
                assert(front[i] as u64 == m);
            }
        }
    }
}

/// A background that is taken away is that of no monitor of those any more, and that of each
/// other stays.
pub proof fn law_background_gone(w: World, mons: Seq<usize>, m: u64)
    requires
        keys_differ(w.wallpapers),
    ensures
        ({
            let v = without_backdrops(w, mons);
            &&& keys_differ(v.wallpapers)
            &&& (exists|i: int| 0 <= i < mons.len() && #[trigger] mons[i] as u64 == m) ==> value_of(
                v.wallpapers,
                m,
            ) is None
            &&& !(exists|i: int| 0 <= i < mons.len() && #[trigger] mons[i] as u64 == m) ==> value_of(v.wallpapers, m)
                == value_of(w.wallpapers, m)
        }),
    decreases mons.len(),
{
    if mons.len() > 0 {
        let front = mons.drop_last();
        law_background_gone(w, front, m);
        let v = without_backdrops(w, front);
        law_drop_key(v.wallpapers, mons.last() as u64, m);
        law_drop_key(v.wallpapers, mons.last() as u64, mons.last() as u64);
        assert(mons[mons.len() - 1] == mons.last());
        if exists|i: int| 0 <= i < front.len() && #[trigger] front[i] as u64 == m {
            let i = choose|i: int| 0 <= i < front.len() && #[trigger] front[i] as u64 == m;
            assert(mons[i] as u64 == m);
        }
        if exists|i: int| 0 <= i < mons.len() && #[trigger] mons[i] as u64 == m {
            let i = choose|i: int| 0 <= i < mons.len() && #[trigger] mons[i] as u64 == m;
            if i < front.len() {
                assert(front[i] as u64 == m);
            }
        }
    }
}

/// Without a monitor, all are meant; with one, that one.
pub proof fn law_monitors_meant(w: World, sel: Text, i: int)
    requires
        sel != "all"@,
        find_screen(w.desk.list, selector_text(sel)) == Some(i),
        0 <= i <= usize::MAX,
        w.desk.list.len() <= usize::MAX,
    ensures
        wall_monitors(w, Some(sel)) == Ok::<Seq<usize>, Text>(seq![i as usize]),
        forall|m: usize|
            m < w.desk.list.len() ==> #[trigger] wall_monitors(w, None)->Ok_0.contains(m) && wall_monitors(
                w,
                Some("all"@),
            )->Ok_0.contains(m),
{
    assert forall|m: usize| m < w.desk.list.len() implies #[trigger] wall_monitors(w, None)->Ok_0.contains(m)
        && wall_monitors(w, Some("all"@))->Ok_0.contains(m) by {
        assert(wall_monitors(w, None)->Ok_0[m as int] == m);
        assert(wall_monitors(w, Some("all"@))->Ok_0[m as int] == m);
    }
}

/// The arguments by which the browser puts an image on a monitor say that to the window
/// manager: that file, that way, on that monitor.
pub proof fn law_call_understood(w: World, monitor: Text, mode: WallMode, path: Text)
    requires
        path != "off"@,
        path != "color"@,
        wall_monitors(w, Some(monitor)) is Ok,
        wall_monitors(w, Some(monitor))->Ok_0.len() > 0,
    ensures
        ({
            let a = wallpaper_call(monitor, Kept::Image { mode: mode_word(mode), path });
            wallpaper(w, a.skip(1)) == (Wall::File {
                mons: wall_monitors(w, Some(monitor))->Ok_0,
                path,
                mode,
            })
        }),
{
    let a = wallpaper_call(monitor, Kept::Image { mode: mode_word(mode), path });
    let (m, o) = ("mode="@ + mode_word(mode), "monitor="@ + monitor);
    let words = a.skip(1).skip(1);
    assert(words =~= seq![m, o]);
    assert(a.skip(1)[0] == path);
    lemma_mode_words(mode);
    reveal_strlit("mode=");
    reveal_strlit("monitor=");
    assert("mode="@.len() == 5 && "monitor="@.len() == 8);
    assert("mode="@[1] == 'o' && "monitor="@[1] == 'o' && "mode="@[2] == 'd' && "monitor="@[2] == 'n');
    assert(m.take(5) =~= "mode="@);
    assert(m.skip(5) =~= mode_word(mode));
    assert(o.take(8) =~= "monitor="@);
    assert(o.skip(8) =~= monitor);
    assert(m[2] == 'd');
    assert(after(m, "monitor="@) is None) by {
        if m.len() >= 8 && m.take(8) == "monitor="@ {
            assert(m.take(8)[2] == 'd');
        }
    }
    reveal_with_fuel(wall_words, 3);
    assert(words.drop_last() =~= seq![m]);
    assert(words.drop_last().drop_last() =~= Seq::<Text>::empty());
}

/// The word for a way of fitting.
pub open spec fn mode_word(m: WallMode) -> Text {
    match m {
        WallMode::Fill => "fill"@,
        WallMode::Fit => "fit"@,
        WallMode::Stretch => "stretch"@,
        WallMode::Center => "center"@,
        WallMode::Tile => "tile"@,
    }
}

proof fn lemma_mode_words(m: WallMode)
    ensures
        mode_named(mode_word(m)) == Some(m),
{
    reveal_strlit("fill");
    reveal_strlit("fit");
    reveal_strlit("stretch");
    reveal_strlit("center");
    reveal_strlit("tile");
    assert("fill"@.len() == 4 && "fit"@.len() == 3 && "stretch"@.len() == 7 && "center"@.len() == 6 && "tile"@.len()
        == 4 && "fill"@[0] != "tile"@[0]);
}

// --- what the display is told -----------------------------------------------------------

/// A window that is told its size is told that of its place, and is told it where it is seen;
/// one that keeps its own size is told to choose, and one that fills its monitor is told
/// the output.
pub proof fn law_told(w: World, it: RenderItem)
    requires
        w.has_win(it.win),
    ensures
        ({
            let x = w.win(it.win);
            let orders = item_told(w, it).1;
            &&& it.layer != Layer::Fullscreen && !x.pseudotile ==> orders.contains(
                Order::Propose { win: it.win, w: it.rect.w, h: it.rect.h },
            )
            &&& it.layer != Layer::Fullscreen && x.pseudotile ==> orders.contains(
                Order::Propose { win: it.win, w: 0, h: 0 },
            )
            &&& it.layer != Layer::Fullscreen && x.applied_fullscreen ==> orders.contains(
                Order::ExitFullscreen(it.win),
            )
            &&& it.layer == Layer::Fullscreen && !x.applied_fullscreen ==> (output_under(
                w.outputs,
                w.desk.list[it.mon as int].rect,
            ) matches Some(o) ==> orders == seq![Order::Fullscreen { win: it.win, output: o }])
            &&& it.layer == Layer::Fullscreen && x.applied_fullscreen ==> orders.len() == 0
        }),
{
    let x = w.win(it.win);
    let orders = item_told(w, it).1;
    if it.layer != Layer::Fullscreen {
        if x.applied_fullscreen {
            assert(orders[0] == Order::ExitFullscreen(it.win));
            assert(orders[1] is Propose);
        } else {
            assert(orders[0] is Propose);
        }
    }
}

proof fn lemma_output_place(outputs: Seq<Output>, x: int, y: int)
    ensures
        0 <= output_place(outputs, x, y) <= outputs.len(),
        output_place(outputs, x, y) < outputs.len() ==> in_rect(outputs[output_place(outputs, x, y)].geo, x, y),
        forall|i: int| 0 <= i < output_place(outputs, x, y) ==> !in_rect((#[trigger] outputs[i]).geo, x, y),
    decreases outputs.len(),
{
    if outputs.len() > 0 && !in_rect(outputs[0].geo, x, y) {
        lemma_output_place(outputs.drop_first(), x, y);
        assert forall|i: int| 0 <= i < output_place(outputs, x, y) implies !in_rect((#[trigger] outputs[i]).geo, x, y) by {
            if i > 0 {
                assert(outputs.drop_first()[i - 1] == outputs[i]);
            }
        }
    }
}

/// The output that a window fills is one that holds the middle of its monitor, where there
/// is such a one.
pub proof fn law_output_filled(outputs: Seq<Output>, r: crate::monitor::Rect, k: int)
    requires
        0 <= r.w,
        0 <= r.h,
        0 <= k < outputs.len(),
        in_rect(outputs[k].geo, r.x + r.w / 2, r.y + r.h / 2),
    ensures
        output_under(outputs, r) is Some,
        exists|i: int|
            0 <= i < outputs.len() && (#[trigger] outputs[i]).id == output_under(outputs, r)->0 && in_rect(
                outputs[i].geo,
                r.x + r.w / 2,
                r.y + r.h / 2,
            ),
{
    lemma_output_place(outputs, r.x + r.w / 2, r.y + r.h / 2);
    let p = output_place(outputs, r.x + r.w / 2, r.y + r.h / 2);
    if p > k {
        assert(!in_rect(outputs[k].geo, r.x + r.w / 2, r.y + r.h / 2));
    }
    assert(outputs[p].id == output_under(outputs, r)->0);
}

/// The windows that are shown are those that are seen, from the lowest to the highest, each
/// once for its place and in its corner of it.
pub proof fn law_shown(w: World, items: Seq<RenderItem>, some: Seq<RenderItem>)
    requires
        forall|i: int| 0 <= i < some.len() ==> (#[trigger] some[i]).visible && w.has_win(some[i].win),
        forall|i: int|
            0 <= i < some.len() ==> w.floats(w.win((#[trigger] some[i]).win)) || !w.win(some[i].win).pseudotile,
    ensures
        shown_of(w, items, some).len() == some.len(),
        forall|i: int|
            0 <= i < some.len() ==> (#[trigger] shown_of(w, items, some)[i]).win == some[i].win && shown_of(
                w,
                items,
                some,
            )[i].x == some[i].rect.x && shown_of(w, items, some)[i].y == some[i].rect.y,
    decreases some.len(),
{
    if some.len() > 0 {
        let front = some.drop_last();
        assert forall|i: int| 0 <= i < front.len() implies (#[trigger] front[i]).visible && w.has_win(front[i].win)
            && (w.floats(w.win(front[i].win)) || !w.win(front[i].win).pseudotile) by {
            assert(front[i] == some[i]);
        }
        law_shown(w, items, front);
        let it = some.last();
        assert(some[some.len() - 1] == it);
        let before = shown_of(w, items, front);
        let now = shown_of(w, items, some);
        assert forall|i: int| 0 <= i < some.len() implies (#[trigger] now[i]).win == some[i].win && now[i].x
            == some[i].rect.x && now[i].y == some[i].rect.y by {
            if i < front.len() {
                assert(now[i] == before[i]);
                assert(front[i] == some[i]);
            }
        }
    }
}

/// Every background is drawn where its monitor is, and as large.
pub proof fn law_walls_drawn(w: World, walls: Seq<(u64, Backdrop)>)
    ensures
        forall|i: int|
            0 <= i < walls_drawn(w, walls).len() ==> {
                let p = #[trigger] walls_drawn(w, walls)[i];
                &&& p.mon < w.desk.list.len()
                &&& p.x == w.desk.list[p.mon as int].rect.x && p.y == w.desk.list[p.mon as int].rect.y
                &&& w.desk.list[p.mon as int].rect.w >= 1 ==> p.w == w.desk.list[p.mon as int].rect.w
                &&& w.desk.list[p.mon as int].rect.h >= 1 ==> p.h == w.desk.list[p.mon as int].rect.h
            },
    decreases walls.len(),
{
    if walls.len() > 0 {
        law_walls_drawn(w, walls.drop_last());
    }
}

// --- icons ------------------------------------------------------------------------------

proof fn lemma_widest(ps: Seq<Pixmap>, n: nat)
    requires
        n <= ps.len(),
    ensures
        -1 <= widest_small(ps, n) < n,
        widest_small(ps, n) >= 0 ==> whole(ps[widest_small(ps, n)]) && ps[widest_small(ps, n)].0 <= 32,
        forall|i: int|
            0 <= i < n && whole(#[trigger] ps[i]) && ps[i].0 <= 32 ==> widest_small(ps, n) >= 0 && ps[i].0
                <= ps[widest_small(ps, n)].0,
    decreases n,
{
    if n > 0 {
        lemma_widest(ps, (n - 1) as nat);
    }
}

proof fn lemma_narrowest(ps: Seq<Pixmap>, n: nat)
    requires
        n <= ps.len(),
    ensures
        -1 <= narrowest(ps, n) < n,
        narrowest(ps, n) >= 0 ==> whole(ps[narrowest(ps, n)]),
        forall|i: int|
            0 <= i < n && whole(#[trigger] ps[i]) ==> narrowest(ps, n) >= 0 && ps[narrowest(ps, n)].0 <= ps[i].0,
    decreases n,
{
    if n > 0 {
        lemma_narrowest(ps, (n - 1) as nat);
    }
}

/// Of the icons that an item hands over, a whole one is taken: the widest of those that are
/// at most 32 wide, or, where all are wider, the narrowest.
pub proof fn law_icon_taken(ps: Seq<Pixmap>, i: int)
    requires
        0 <= i < ps.len(),
        whole(ps[i]),
    ensures
        ({
            let at = best_pixmap(ps);
            &&& 0 <= at < ps.len()
            &&& whole(ps[at])
            &&& ps[i].0 <= 32 ==> ps[at].0 <= 32 && ps[i].0 <= ps[at].0
            &&& ps[at].0 > 32 ==> ps[at].0 <= ps[i].0
        }),
{
    lemma_widest(ps, ps.len());
    lemma_narrowest(ps, ps.len());
}

/// The bytes of a pixel that is handed over, opacity first, stand the other way round in the
/// icon that is shown.
pub proof fn law_icon_turned(p: Pixmap, k: int)
    requires
        whole(p),
        0 <= k < p.0 * p.1,
    ensures
        ({
            let r = turned(p).bgra;
            &&& r.len() == p.0 * p.1 * 4
            &&& r[4 * k] == p.2[4 * k + 3]
            &&& r[4 * k + 1] == p.2[4 * k + 2]
            &&& r[4 * k + 2] == p.2[4 * k + 1]
            &&& r[4 * k + 3] == p.2[4 * k]
            &&& turned(p).width == p.0 && turned(p).height == p.1
        }),
{
    assert(p.0 * p.1 * 4 >= 0) by (nonlinear_arith)
        requires
            p.0 > 0,
            p.1 > 0,
    ;
    assert((4 * k) / 4 == k && (4 * k + 1) / 4 == k && (4 * k + 2) / 4 == k && (4 * k + 3) / 4 == k);
    assert((4 * k) % 4 == 0 && (4 * k + 1) % 4 == 1 && (4 * k + 2) % 4 == 2 && (4 * k + 3) % 4 == 3);
}

/// A label is no longer than it may be; one that is short enough stays, and a longer one
/// starts as it did.
pub proof fn law_elided(s: Text, max: int)
    requires
        1 <= max,
    ensures
        elided(s, max).len() <= max,
        s.len() <= max ==> elided(s, max) == s,
        s.len() > max ==> elided(s, max).len() == max && elided(s, max).take(max - 1) == s.take(max - 1),
{
    if s.len() > max {
        assert(elided(s, max).take(max - 1) =~= s.take(max - 1));
    }
}

// --- what can be chosen -----------------------------------------------------------------

/// All monitors can be chosen at once, and each by its number.
pub proof fn law_choices(n: nat, i: int)
    requires
        0 <= i < n,
    ensures
        choices(n).len() == n + 1,
        choices(n)[0] == "all"@,
        choices(n)[i + 1] == show(i as nat),
        monitor_choices(None) == choices(1),
{
}

/// Each line that holds something counts.
pub proof fn law_full_count(ls: Seq<Text>, line: Text)
    ensures
        trimmed(line).len() > 0 ==> full_count(ls.push(line)) == full_count(ls) + 1,
        trimmed(line).len() == 0 ==> full_count(ls.push(line)) == full_count(ls),
        full_count(Seq::empty()) == 0,
{
    assert(ls.push(line).drop_last() =~= ls);
}

/// A wallpaper is given to its monitor as it was kept; a cursor with its size, which is the
/// usual one where none was kept.
pub proof fn law_call_again(monitor: Text, mode: Text, path: Text, color: Text, p: Prefs, theme: Text)
    ensures
        wallpaper_call(monitor, Kept::Image { mode, path }) == seq![
            "wallpaper"@,
            path,
            "mode="@ + mode,
            "monitor="@ + monitor,
        ],
        wallpaper_call(monitor, Kept::Color { color }) == seq!["wallpaper"@, "color"@, color, "monitor="@ + monitor],
        p.cursor_theme == Some(theme) && p.cursor_size is None ==> restoring(p).last().1 == seq![
            "cursor_theme"@,
            theme,
            show(24),
        ],
        p.cursor_theme == Some(theme) && p.cursor_size is Some ==> restoring(p).last().1 == seq![
            "cursor_theme"@,
            theme,
            show(p.cursor_size->0 as nat),
        ],
        p.cursor_theme is None ==> restoring(p) == restored(p.saved, true) + restored(p.saved, false),
{
    assert(p.cursor_theme is None ==> restoring(p) =~= restored(p.saved, true) + restored(p.saved, false));
}

/// A client that failed is quoted, first what it said, then what it complained of; where it
/// said nothing, its status is.
pub proof fn law_complaint(out: Seq<u8>, wrong: Seq<u8>, status: Text)
    ensures
        ({
            let a = trimmed(text_of(out));
            let b = trimmed(text_of(wrong));
            &&& a.len() > 0 ==> client_complaint(out, wrong, status) == a
            &&& a.len() == 0 && b.len() > 0 ==> client_complaint(out, wrong, status) == b
            &&& a.len() == 0 && b.len() == 0 ==> client_complaint(out, wrong, status) == "sc exited with status "@ + status
        }),
{
}

/// The user's own applications count before those of the system.
pub proof fn law_app_dirs(home: Text, data: Text, dir: Text)
    requires
        dir.len() > 0,
        !dir.contains(':'),
    ensures
        app_dirs_of(Some(home), Some(data), Some(dir)) == seq![data + "/applications"@, dir + "/applications"@],
        app_dirs_of(Some(home), None, Some(dir)) == seq![home + "/.local/share"@ + "/applications"@, dir + "/applications"@],
        app_dirs_of(None, Some(data), Some(dir)) == seq![dir + "/applications"@],
{
    crate::theme_laws::law_dirs_in(dir, dir);
    assert(app_places(seq![dir]) =~= seq![dir + "/applications"@]);
    assert(app_dirs_of(Some(home), Some(data), Some(dir)) =~= seq![data + "/applications"@, dir + "/applications"@]);
    assert(app_dirs_of(Some(home), None, Some(dir)) =~= seq![
        home + "/.local/share"@ + "/applications"@,
        dir + "/applications"@,
    ]);
    assert(app_dirs_of(None, Some(data), Some(dir)) =~= seq![dir + "/applications"@]);
}

/// A picture that says nothing of opacity is not seen through, and is otherwise as it was
/// made.
pub proof fn law_opaque(small: (u32, u32, Seq<u8>), p: int)
    requires
        0 <= p,
        4 * p + 3 < small.2.len(),
    ensures
        shown_small(false, small) == small,
        ({
            let s = shown_small(true, small);
            &&& s.0 == small.0 && s.1 == small.1 && s.2.len() == small.2.len()
            &&& s.2[4 * p + 3] == 255
            &&& s.2[4 * p] == small.2[4 * p] && s.2[4 * p + 1] == small.2[4 * p + 1] && s.2[4 * p + 2] == small.2[4 * p + 2]
        }),
{
}

} // verus!
