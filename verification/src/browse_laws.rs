//! What the browser of wallpapers and themes does with what it is told, how a bar comes and
//! goes, and what texts are taken apart into.

use vstd::prelude::*;
use crate::bar::SepStyle;
use crate::browser::{
    chosen_cursor, chosen_theme, color_told, cursor_pixels, dir_added, dir_removed, image_told, kept_told,
    theme_place, Showing,
};
use crate::cmd_bar::{bar_cleared, bar_create, bar_destroyed, bar_word, bar_words, separator_word, BarWish};
use crate::config::Kept;
use crate::frame::LayoutMode;
use crate::notices::{notice_number, number_after_notice};
use crate::number::{law_signed_round_trip, show_int};
use crate::rules::DockAnchor;
use crate::start::fresh_world;
use crate::state::{Deed, Globals, World};
use crate::table::{in_order, line_place, text_before};
use crate::text::{after, is_white, lower_char, trim_end, trim_start, trimmed, Class, Text};
use crate::theme::{hex_byte, law_color_round_trip, show_color, Color};

verus! {

// --- the browser ------------------------------------------------------------------------

/// A directory that is typed in full and is one comes last in the list and is shown; one
/// that is there already, or is none, or is not named in full leaves the list as it is.
pub proof fn law_dir_added(b: Showing, path: Text)
    requires
        trimmed(b.new_dir_input) == path,
        path.len() > 0,
    ensures
        path[0] == '/' && !b.cfg.dirs.contains(path) ==> ({
            let (c, a) = dir_added(b, true);
            &&& c.cfg.dirs == b.cfg.dirs.push(path)
            &&& a is Shown && b.cfg.dirs.len() <= usize::MAX ==> a->Shown_0 == b.cfg.dirs.len()
            &&& c.new_dir_input.len() == 0
        }),
        path[0] == '/' && b.cfg.dirs.contains(path) ==> dir_added(b, true).0.cfg == b.cfg,
        path[0] != '/' ==> dir_added(b, true).0.cfg == b.cfg && dir_added(b, true).1 is Stays,
        dir_added(b, false).0.cfg == b.cfg && dir_added(b, false).1 is Stays,
{
}

/// The directory that is taken out is gone; the one that is shown stays the one that is
/// shown, unless it is the one that was taken out.
pub proof fn law_dir_removed(b: Showing, i: usize, s: usize)
    requires
        i < b.cfg.dirs.len(),
        s < b.cfg.dirs.len(),
        b.selected_dir == Some(s),
    ensures
        ({
            let c = dir_removed(b, i);
            &&& c.cfg.dirs == b.cfg.dirs.remove(i as int)
            &&& s == i ==> c.selected_dir is None && c.images.len() == 0 && c.selected_image is None
            &&& s != i ==> c.selected_dir is Some && c.selected_dir->0 < c.cfg.dirs.len()
                && c.cfg.dirs[c.selected_dir->0 as int] == b.cfg.dirs[s as int] && c.images == b.images
        }),
{
}

/// What came of an image is said, with its name and its monitor; of a failure, that it
/// failed. Nothing else changes.
pub proof fn law_image_told(b: Showing, path: Text, e: Text)
    requires
        b.selected_image == Some(path),
    ensures
        image_told(b, Some(e)) == (Showing { status: "error: "@ + e, ..b }),
        image_told(b, None) == (Showing { status: image_told(b, None).status, ..b }),
        image_told(b, None).status == "Applied "@ + crate::path::label_of(path) + " ("@ + b.mode.title() + ", monitor "@
            + b.monitor + ")."@,
        image_told(Showing { selected_image: None, ..b }, None).cfg == b.cfg,
        kept_told(b, None).status == b.status + " Saved."@,
        kept_told(b, Some(e)).status == "error: saving config: "@ + e,
{
}

/// A colour that is put on a monitor is kept for that monitor only where it is to be kept
/// and could be put there.
pub proof fn law_color_told(b: Showing, e: Text)
    ensures
        color_told(b, Some(e), true).cfg == b.cfg,
        color_told(b, None, false).cfg == b.cfg,
        color_told(b, None, true).cfg.saved == crate::config::with_saved(
            b.cfg.saved,
            b.monitor,
            Kept::Color { color: crate::browser::color_text(b.color) },
        ),
        crate::browser::color_text(b.color) + hex_byte(255u8) == show_color((b.color.0, b.color.1, b.color.2, 255u8)),
{
}

/// The theme that is found is the first of its name.
pub proof fn law_theme_place(themes: Seq<(Text, Text)>, name: Text)
    requires
        themes.len() <= usize::MAX,
    ensures
        theme_place(themes, name) is Some ==> ({
            let i = theme_place(themes, name)->0 as int;
            &&& 0 <= i < themes.len() && themes[i].0 == name
            &&& forall|j: int| 0 <= j < i ==> (#[trigger] themes[j]).0 != name
        }),
        theme_place(themes, name) is None ==> forall|j: int| 0 <= j < themes.len() ==> (#[trigger] themes[j]).0 != name,
    decreases themes.len(),
{
    if themes.len() > 0 {
        law_theme_place(themes.drop_last(), name);
        let front = themes.drop_last();
        assert forall|j: int| 0 <= j < front.len() implies front[j] == themes[j] by {}
        match theme_place(front, name) {
            Some(i) => {
                assert(themes[i as int] == front[i as int]);
                assert forall|j: int| 0 <= j < i implies (#[trigger] themes[j]).0 != name by {
                    assert(front[j].0 != name);
                }
            },
            None => {
                assert forall|j: int| 0 <= j < themes.len() - 1 implies (#[trigger] themes[j]).0 != name by {
                    assert(front[j].0 != name);
                }
            },
        }
    }
}

/// What is chosen is what stands at the chosen place; a cursor has at least one pixel.
pub proof fn law_chosen(b: Showing, i: usize)
    ensures
        b.selected_theme == Some(i) && i < b.themes.len() ==> chosen_theme(b) == Some(b.themes[i as int]),
        b.selected_theme is None ==> chosen_theme(b) is None,
        b.selected_cursor == Some(i) && i < b.cursor_themes.len() ==> chosen_cursor(b) == Some(b.cursor_themes[i as int]),
        b.selected_cursor is None ==> chosen_cursor(b) is None,
        b.cursor_size > 0 ==> cursor_pixels(b) == b.cursor_size,
        cursor_pixels(b) >= 1,
{
}

// --- the bar ----------------------------------------------------------------------------

/// Words are taken one after the other; the first that says nothing ends it.
pub proof fn law_bar_words_add(words: Seq<Text>, word: Text)
    ensures
        bar_words(words) is Ok && bar_word(bar_words(words)->Ok_0, word) is Some ==> bar_words(words.push(word)) == Ok::<
            BarWish,
            Text,
        >(bar_word(bar_words(words)->Ok_0, word)->0),
        bar_words(words) is Ok && bar_word(bar_words(words)->Ok_0, word) is None ==> bar_words(words.push(word)) is Err,
        bar_words(words) is Err ==> bar_words(words.push(word)) == bar_words(words),
        ({
            let o = bar_words(Seq::empty())->Ok_0;
            o.anchor == DockAnchor::Top && o.mon == 0 && o.height == 26 && o.margin_x == 0 && o.margin_y == 0 && o.font is None
        }),
{
    assert(words.push(word).drop_last() =~= words);
}

/// A bar comes without modules and as it is wished; it is shown once. Cleared it keeps all
/// but its modules, and destroyed it is gone.
pub proof fn law_bar_comes_and_goes(w: World, words: Seq<Text>)
    requires
        w.globals.compositor,
        w.globals.wm,
        w.globals.shm,
        bar_words(words) is Ok,
    ensures
        ({
            let o = bar_words(words)->Ok_0;
            let v = bar_create(w, words).0;
            &&& v.bar is Some && v.bar->0.parts.len() == 0
            &&& v.bar->0.anchor == o.anchor && v.bar->0.mon == o.mon && v.bar->0.height == o.height
            &&& v.bar->0.margin_x == o.margin_x && v.bar->0.margin_y == o.margin_y
            &&& v.bar->0.bg == o.bg && v.bar->0.fg == o.fg
            &&& w.bar is None ==> v.effects == w.effects.push(Deed::ShowBar).push(Deed::Manage)
            &&& w.bar is Some ==> v.effects == w.effects.push(Deed::StopModules).push(Deed::Manage)
            &&& bar_cleared(v).bar is Some && bar_cleared(v).bar->0.parts.len() == 0
            &&& bar_cleared(v).bar->0.height == o.height
            &&& bar_destroyed(v).bar is None
            &&& bar_destroyed(v).effects == v.effects.push(Deed::StopModules).push(Deed::HideBar)
            &&& w.bar is None ==> bar_destroyed(w) == w
        }),
{
}

proof fn lemma_own(key: Text, v: Text)
    ensures
        after(key + v, key) == Some(v),
{
    assert((key + v).take(key.len() as int) =~= key);
    assert((key + v).skip(key.len() as int) =~= v);
}

proof fn lemma_other(key: Text, v: Text, other: Text)
    requires
        key.len() > 0,
        other.len() > 0,
        key[0] != other[0] || (key.len() > 1 && other.len() > 1 && key[1] != other[1]),
    ensures
        after(key + v, other) is None,
{
    let s = key + v;
    if s.len() >= other.len() && s.take(other.len() as int) == other {
        assert(s.take(other.len() as int)[0] == key[0]);
        if key.len() > 1 && other.len() > 1 {
            assert(s.take(other.len() as int)[1] == key[1]);
        }
    }
}

/// Each word of a separator sets what it names, and nothing else.
pub proof fn law_separator_words(p: (i32, Color, SepStyle), n: i32, c: Color)
    requires
        n >= 0,
    ensures
        separator_word(p, "size="@ + show_int(n as int)) == Ok::<(i32, Color, SepStyle), Text>((n, p.1, p.2)),
        separator_word(p, "color="@ + show_color(c)) == Ok::<(i32, Color, SepStyle), Text>((p.0, c, p.2)),
        separator_word(p, "style="@ + "line"@) == Ok::<(i32, Color, SepStyle), Text>((p.0, p.1, SepStyle::Line)),
        separator_word(p, "style="@ + "dot"@) == Ok::<(i32, Color, SepStyle), Text>((p.0, p.1, SepStyle::Dot)),
        separator_word(p, "style="@ + "empty"@) == Ok::<(i32, Color, SepStyle), Text>((p.0, p.1, SepStyle::Empty)),
{
    reveal_strlit("size=");
    reveal_strlit("color=");
    reveal_strlit("style=");
    reveal_strlit("line");
    reveal_strlit("dot");
    reveal_strlit("empty");
    reveal_strlit("none");
    reveal_strlit("invisible");
    assert("size="@[0] == 's' && "size="@[1] == 'i' && "color="@[0] == 'c' && "style="@[0] == 's' && "style="@[1] == 't');
    assert("line"@.len() == 4 && "dot"@.len() == 3 && "empty"@.len() == 5 && "none"@.len() == 4 && "invisible"@.len() == 9);
    law_signed_round_trip(n as int, i32::MIN as int, i32::MAX as int);
    law_color_round_trip(c);
    lemma_own("size="@, show_int(n as int));
    lemma_own("color="@, show_color(c));
    lemma_other("color="@, show_color(c), "size="@);
    lemma_own("style="@, "line"@);
    lemma_own("style="@, "dot"@);
    lemma_own("style="@, "empty"@);
    lemma_other("style="@, "line"@, "size="@);
    lemma_other("style="@, "line"@, "color="@);
    lemma_other("style="@, "dot"@, "size="@);
    lemma_other("style="@, "dot"@, "color="@);
    lemma_other("style="@, "empty"@, "size="@);
    lemma_other("style="@, "empty"@, "color="@);
}

// --- the start --------------------------------------------------------------------------

/// At the start there is nothing, monitors follow the outputs, and nothing is set: no gaps,
/// no borders, no dimming, and windows of a frame one above the other.
pub proof fn law_at_start(g: Globals)
    ensures
        ({
            let w = fresh_world(g);
            let s = w.settings;
            &&& w.windows.len() == 0 && w.trees.len() == 0 && w.rules.len() == 0 && w.desk.list.len() == 0
            &&& w.keybinds.len() == 0 && w.mousebinds.len() == 0 && w.notifications.len() == 0
            &&& w.bar is None && w.launcher is None && w.tray_menu is None && w.op is None
            &&& w.auto_monitors
            &&& s.window_gap == 0 && s.border_width == 0
            &&& !s.focus_follows_mouse && !s.raise_on_focus
            &&& !s.smart_frame_surroundings && !s.smart_window_surroundings
            &&& s.default_frame_layout == LayoutMode::Vertical
            &&& !crate::theme::dims(s.inactive_dim)
            &&& s.notif_theme.width == 380 && s.notif_theme.timeout_ms == 5000 && s.launcher_theme.width == 760
        }),
{
}

/// A notification that takes the place of another has its number; any other gets the next
/// one, and the one after that is next.
pub proof fn law_notice_numbers(replaces: u32, next: u32)
    ensures
        replaces != 0 ==> notice_number(replaces, next) == replaces && number_after_notice(replaces, next) == next,
        notice_number(0, next) == next,
        next < u32::MAX ==> number_after_notice(0, next) == next + 1,
{
}

// --- texts ------------------------------------------------------------------------------

proof fn lemma_trim_start(pre: Text, core: Text)
    requires
        forall|i: int| 0 <= i < pre.len() ==> is_white(#[trigger] pre[i]),
        core.len() > 0,
        !is_white(core[0]),
    ensures
        trim_start(pre + core, Class::White) == core,
    decreases pre.len(),
{
    let s = pre + core;
    if pre.len() == 0 {
        assert(s =~= core);
        assert(!Class::White.has(core[0]));
    } else {
        assert(is_white(pre[0]));
        assert(s[0] == pre[0]);
        assert(Class::White.has(s[0]));
        let rest = pre.drop_first();
        assert forall|i: int| 0 <= i < rest.len() implies is_white(#[trigger] rest[i]) by {
            assert(rest[i] == pre[i + 1]);
        }
        lemma_trim_start(rest, core);
        assert(s.drop_first() =~= rest + core);
    }
}

proof fn lemma_trim_end(core: Text, post: Text)
    requires
        forall|i: int| 0 <= i < post.len() ==> is_white(#[trigger] post[i]),
        core.len() > 0,
        !is_white(core.last()),
    ensures
        trim_end(core + post, Class::White) == core,
    decreases post.len(),
{
    let s = core + post;
    if post.len() == 0 {
        assert(s =~= core);
        assert(!Class::White.has(core.last()));
    } else {
        assert(is_white(post[post.len() - 1]));
        assert(s.last() == post.last());
        assert(Class::White.has(s.last()));
        let rest = post.drop_last();
        assert forall|i: int| 0 <= i < rest.len() implies is_white(#[trigger] rest[i]) by {
            assert(rest[i] == post[i]);
        }
        lemma_trim_end(core, rest);
        assert(s.drop_last() =~= core + rest);
    }
}

/// White space at both ends of a text is cut off, and what is between stays.
pub proof fn law_trimmed(pre: Text, core: Text, post: Text)
    requires
        forall|i: int| 0 <= i < pre.len() ==> is_white(#[trigger] pre[i]),
        forall|i: int| 0 <= i < post.len() ==> is_white(#[trigger] post[i]),
        core.len() > 0,
        !is_white(core[0]),
        !is_white(core.last()),
    ensures
        trimmed(pre + core + post) == core,
{
    let c = core + post;
    assert(pre + core + post =~= pre + c);
    assert(c[0] == core[0]);
    lemma_trim_start(pre, c);
    lemma_trim_end(core, post);
}

/// Letters of the alphabet are put in lower case, and no other character changes.
pub proof fn law_lower(c: char)
    ensures
        lower_char('A') == 'a' && lower_char('M') == 'm' && lower_char('Z') == 'z',
        !('A' as u32 <= c as u32 <= 'Z' as u32) ==> lower_char(c) == c,
{
}

proof fn lemma_line_place(ls: Seq<Text>, t: Text)
    ensures
        0 <= line_place(ls, t) <= ls.len(),
        line_place(ls, t) < ls.len() ==> text_before(t, ls[line_place(ls, t)]),
        forall|i: int| 0 <= i < line_place(ls, t) ==> !text_before(t, #[trigger] ls[i]),
    decreases ls.len(),
{
    if ls.len() > 0 && !text_before(t, ls[0]) {
        lemma_line_place(ls.drop_first(), t);
        let p = line_place(ls, t);
        assert forall|i: int| 0 <= i < p implies !text_before(t, #[trigger] ls[i]) by {
            if i > 0 {
                assert(ls.drop_first()[i - 1] == ls[i]);
            }
        }
        if p < ls.len() {
            assert(ls.drop_first()[p - 1] == ls[p]);
        }
    }
}

/// A line goes right before the first that comes after it, and behind all that do not.
pub proof fn law_in_order(ls: Seq<Text>, t: Text)
    ensures
        ({
            let before = in_order(ls);
            let now = in_order(ls.push(t));
            exists|p: int|
                0 <= p <= before.len() && now == #[trigger] before.insert(p, t) && (p < before.len() ==> text_before(
                    t,
                    before[p],
                )) && forall|i: int| 0 <= i < p ==> !text_before(t, #[trigger] before[i])
        }),
{
    assert(ls.push(t).drop_last() =~= ls);
    let before = in_order(ls);
    lemma_line_place(before, t);
    let p = line_place(before, t);
    assert(in_order(ls.push(t)) == before.insert(p, t));
}

} // verus!
