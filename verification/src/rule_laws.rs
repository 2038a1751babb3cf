//! Which windows a rule is for, what it does to them, and how a window follows the pointer.

use vstd::prelude::*;
use crate::cmd_window::focus_win;
use crate::events::op_moved;
use crate::frame::WinId;
use crate::manage::{op_geo, ops_ended, ops_started};
use crate::monitor::{find_screen, selector_text, Rect, Screen, TagId};
use crate::rules::{
    field_matches, judged, placed_by_rules, reapply_rules, rule_matches, rule_of, rule_word, ruled, verdict,
    Condition, DockAnchor, RuleOutcome,
};
use crate::number::{law_show_reads_back, law_unsigned_round_trip, show};
use crate::state::{lemma_win_place, win_place, PointerOp, Window, World};
use crate::table::value_of;
use crate::text::{has_at, lemma_position_is, position, Class, Text};

verus! {

// --- what a rule is for -----------------------------------------------------------------

/// A `~` pattern is for every value that has it in it, whatever stands before and behind
/// it.
pub proof fn law_loose_pattern(a: Text, pat: Text, b: Text)
    ensures
        field_matches(Some(a + pat + b), false, pat),
{
    assert((a + pat + b).subrange(a.len() as int, (a.len() + pat.len()) as int) =~= pat);
    assert(has_at(a + pat + b, pat, a.len() as int));
}

/// A value that a `~` pattern is for is some text, the pattern and some text put together,
/// so it is no shorter than the pattern.
pub proof fn law_loose_value(v: Text, pat: Text)
    requires
        field_matches(Some(v), false, pat),
    ensures
        pat.len() <= v.len(),
        exists|a: Text, b: Text| #[trigger] (a + pat + b) == v,
{
    let at = choose|at: int| has_at(v, pat, at);
    let a = v.take(at);
    let b = v.skip(at + pat.len());
    assert(a + pat + b =~= v) by {
        assert forall|i: int| 0 <= i < v.len() implies (a + pat + b)[i] == v[i] by {
            if at <= i < at + pat.len() {
                assert(v.subrange(at, at + pat.len())[i - at] == v[i]);
            }
        }
    }
}

/// An `=` pattern is for the value that it is, and for no other; neither kind is for a
/// window without a value.
pub proof fn law_exact_pattern(v: Text, pat: Text, exact: bool)
    ensures
        field_matches(Some(v), true, pat) <==> v == pat,
        field_matches(Some(v), true, pat) ==> field_matches(Some(v), false, pat),
        !field_matches(None, exact, pat),
{
    if v == pat {
        law_loose_pattern(Seq::empty(), pat, Seq::empty());
        assert(Seq::<char>::empty() + pat + Seq::<char>::empty() =~= pat);
    }
}

/// A rule is for a window where each of the patterns that it has is: one for the
/// application is held against the application, one for the title against the title.
pub proof fn law_rule_is_for(r: Condition, app: Text, title: Text)
    ensures
        r.app_id is None && r.title is None ==> rule_matches(r, Some(app), Some(title)) && rule_matches(
            r,
            None,
            None,
        ),
        r.app_id == Some((true, app)) && r.title is None ==> rule_matches(r, Some(app), None),
        r.title == Some((true, title)) && r.app_id is None ==> rule_matches(r, None, Some(title)),
        r.app_id is Some ==> !rule_matches(r, None, Some(title)),
        r.title is Some ==> !rule_matches(r, Some(app), None),
        r.app_id matches Some((exact, pat)) && app.len() < pat.len() ==> !rule_matches(r, Some(app), Some(title)),
        r.title matches Some((exact, pat)) && title.len() < pat.len() ==> !rule_matches(r, Some(app), Some(title)),
{
    if r.app_id is Some && field_matches(Some(app), false, r.app_id->Some_0.1) {
        law_loose_value(app, r.app_id->Some_0.1);
    }
    if r.title is Some && field_matches(Some(title), false, r.title->Some_0.1) {
        law_loose_value(title, r.title->Some_0.1);
    }
}

// --- how a rule is read -----------------------------------------------------------------

/// Whether a text has none of the two signs that split a word of a rule.
pub open spec fn plain(s: Text) -> bool {
    forall|i: int| 0 <= i < s.len() ==> (#[trigger] s[i]) != '~' && s[i] != '='
}

proof fn lemma_word(key: Text, sign: char, v: Text)
    requires
        plain(key),
        sign == '~' || (sign == '=' && plain(v)),
    ensures
        ({
            let word = key + seq![sign] + v;
            &&& position(word, Class::Is(sign)) == key.len()
            &&& sign == '=' ==> position(word, Class::Is('~')) == word.len()
            &&& word.take(key.len() as int) == key
            &&& word.skip(key.len() as int + 1) == v
        }),
{
    let word = key + seq![sign] + v;
    assert(word.take(key.len() as int) =~= key);
    assert(word.skip(key.len() as int + 1) =~= v);
    lemma_position_is(word, Class::Is(sign), key.len() as int);
    if sign == '=' {
        crate::text::lemma_position(word, Class::Is('~'));
        let p = position(word, Class::Is('~'));
        if p < word.len() {
            assert(word[p] == '~');
            if p < key.len() {
                assert(key[p] == '~');
            } else if p > key.len() {
                assert(v[p - key.len() - 1] == '~');
            }
        }
    }
}

/// A word of a rule: what stands before the sign says what is looked at, the sign how, and
/// what stands behind it is the pattern. All else in the rule stays.
pub proof fn law_pattern_word(r: Condition, loose: bool, v: Text)
    requires
        loose || plain(v),
    ensures
        ({
            let sign = if loose {
                seq!['~']
            } else {
                seq!['=']
            };
            let by_app = Condition { app_id: Some((!loose, v)), ..r };
            &&& rule_word(r, "app_id"@ + sign + v) == by_app
            &&& rule_word(r, "class"@ + sign + v) == by_app
            &&& rule_word(r, "instance"@ + sign + v) == by_app
            &&& rule_word(r, "title"@ + sign + v) == (Condition { title: Some((!loose, v)), ..r })
        }),
{
    let sign = if loose {
        '~'
    } else {
        '='
    };
    reveal_strlit("app_id");
    reveal_strlit("class");
    reveal_strlit("instance");
    reveal_strlit("title");
    assert("title"@[0] != "class"@[0]);
    assert("title"@.len() == 5 && "app_id"@.len() == 6 && "instance"@.len() == 8);
    lemma_word("app_id"@, sign, v);
    lemma_word("class"@, sign, v);
    lemma_word("instance"@, sign, v);
    lemma_word("title"@, sign, v);
}

/// A word of a rule that says what is done: on or off, the number of a tag, a monitor. All
/// else in the rule stays.
pub proof fn law_action_word(r: Condition, on: bool, n: u32, name: Text)
    requires
        plain(name),
    ensures
        ({
            let v = seq!['='] + if on {
                "on"@
            } else {
                "off"@
            };
            &&& rule_word(r, "floating"@ + v) == (Condition { floating: Some(on), ..r })
            &&& rule_word(r, "pseudotile"@ + v) == (Condition { pseudotile: Some(on), ..r })
            &&& rule_word(r, "focus"@ + v) == (Condition { focus: Some(on), ..r })
            &&& rule_word(r, "switchtag"@ + v) == (Condition { switchtag: Some(on), ..r })
            &&& rule_word(r, "tag"@ + seq!['='] + show(n as nat)) == (Condition { tag: Some(n), ..r })
            &&& rule_word(r, "monitor"@ + seq!['='] + name) == (Condition {
                monitor: Some(selector_text(name)),
                ..r
            })
        }),
{
    lemma_keys();
    lemma_values();
    let v = if on {
        "on"@
    } else {
        "off"@
    };
    lemma_word("floating"@, '=', v);
    lemma_word("pseudotile"@, '=', v);
    lemma_word("focus"@, '=', v);
    lemma_word("switchtag"@, '=', v);
    assert("floating"@ + (seq!['='] + v) =~= "floating"@ + seq!['='] + v);
    assert("pseudotile"@ + (seq!['='] + v) =~= "pseudotile"@ + seq!['='] + v);
    assert("focus"@ + (seq!['='] + v) =~= "focus"@ + seq!['='] + v);
    assert("switchtag"@ + (seq!['='] + v) =~= "switchtag"@ + seq!['='] + v);
    law_unsigned_round_trip(n as nat, u32::MAX as int);
    law_show_reads_back(n as nat);
    lemma_word("tag"@, '=', show(n as nat));
    lemma_word("monitor"@, '=', name);
}

/// The keys of a rule differ, and none holds a sign.
proof fn lemma_keys()
    ensures
        "app_id"@.len() == 6 && "class"@.len() == 5 && "instance"@.len() == 8 && "title"@.len() == 5,
        "tag"@.len() == 3 && "monitor"@.len() == 7 && "floating"@.len() == 8 && "pseudotile"@.len() == 10,
        "focus"@.len() == 5 && "switchtag"@.len() == 9 && "dock"@.len() == 4,
        "class"@[0] == 'c' && "title"@[0] == 't' && "focus"@[0] == 'f',
        "instance"@[0] == 'i' && "floating"@[0] == 'f',
        plain("tag"@) && plain("monitor"@) && plain("floating"@) && plain("pseudotile"@),
        plain("focus"@) && plain("switchtag"@),
{
    reveal_strlit("app_id");
    reveal_strlit("class");
    reveal_strlit("instance");
    reveal_strlit("title");
    reveal_strlit("tag");
    reveal_strlit("monitor");
    reveal_strlit("floating");
    reveal_strlit("pseudotile");
    reveal_strlit("focus");
    reveal_strlit("switchtag");
    reveal_strlit("dock");
}

/// What says yes and what says no differ, and neither holds a sign.
proof fn lemma_values()
    ensures
        plain("on"@) && plain("off"@),
        "on"@.len() == 2 && "off"@.len() == 3 && "true"@.len() == 4 && "1"@.len() == 1,
{
    reveal_strlit("on");
    reveal_strlit("off");
    reveal_strlit("true");
    reveal_strlit("1");
}

/// Each word of a rule adds to what the words before it say.
pub proof fn law_words_add(words: Seq<Text>, word: Text)
    ensures
        rule_of(words.push(word)) == rule_word(rule_of(words), word),
{
    assert(words.push(word).drop_last() =~= words);
}

// --- what rules do ----------------------------------------------------------------------

/// A rule that is not for a window changes nothing of what is said of it. What a rule that
/// is for it says holds, whatever the rules before it say, and what it does not speak of
/// stays. A monitor counts before a tag where there is such a monitor.
pub proof fn law_last_rule_counts(
    rules: Seq<Condition>,
    r: Condition,
    list: Seq<Screen>,
    app: Option<Text>,
    title: Option<Text>,
    tag: TagId,
)
    ensures
        ({
            let before = judged(rules, list, app, title, tag);
            let o = judged(rules.push(r), list, app, title, tag);
            if !rule_matches(r, app, title) {
                o == before
            } else {
                &&& r.floating is Some ==> o.floating == r.floating
                &&& r.floating is None ==> o.floating == before.floating
                &&& r.pseudotile is Some ==> o.pseudotile == r.pseudotile
                &&& r.pseudotile is None ==> o.pseudotile == before.pseudotile
                &&& r.focus is Some ==> Some(o.focus) == r.focus
                &&& r.focus is None ==> o.focus == before.focus
                &&& r.switchtag is Some ==> Some(o.switchtag) == r.switchtag
                &&& r.switchtag is None ==> o.switchtag == before.switchtag
                &&& r.dock is Some ==> o.dock == r.dock
                &&& r.dock is None ==> o.dock == before.dock
                &&& r.monitor is None && r.tag is Some ==> Some(o.tag) == r.tag
                &&& r.monitor is None && r.tag is None ==> o.tag == before.tag
                &&& r.monitor is Some && find_screen(list, r.monitor->0) is Some ==> o.tag == list[find_screen(
                    list,
                    r.monitor->0,
                )->0].tag
                &&& r.monitor is Some && find_screen(list, r.monitor->0) is None && r.tag is Some ==> Some(o.tag)
                    == r.tag
            }
        }),
{
    assert(rules.push(r).drop_last() =~= rules);
}

/// Without rules, nothing is said of a window.
pub proof fn law_no_rules(list: Seq<Screen>, app: Option<Text>, title: Option<Text>, tag: TagId)
    ensures
        ({
            let o = judged(Seq::empty(), list, app, title, tag);
            o.tag == tag && o.floating is None && o.pseudotile is None && !o.focus && !o.switchtag && o.dock is None
        }),
{
}

/// The window that is put in the place of one of its number is the one that is found there.
pub proof fn lemma_found(w: World, id: WinId, x: Window)
    requires
        x.id == id,
    ensures
        w.with_win(id, x).has_win(id) == w.has_win(id),
        w.has_win(id) ==> w.with_win(id, x).win(id) == x,
{
    lemma_win_place(w.windows, id);
    let v = w.with_win(id, x);
    lemma_win_place(v.windows, id);
    let p = win_place(w.windows, id);
    let q = win_place(v.windows, id);
    if w.has_win(id) {
        if q < p {
            assert(v.windows[q] == w.windows[q]);
        }
        if p < q {
            assert(v.windows[p].id != id);
        }
    }
}

/// The focus changes no more of a window than its height and its urgency.
pub proof fn lemma_focus_keeps(w: World, id: WinId)
    requires
        w.has_win(id),
        w.win(id).id == id,
    ensures
        focus_win(w, id).has_win(id),
        ({
            let x = focus_win(w, id).win(id);
            x == (Window { urgent: false, raise_seq: x.raise_seq, ..w.win(id) })
        }),
{
    let calm = Window { urgent: false, ..w.win(id) };
    lemma_found(w, id, calm);
    lemma_found(w, id, Window { raise_seq: w.next_raise, ..calm });
}

/// A window that starts to float changes no more than where it is and its height.
pub proof fn lemma_float_keeps(w: World, id: WinId, geo: Rect)
    requires
        w.has_win(id),
        w.win(id).id == id,
    ensures
        ({
            let v = w.make_floating(id, geo);
            let y = v.win(id);
            &&& v.has_win(id)
            &&& y == (Window { floating: true, float_geo: y.float_geo, raise_seq: y.raise_seq, ..w.win(id) })
        }),
{
    lemma_found(w, id, Window { floating: true, float_geo: geo, raise_seq: w.next_raise, ..w.win(id) });
}

/// A window that becomes a bar floats no more.
pub proof fn lemma_dock_keeps(w: World, id: WinId, anchor: DockAnchor)
    requires
        w.has_win(id),
        w.win(id).id == id,
    ensures
        ({
            let v = w.make_dock(id, anchor);
            let y = v.win(id);
            &&& v.has_win(id)
            &&& y == (Window {
                dock: Some(anchor),
                floating: false,
                float_geo: y.float_geo,
                raise_seq: y.raise_seq,
                ..w.win(id)
            })
        }),
{
    let p = win_place(w.windows, id);
    lemma_win_place(w.windows, id);
    let new = w.make_dock(id, anchor).windows[p];
    lemma_found(w, id, new);
    assert(w.make_dock(id, anchor).windows == w.with_win(id, new).windows);
}

proof fn lemma_placed(w: World, id: WinId, old_tag: TagId, o: RuleOutcome)
    requires
        w.has_win(id),
        w.win(id).id == id,
    ensures
        ({
            let v = placed_by_rules(w, id, old_tag, o);
            let r = ruled(w.win(id), o);
            let y = v.win(id);
            &&& v.has_win(id)
            &&& y == (Window {
                floating: r.floating && o.dock is None,
                float_geo: y.float_geo,
                raise_seq: y.raise_seq,
                ..r
            })
        }),
{
    let r = ruled(w.win(id), o);
    let w1 = w.with_win(id, r);
    lemma_found(w, id, r);
    let w2 = if o.tag != old_tag {
        w1.without_leaf(old_tag, id).with_leaf(o.tag, id)
    } else {
        w1
    };
    assert(w2.has_win(id) && w2.win(id) == r);
    let w3 = if r.floating {
        w2.make_floating(id, w2.default_float_geo())
    } else {
        w2
    };
    lemma_float_keeps(w2, id, w2.default_float_geo());
    match o.dock {
        Some(anchor) => {
            lemma_dock_keeps(w3, id, anchor);
        },
        None => {},
    }
}

/// The rules are applied to a window once, as soon as there are any, and make it what the
/// rules that are for it say: it goes to the tag, floats or does not, keeps its own size,
/// becomes a bar. A bar does not float.
pub proof fn law_ruled(w: World, id: WinId)
    requires
        w.wf(),
        w.has_win(id),
        w.rules.len() > 0,
        !w.win(id).rules_applied,
    ensures
        ({
            let x = w.win(id);
            let o = judged(w.rules, w.desk.list, x.app_id.deep_view(), x.title.deep_view(), x.tag);
            let v = reapply_rules(w, id);
            let y = v.win(id);
            &&& v.has_win(id)
            &&& y.rules_applied
            &&& y.id == x.id && y.title == x.title && y.app_id == x.app_id
            &&& y.tag == o.tag
            &&& y.dock == o.dock
            &&& o.dock is None && o.floating is Some ==> y.floating == o.floating->0
            &&& o.dock is None && o.floating is None ==> y.floating == x.floating
            &&& o.dock is Some ==> !y.floating
            &&& o.pseudotile is Some ==> y.pseudotile == o.pseudotile->0
            &&& o.pseudotile is None ==> y.pseudotile == x.pseudotile
            &&& reapply_rules(v, id) == v
        }),
{
    lemma_win_place(w.windows, id);
    let x = w.win(id);
    let o = verdict(w, x);
    lemma_placed(w, id, x.tag, o);
    let w4 = placed_by_rules(w, id, x.tag, o);
    let w5 = if o.switchtag {
        World { desk: w4.desk.show(o.tag), ..w4 }
    } else {
        w4
    };
    assert(w5.has_win(id) && w5.win(id) == w4.win(id));
    if o.focus {
        lemma_focus_keeps(w5, id);
    }
}

// --- the pointer ------------------------------------------------------------------------

/// While a window is resized with the pointer, its lower right corner goes as the pointer
/// does and its upper left corner stays, down to a width of 60 and a height of 40.
pub proof fn law_resized_by_pointer(op: PointerOp, dx: int, dy: int)
    requires
        op.resize,
        op.start_geo.w + dx <= i32::MAX,
        op.start_geo.h + dy <= i32::MAX,
    ensures
        ({
            let g = op.start_geo;
            let r = op_moved(op, dx, dy);
            &&& r.x == g.x && r.y == g.y
            &&& g.w + dx >= 60 ==> r.x + r.w == g.x + g.w + dx
            &&& g.w + dx < 60 ==> r.w == 60
            &&& g.h + dy >= 40 ==> r.y + r.h == g.y + g.h + dy
            &&& g.h + dy < 40 ==> r.h == 40
        }),
{
}

/// While a window is moved with the pointer, all of its corners go as the pointer does.
pub proof fn law_moved_by_pointer(op: PointerOp, dx: int, dy: int)
    requires
        !op.resize,
        i32::MIN <= op.start_geo.x + dx <= i32::MAX,
        i32::MIN <= op.start_geo.y + dy <= i32::MAX,
    ensures
        ({
            let g = op.start_geo;
            let r = op_moved(op, dx, dy);
            &&& r.x == g.x + dx && r.x + r.w == g.x + g.w + dx
            &&& r.y == g.y + dy && r.y + r.h == g.y + g.h + dy
        }),
{
}

/// A pointer that has not gone anywhere leaves the window where it was, unless that is
/// too small to be resized to.
pub proof fn law_pointer_back(op: PointerOp)
    requires
        op.resize ==> op.start_geo.w >= 60 && op.start_geo.h >= 40,
    ensures
        op_moved(op, 0, 0) == op.start_geo,
{
}

/// A seat that starts to move or resize takes the window under the pointer, from where that
/// is; the window floats there from then on.
pub proof fn law_op_takes_window(w: World, starts: Seq<(usize, bool)>, seat: usize, resize: bool)
    requires
        w.wf(),
        w.pointer_focus is Some,
    ensures
        ({
            let id = w.pointer_focus->0;
            let v = ops_started(w, starts).0;
            let u = ops_started(w, starts.push((seat, resize))).0;
            &&& u.op is Some
            &&& u.op->0.win == id
            &&& u.op->0.resize == resize
            &&& value_of(w.last_rects, id) matches Some(r) ==> u.op->0.start_geo == r
            &&& u.has_win(id) == w.has_win(id)
            &&& v.has_win(id) && !v.win(id).floating ==> u.win(id).floating && u.win(id).float_geo
                == u.op->0.start_geo
            &&& v.has_win(id) && v.win(id).floating ==> u.win(id) == v.win(id)
        }),
    decreases starts.len(),
{
    let id = w.pointer_focus->0;
    assert(starts.push((seat, resize)).drop_last() =~= starts);
    lemma_ops_keep(w, starts);
    let v = ops_started(w, starts).0;
    lemma_win_place(v.windows, id);
    if v.has_win(id) {
        let geo = op_geo(v, id);
        lemma_found(v, id, Window { floating: true, float_geo: geo, raise_seq: v.next_raise, ..v.win(id) });
    }
}

proof fn lemma_ops_keep(w: World, starts: Seq<(usize, bool)>)
    requires
        w.pointer_focus is Some,
    ensures
        ops_started(w, starts).0.last_rects == w.last_rects,
        ops_started(w, starts).0.pointer_focus == w.pointer_focus,
        ops_started(w, starts).0.pointer_pos == w.pointer_pos,
        ops_started(w, starts).0.has_win(w.pointer_focus->0) == w.has_win(w.pointer_focus->0),
    decreases starts.len(),
{
    if starts.len() > 0 {
        lemma_ops_keep(w, starts.drop_last());
        let id = w.pointer_focus->0;
        let v = ops_started(w, starts.drop_last()).0;
        lemma_win_place(v.windows, id);
        if v.has_win(id) {
            let geo = op_geo(v, id);
            lemma_found(v, id, Window { floating: true, float_geo: geo, raise_seq: v.next_raise, ..v.win(id) });
        }
    }
}

/// Once a seat ends it, no window follows the pointer; until then it does.
pub proof fn law_op_ends(w: World, ends: Seq<usize>)
    ensures
        ends.len() > 0 ==> ops_ended(w, ends).0.op is None,
        ends.len() == 0 ==> ops_ended(w, ends).0 == w,
        ops_ended(w, ends).0.windows == w.windows,
{
}

} // verus!
