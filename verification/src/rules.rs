//! Rules for new windows.

use vstd::prelude::*;
use crate::monitor::{find_screen, selector_text, MonitorSel, Monitors, Screen, Selector, TagId};
use crate::number::{show, u64_text};
use crate::reply::{is_yes, ok, ok_text, parse_bool, parse_tag, tag_text, three, two};
use crate::cmd_window::{
    dock_text, focus_win, focus_window_by_id, parse_dock, take_leaf,
};
use crate::frame::WinId;
use crate::state::{lemma_tree_wf, lemma_with_tree_wf, State, Window, World};
use crate::text::{
    chars_of, contains, find_from, has_part, join, join_from, position, same, string_of, Class, Text,
};

verus! {

/// The edge of a monitor that a bar is at.
#[derive(Clone, Copy, Debug, PartialEq, Eq, Structural)]
pub enum DockAnchor {
    Top,
    Bottom,
}

/// A rule: what a window must match, and what is then done with it.
#[derive(Debug)]
pub struct Rule {
    /// What its application must be, or must hold where the flag is false.
    pub app_id: Option<(bool, String)>,
    /// What its title must be, or must hold where the flag is false.
    pub title: Option<(bool, String)>,
    pub tag: Option<TagId>,
    /// The monitor whose tag it goes to.
    pub monitor: Option<MonitorSel>,
    pub floating: Option<bool>,
    pub pseudotile: Option<bool>,
    pub focus: Option<bool>,
    /// Whether the focused monitor switches to its tag.
    pub switchtag: Option<bool>,
    pub dock: Option<DockAnchor>,
}

/// A rule, its strings as texts.
#[verifier::ext_equal]
pub ghost struct Condition {
    pub app_id: Option<(bool, Text)>,
    pub title: Option<(bool, Text)>,
    pub tag: Option<TagId>,
    pub monitor: Option<Selector>,
    pub floating: Option<bool>,
    pub pseudotile: Option<bool>,
    pub focus: Option<bool>,
    pub switchtag: Option<bool>,
    pub dock: Option<DockAnchor>,
}

impl DeepView for Rule {
    type V = Condition;

    open spec fn deep_view(&self) -> Condition {
        Condition {
            app_id: self.app_id.deep_view(),
            title: self.title.deep_view(),
            tag: self.tag,
            monitor: self.monitor.deep_view(),
            floating: self.floating,
            pseudotile: self.pseudotile,
            focus: self.focus,
            switchtag: self.switchtag,
            dock: self.dock,
        }
    }
}

// --- reading a rule --------------------------------------------------------------------

/// A rule that matches every window and does nothing.
pub open spec fn blank_rule() -> Condition {
    Condition {
        app_id: None,
        title: None,
        tag: None,
        monitor: None,
        floating: None,
        pseudotile: None,
        focus: None,
        switchtag: None,
        dock: None,
    }
}

/// A rule with one more word: a key, `=` or `~`, and a value. `~` counts before `=`. A
/// word without either, or with a key that is not known, says nothing.
pub open spec fn rule_word(r: Condition, word: Text) -> Condition {
    let p = position(word, Class::Is('~'));
    let q = position(word, Class::Is('='));
    let loose = p < word.len();
    if !loose && q >= word.len() {
        r
    } else {
        let at = if loose {
            p
        } else {
            q
        };
        let key = word.take(at);
        let v = word.skip(at + 1);
        if key == "app_id"@ || key == "class"@ || key == "instance"@ {
            Condition { app_id: Some((!loose, v)), ..r }
        } else if key == "title"@ {
            Condition { title: Some((!loose, v)), ..r }
        } else if key == "tag"@ {
            Condition { tag: tag_text(v), ..r }
        } else if key == "monitor"@ {
            Condition { monitor: Some(selector_text(v)), ..r }
        } else if key == "floating"@ {
            Condition { floating: Some(is_yes(v)), ..r }
        } else if key == "pseudotile"@ {
            Condition { pseudotile: Some(is_yes(v)), ..r }
        } else if key == "focus"@ {
            Condition { focus: Some(is_yes(v)), ..r }
        } else if key == "switchtag"@ {
            Condition { switchtag: Some(is_yes(v)), ..r }
        } else if key == "dock"@ {
            Condition { dock: dock_text(v), ..r }
        } else {
            r
        }
    }
}

/// The rule that words say.
pub open spec fn rule_of(words: Seq<Text>) -> Condition
    decreases words.len(),
{
    if words.len() == 0 {
        blank_rule()
    } else {
        rule_word(rule_of(words.drop_last()), words.last())
    }
}

/// `rule <word>...`.
pub open spec fn rule(w: World, a: Seq<Text>) -> (World, Text) {
    (World { rules: w.rules.push(rule_of(a)), ..w }, ok_text())
}

impl Rule {
    /// A rule that matches every window and does nothing.
    pub fn new() -> (r: Rule)
        ensures
            r.deep_view() == blank_rule(),
    {
        Rule {
            app_id: None,
            title: None,
            tag: None,
            monitor: None,
            floating: None,
            pseudotile: None,
            focus: None,
            switchtag: None,
            dock: None,
        }
    }

    /// Takes one more word into the rule.
    pub fn take_word(&mut self, word: &str)
        ensures
            final(self).deep_view() == rule_word(old(self).deep_view(), word@),
    {
        let v = chars_of(word);
        assert(v@.skip(0) =~= v@);
        let p: usize = find_from(&v, 0, Class::Is('~'));
        let q: usize = find_from(&v, 0, Class::Is('='));
        let loose: bool = p < v.len();
        if !loose && q == v.len() {
            return;
        }
        let at: usize = if loose { p } else { q };
        let key = string_of(&v, 0, at);
        let val = string_of(&v, at + 1, v.len());
        assert(key@ =~= word@.take(at as int));
        assert(val@ =~= word@.skip(at + 1));
        let k = key.as_str();
        if same(k, "app_id") || same(k, "class") || same(k, "instance") {
            self.app_id = Some((!loose, val));
        } else if same(k, "title") {
            self.title = Some((!loose, val));
        } else if same(k, "tag") {
            self.tag = parse_tag(val.as_str());
        } else if same(k, "monitor") {
            self.monitor = Some(MonitorSel::parse(val.as_str()));
        } else if same(k, "floating") {
            self.floating = Some(parse_bool(val.as_str()));
        } else if same(k, "pseudotile") {
            self.pseudotile = Some(parse_bool(val.as_str()));
        } else if same(k, "focus") {
            self.focus = Some(parse_bool(val.as_str()));
        } else if same(k, "switchtag") {
            self.switchtag = Some(parse_bool(val.as_str()));
        } else if same(k, "dock") {
            self.dock = parse_dock(val.as_str());
        }
    }
}

/// Reads a rule.
pub fn parse_rule(a: &[String]) -> (r: Rule)
    ensures
        r.deep_view() == rule_of(a.deep_view()),
{
    let ghost all = a.deep_view();
    let mut r = Rule::new();
    let mut i: usize = 0;
    assert(all.take(0) =~= Seq::<Text>::empty());
    while i < a.len()
        invariant
            i <= a@.len(),
            all == a.deep_view(),
            r.deep_view() == rule_of(all.take(i as int)),
        decreases a@.len() - i,
    {
        assert(all.take(i + 1).drop_last() =~= all.take(i as int));
        assert(all.take(i + 1).last() == a@[i as int]@);
        r.take_word(a[i].as_str());
        i += 1;
    }
    assert(all.take(i as int) =~= all);
    r
}

pub fn cmd_rule(state: &mut State, a: &[String]) -> (r: String)
    requires
        old(state)@.wf(),
    ensures
        (final(state)@, r@) == rule(old(state)@, a.deep_view()),
        final(state)@.wf(),
{
    let new = parse_rule(a);
    state.rules.push(new);
    assert(state@.rules =~= old(state)@.rules.push(new.deep_view()));
    ok()
}

/// `unrule`: no rules left.
pub open spec fn unrule(w: World) -> (World, Text) {
    (World { rules: Seq::empty(), ..w }, ok_text())
}

pub fn cmd_unrule(state: &mut State) -> (r: String)
    requires
        old(state)@.wf(),
    ensures
        (final(state)@, r@) == unrule(old(state)@),
        final(state)@.wf(),
{
    state.rules.clear();
    assert(state@.rules =~= Seq::empty());
    ok()
}

// --- writing a rule --------------------------------------------------------------------

/// A text in quotation marks, with what cannot be seen in it written out: what `{:?}`
/// writes of a string.
pub uninterp spec fn quoted(s: Seq<char>) -> Seq<char>;

/// Formats a string with `{:?}`: `str`'s `Debug`, whose output depends on the string
/// alone and is named, not described.
#[verifier::external_body]
pub(crate) fn quote(s: &str) -> (r: String)
    ensures
        r@ == quoted(s@),
{
    format!("{:?}", s)
}

/// A selector in a listing, its name put as `name`.
pub open spec fn selector_label(sel: Selector, name: Text) -> Text {
    match sel {
        Selector::Index(i) => "Index("@ + show(i as nat) + ")"@,
        Selector::Name(_) => "Name("@ + name + ")"@,
    }
}

/// A part of a rule's line, where there is one.
pub open spec fn maybe(here: bool, t: Text) -> Seq<Text> {
    if here {
        seq![t]
    } else {
        Seq::empty()
    }
}

/// How a pattern is matched, as a sign.
pub open spec fn match_sign(exact: bool) -> Text {
    if exact {
        "="@
    } else {
        "~"@
    }
}

/// Yes or no as the words of a switch.
pub open spec fn switch_text(on: bool) -> Text {
    if on {
        "on"@
    } else {
        "off"@
    }
}

/// The parts of a rule's line, a monitor's name put as `name`.
pub open spec fn rule_parts(r: Condition, name: Text) -> Seq<Text> {
    maybe(r.app_id is Some, "app_id"@ + match_sign(r.app_id->Some_0.0) + r.app_id->Some_0.1) + maybe(
        r.title is Some,
        "title"@ + match_sign(r.title->Some_0.0) + r.title->Some_0.1,
    ) + maybe(r.tag is Some, "tag="@ + show(r.tag->0 as nat)) + maybe(
        r.monitor is Some,
        "monitor="@ + selector_label(r.monitor->0, name),
    ) + maybe(r.floating is Some, "floating="@ + switch_text(r.floating->0)) + maybe(
        r.pseudotile is Some,
        "pseudotile="@ + switch_text(r.pseudotile->0),
    ) + maybe(r.focus == Some(true), "focus=on"@) + maybe(
        r.switchtag == Some(true),
        "switchtag=on"@,
    ) + maybe(
        r.dock is Some,
        if r.dock == Some(DockAnchor::Top) {
            "dock=top"@
        } else {
            "dock=bottom"@
        },
    )
}

/// A rule as a line, a monitor's name put as `name`.
pub open spec fn rule_line(r: Condition, name: Text) -> Text {
    join(rule_parts(r, name), " "@)
}

/// The name by which a rule selects a monitor, in quotation marks.
pub open spec fn quoted_name(r: Condition) -> Text {
    match r.monitor {
        Some(Selector::Name(n)) => quoted(n),
        _ => Seq::empty(),
    }
}

fn push_part(parts: &mut Vec<String>, here: bool, part: String)
    ensures
        final(parts).deep_view() == old(parts).deep_view() + maybe(here, part@),
{
    if here {
        parts.push(part);
    }
    assert(parts.deep_view() =~= old(parts).deep_view() + maybe(here, part@));
}

fn pattern_part(key: &str, p: &Option<(bool, String)>) -> (r: String)
    ensures
        p matches Some((exact, v)) ==> r@ == key@ + match_sign(*exact) + v@,
{
    match p {
        Some((exact, v)) => three(
            key,
            if *exact {
                "="
            } else {
                "~"
            },
            v.as_str(),
        ),
        None => String::new(),
    }
}

fn switch_part(key: &str, p: Option<bool>) -> (r: String)
    ensures
        p matches Some(on) ==> r@ == key@ + switch_text(on),
{
    match p {
        Some(on) => two(
            key,
            if on {
                "on"
            } else {
                "off"
            },
        ),
        None => String::new(),
    }
}

impl Rule {
    /// The rule as a line, a monitor's name put as `name`.
    pub fn describe_with(&self, name: &str) -> (r: String)
        ensures
            r@ == rule_line(self.deep_view(), name@),
    {
        let ghost c = self.deep_view();
        let mut parts: Vec<String> = Vec::new();
        assert(parts.deep_view() =~= Seq::<Text>::empty());
        push_part(&mut parts, self.app_id.is_some(), pattern_part("app_id", &self.app_id));
        push_part(&mut parts, self.title.is_some(), pattern_part("title", &self.title));
        let tag: String = match self.tag {
            Some(t) => two("tag=", u64_text(t as u64).as_str()),
            None => String::new(),
        };
        push_part(&mut parts, self.tag.is_some(), tag);
        let monitor: String = match &self.monitor {
            Some(MonitorSel::Index(i)) => two(
                "monitor=",
                three("Index(", u64_text(*i as u64).as_str(), ")").as_str(),
            ),
            Some(MonitorSel::Name(_)) => two("monitor=", three("Name(", name, ")").as_str()),
            None => String::new(),
        };
        push_part(&mut parts, self.monitor.is_some(), monitor);
        push_part(&mut parts, self.floating.is_some(), switch_part("floating=", self.floating));
        push_part(&mut parts, self.pseudotile.is_some(), switch_part("pseudotile=", self.pseudotile));
        let focus: bool = match self.focus {
            Some(on) => on,
            None => false,
        };
        push_part(&mut parts, focus, "focus=on".to_owned());
        let switchtag: bool = match self.switchtag {
            Some(on) => on,
            None => false,
        };
        push_part(&mut parts, switchtag, "switchtag=on".to_owned());
        let dock: &str = match self.dock {
            Some(DockAnchor::Bottom) => "dock=bottom",
            _ => "dock=top",
        };
        push_part(&mut parts, self.dock.is_some(), dock.to_owned());
        assert(parts.deep_view() =~= rule_parts(c, name@));
        assert(parts.deep_view().skip(0) =~= parts.deep_view());
        join_from(parts.as_slice(), 0, " ")
    }

    /// The rule as a line.
    pub fn describe(&self) -> (r: String)
        ensures
            r@ == rule_line(self.deep_view(), quoted_name(self.deep_view())),
    {
        let name: String = match &self.monitor {
            Some(MonitorSel::Name(n)) => quote(n.as_str()),
            _ => String::new(),
        };
        self.describe_with(name.as_str())
    }
}

// --- applying rules ----------------------------------------------------------------------

/// Whether a text is the pattern, or holds it.
pub open spec fn field_matches(value: Option<Text>, exact: bool, pat: Text) -> bool {
    match value {
        Some(v) => if exact {
            v == pat
        } else {
            has_part(v, pat)
        },
        None => false,
    }
}

/// Whether a string is the pattern, or holds it.
pub fn match_field(value: &Option<String>, exact: bool, pat: &str) -> (r: bool)
    ensures
        r == field_matches(value.deep_view(), exact, pat@),
{
    match value {
        Some(v) => if exact {
            same(v.as_str(), pat)
        } else {
            contains(v.as_str(), pat)
        },
        None => false,
    }
}

/// Whether a rule is for a window of the application and title.
pub open spec fn rule_matches(r: Condition, app_id: Option<Text>, title: Option<Text>) -> bool {
    (r.app_id is Some ==> field_matches(app_id, r.app_id->Some_0.0, r.app_id->Some_0.1)) && (r.title
        is Some ==> field_matches(title, r.title->Some_0.0, r.title->Some_0.1))
}

/// What rules say of a window.
#[derive(Clone, Copy, Debug)]
pub struct RuleOutcome {
    pub tag: TagId,
    pub floating: Option<bool>,
    pub pseudotile: Option<bool>,
    pub focus: bool,
    pub switchtag: bool,
    pub dock: Option<DockAnchor>,
}

/// What one more rule makes of what the rules before it say. A monitor counts after a
/// tag.
pub open spec fn rule_says(r: Condition, list: Seq<Screen>, o: RuleOutcome) -> RuleOutcome {
    let named = match r.tag {
        Some(t) => t,
        None => o.tag,
    };
    RuleOutcome {
        tag: match r.monitor {
            Some(sel) => match find_screen(list, sel) {
                Some(i) => list[i].tag,
                None => named,
            },
            None => named,
        },
        floating: if r.floating is Some {
            r.floating
        } else {
            o.floating
        },
        pseudotile: if r.pseudotile is Some {
            r.pseudotile
        } else {
            o.pseudotile
        },
        focus: match r.focus {
            Some(f) => f,
            None => o.focus,
        },
        switchtag: match r.switchtag {
            Some(s) => s,
            None => o.switchtag,
        },
        dock: if r.dock is Some {
            r.dock
        } else {
            o.dock
        },
    }
}

/// What the rules say of a window, the later ones over the earlier.
pub open spec fn judged(
    rules: Seq<Condition>,
    list: Seq<Screen>,
    app_id: Option<Text>,
    title: Option<Text>,
    tag: TagId,
) -> RuleOutcome
    decreases rules.len(),
{
    if rules.len() == 0 {
        RuleOutcome {
            tag,
            floating: None,
            pseudotile: None,
            focus: false,
            switchtag: false,
            dock: None,
        }
    } else {
        let o = judged(rules.drop_last(), list, app_id, title, tag);
        if rule_matches(rules.last(), app_id, title) {
            rule_says(rules.last(), list, o)
        } else {
            o
        }
    }
}

/// What the rules of the state say of a window; a bar never takes the focus.
pub open spec fn verdict(w: World, win: Window) -> RuleOutcome {
    let o = judged(
        w.rules,
        w.desk.list,
        win.app_id.deep_view(),
        win.title.deep_view(),
        win.tag,
    );
    RuleOutcome { focus: o.focus && o.dock is None, ..o }
}

/// A window as the rules want it.
pub open spec fn ruled(win: Window, o: RuleOutcome) -> Window {
    Window {
        tag: o.tag,
        floating: match o.floating {
            Some(f) => f,
            None => win.floating,
        },
        pseudotile: match o.pseudotile {
            Some(p) => p,
            None => win.pseudotile,
        },
        dock: o.dock,
        rules_applied: true,
        ..win
    }
}

/// Takes one more rule into account.
fn apply_one(r: &Rule, monitors: &Monitors, o: RuleOutcome) -> (n: RuleOutcome)
    ensures
        n == rule_says(r.deep_view(), monitors@.list, o),
{
    let mut n = o;
    if let Some(t) = r.tag {
        n.tag = t;
    }
    if let Some(sel) = &r.monitor {
        if let Some(t) = monitors.tag_of(sel) {
            n.tag = t;
        }
    }
    if r.floating.is_some() {
        n.floating = r.floating;
    }
    if r.pseudotile.is_some() {
        n.pseudotile = r.pseudotile;
    }
    if let Some(f) = r.focus {
        n.focus = f;
    }
    if let Some(s) = r.switchtag {
        n.switchtag = s;
    }
    if r.dock.is_some() {
        n.dock = r.dock;
    }
    n
}

impl Rule {
    /// Whether the rule is for a window of the application and title.
    pub fn matches(&self, app_id: &Option<String>, title: &Option<String>) -> (b: bool)
        ensures
            b == rule_matches(self.deep_view(), app_id.deep_view(), title.deep_view()),
    {
        let app: bool = match &self.app_id {
            Some((exact, pat)) => match_field(app_id, *exact, pat.as_str()),
            None => true,
        };
        let named: bool = match &self.title {
            Some((exact, pat)) => match_field(title, *exact, pat.as_str()),
            None => true,
        };
        app && named
    }
}

impl State {
    /// What the rules say of a window.
    pub fn apply_rules(&self, i: usize) -> (r: RuleOutcome)
        requires
            i < self@.windows.len(),
        ensures
            r == verdict(self@, self@.windows[i as int]),
    {
        let ghost all = self@.rules;
        let win = &self.windows[i];
        let ghost app = win.app_id.deep_view();
        let ghost title = win.title.deep_view();
        let mut o = RuleOutcome {
            tag: win.tag,
            floating: None,
            pseudotile: None,
            focus: false,
            switchtag: false,
            dock: None,
        };
        let mut k: usize = 0;
        assert(all.take(0) =~= Seq::<Condition>::empty());
        while k < self.rules.len()
            invariant
                k <= self.rules@.len() == all.len(),
                all == self@.rules,
                i < self@.windows.len(),
                *win == self@.windows[i as int],
                app == win.app_id.deep_view(),
                title == win.title.deep_view(),
                o == judged(all.take(k as int), self@.desk.list, app, title, win.tag),
            decreases self.rules@.len() - k,
        {
            assert(all.take(k + 1).drop_last() =~= all.take(k as int));
            assert(all.take(k + 1).last() == self.rules@[k as int].deep_view());
            if self.rules[k].matches(&win.app_id, &win.title) {
                o = apply_one(&self.rules[k], &self.monitors, o);
            }
            k += 1;
        }
        assert(all.take(k as int) =~= all);
        if o.dock.is_some() {
            o.focus = false;
        }
        o
    }
}

/// A window put where the rules want it.
pub open spec fn placed_by_rules(w: World, id: WinId, old_tag: TagId, o: RuleOutcome) -> World {
    let w1 = w.with_win(id, ruled(w.win(id), o));
    let w2 = if o.tag != old_tag {
        w1.without_leaf(old_tag, id).with_leaf(o.tag, id)
    } else {
        w1
    };
    let w3 = if ruled(w.win(id), o).floating {
        w2.make_floating(id, w2.default_float_geo())
    } else {
        w2
    };
    match o.dock {
        Some(anchor) => w3.make_dock(id, anchor),
        None => w3,
    }
}

/// The rules applied to a window, once: where there are any, and they were not before.
pub open spec fn reapply_rules(w: World, id: WinId) -> World {
    if w.rules.len() == 0 || !w.has_win(id) || w.win(id).rules_applied {
        w
    } else {
        let o = verdict(w, w.win(id));
        let w1 = placed_by_rules(w, id, w.win(id).tag, o);
        let w2 = if o.switchtag {
            World { desk: w1.desk.show(o.tag), ..w1 }
        } else {
            w1
        };
        let w3 = if o.focus {
            focus_win(w2, id)
        } else {
            w2
        };
        w3.manage()
    }
}

/// Inserts a window into a tag's tree.
pub fn give_leaf(state: &mut State, tag: TagId, id: WinId)
    requires
        old(state)@.wf(),
    ensures
        final(state)@ == old(state)@.with_leaf(tag, id),
        final(state)@.wf(),
{
    proof {
        lemma_tree_wf(state@, tag);
        crate::frame_laws::law_insert(state@.tree_or_new(tag), id);
        lemma_with_tree_wf(state@, tag, state@.tree_or_new(tag).insert(id));
    }
    state.tag_tree_mut(tag).insert_window(id);
}

/// Makes a window what the rules want.
fn set_ruled(state: &mut State, id: WinId, o: RuleOutcome)
    requires
        old(state)@.wf(),
    ensures
        final(state)@ == old(state)@.with_win(id, ruled(old(state)@.win(id), o)),
        final(state)@.wf(),
{
    if let Some(w) = state.win_mut(id) {
        w.tag = o.tag;
        if let Some(f) = o.floating {
            w.floating = f;
        }
        if let Some(p) = o.pseudotile {
            w.pseudotile = p;
        }
        w.dock = o.dock;
        w.rules_applied = true;
    }
}

/// Puts a window where the rules want it.
fn place_by_rules(state: &mut State, id: WinId, old_tag: TagId, o: RuleOutcome, floats: bool)
    requires
        old(state)@.wf(),
        old(state)@.has_win(id),
        floats == ruled(old(state)@.win(id), o).floating,
    ensures
        final(state)@ == placed_by_rules(old(state)@, id, old_tag, o),
        final(state)@.wf(),
{
    set_ruled(state, id, o);
    if o.tag != old_tag {
        take_leaf(state, old_tag, id);
        give_leaf(state, o.tag, id);
    }
    if floats {
        let geo = state.default_float_geo();
        state.make_floating(id, geo);
    }
    if let Some(anchor) = o.dock {
        state.make_dock(id, anchor);
    }
}

impl State {
    /// Applies the rules to a window, once.
    pub fn reapply_rules(&mut self, id: WinId)
        requires
            old(self)@.wf(),
        ensures
            final(self)@ == reapply_rules(old(self)@, id),
            final(self)@.wf(),
    {
        if self.rules.len() == 0 {
            return;
        }
        let i: usize = self.find_win(id);
        if i == self.windows.len() || self.windows[i].rules_applied {
            return;
        }
        let old_tag: TagId = self.windows[i].tag;
        let o = self.apply_rules(i);
        let floats: bool = match o.floating {
            Some(f) => f,
            None => self.windows[i].floating,
        };
        place_by_rules(self, id, old_tag, o, floats);
        if o.switchtag {
            self.monitors.show_on_focused(o.tag);
        }
        if o.focus {
            focus_window_by_id(self, id);
        }
        self.request_manage();
    }
}

} // verus!
