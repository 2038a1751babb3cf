//! What is kept of the chosen look is read again as it was.

use vstd::prelude::*;
use crate::config::{
    config_line, config_lines, dir_lines, ended, head_lines, if_some, kind_line, monitors_in_order,
    no_prefs, pref_line, saved_line, saved_lines, saved_place, theme_lines, with_saved,
    written_lines, Kept, Prefs,
};
use crate::number::{is_digit, law_show_reads_back, law_unsigned_round_trip, show};
use crate::table::text_before;
use crate::text::{
    fields, halves, is_white, lemma_first_cut, lemma_position_is, lemma_uncut, lines, trimmed,
    Class, Text,
};

verus! {

/// Whether a text can stand at the end of a line: it is not empty, has no white space
/// around it, and no line end in it.
pub open spec fn plain(t: Text) -> bool {
    t.len() > 0 && !is_white(t[0]) && !is_white(t.last()) && !t.contains('\n')
}

/// Whether a text is a word: it is not empty and has no white space in it.
pub open spec fn word(t: Text) -> bool {
    t.len() > 0 && forall|i: int| 0 <= i < t.len() ==> !is_white(#[trigger] t[i])
}

/// Whether a wallpaper can be written down.
pub open spec fn keepable(e: (Text, Kept)) -> bool {
    word(e.0) && match e.1 {
        Kept::Image { mode, path } => word(mode) && plain(path),
        Kept::Color { color } => plain(color),
    }
}

/// Whether a chosen look can be written down.
pub open spec fn storable(p: Prefs) -> bool {
    &&& p.wf()
    &&& p.dirs.no_duplicates()
    &&& forall|i: int| 0 <= i < p.dirs.len() ==> plain(#[trigger] p.dirs[i])
    &&& forall|i: int| 0 <= i < p.saved.len() ==> keepable(#[trigger] p.saved[i])
    &&& p.icon_theme matches Some(t) ==> plain(t)
    &&& p.cursor_theme matches Some(t) ==> plain(t)
}

/// A plain text has no white space around it.
proof fn lemma_plain(t: Text)
    requires
        plain(t),
    ensures
        trimmed(t) == t,
{
}

/// A line end is white space.
proof fn lemma_word_plain(t: Text)
    requires
        word(t),
    ensures
        plain(t),
{
    if t.contains('\n') {
        let i = choose|i: int| 0 <= i < t.len() && t[i] == '\n';
        assert(is_white(t[i]));
    }
}

/// A line of a word and a plain text is plain, and falls into the two.
proof fn lemma_kind_line(kind: Text, rest: Text)
    requires
        word(kind),
        plain(rest),
    ensures
        plain(kind_line(kind, rest)),
        halves(kind_line(kind, rest), Class::White) == (kind, Some(rest)),
        kind_line(kind, rest)[0] == kind[0],
{
    let l = kind_line(kind, rest);
    assert forall|j: int| 0 <= j < kind.len() implies !Class::White.has(#[trigger] l[j]) by {
        assert(l[j] == kind[j]);
    }
    assert(l[kind.len() as int] == ' ');
    lemma_position_is(l, Class::White, kind.len() as int);
    assert(l.take(kind.len() as int) =~= kind);
    assert(l.skip(kind.len() as int + 1) =~= rest);
    assert(l.last() == rest.last());
    assert(l[0] == kind[0]);
    lemma_word_plain(kind);
    if l.contains('\n') {
        let i = choose|i: int| 0 <= i < l.len() && l[i] == '\n';
        if i < kind.len() {
            assert(kind[i] == '\n');
        } else if i > kind.len() {
            assert(rest[i - kind.len() - 1] == '\n');
        }
    }
}

/// The kinds of lines are words, and none starts a remark.
proof fn lemma_kind_words()
    ensures
        word("dir"@),
        word("saved"@),
        word("saved-color"@),
        word("icon-theme"@),
        word("cursor-theme"@),
        word("cursor-size"@),
        "dir"@[0] != '#',
        "saved"@[0] != '#',
        "saved-color"@[0] != '#',
        "icon-theme"@[0] != '#',
        "cursor-theme"@[0] != '#',
        "cursor-size"@[0] != '#',
{
    reveal_strlit("dir");
    reveal_strlit("saved");
    reveal_strlit("saved-color");
    reveal_strlit("icon-theme");
    reveal_strlit("cursor-theme");
    reveal_strlit("cursor-size");
}

/// A line of a kind says what its rest says.
proof fn lemma_reads(p: Prefs, kind: Text, rest: Text)
    requires
        word(kind),
        kind[0] != '#',
        plain(rest),
    ensures
        config_line(p, kind_line(kind, rest)) == pref_line(p, kind, rest),
{
    lemma_kind_line(kind, rest);
    lemma_plain(kind_line(kind, rest));
    lemma_plain(rest);
}

/// A remark says nothing.
proof fn lemma_remark(p: Prefs, line: Text)
    requires
        plain(line),
        line[0] == '#',
    ensures
        config_line(p, line) == p,
{
    lemma_plain(line);
}

/// The lines at the head are remarks.
proof fn lemma_head()
    ensures
        config_lines(head_lines()) == no_prefs(),
        forall|i: int| 0 <= i < head_lines().len() ==> plain(#[trigger] head_lines()[i]),
{
    lemma_head_first();
    lemma_head_second();
    lemma_head_third();
    let h = head_lines();
    let none = Seq::<Text>::empty();
    assert(h.drop_last().drop_last().drop_last() =~= none);
    lemma_remark(no_prefs(), h[0]);
    lemma_remark(no_prefs(), h[1]);
    lemma_remark(no_prefs(), h[2]);
    assert(config_lines(none) == no_prefs());
    assert(h.drop_last().drop_last().last() == h[0]);
    assert(config_lines(h.drop_last().drop_last()) == no_prefs());
    assert(h.drop_last().last() == h[1]);
    assert(config_lines(h.drop_last()) == no_prefs());
}

proof fn lemma_head_first()
    ensures
        plain("# sommerflusswm wallpaper browser config"@),
        "# sommerflusswm wallpaper browser config"@[0] == '#',
{
    reveal_strlit("# sommerflusswm wallpaper browser config");
    assert("# sommerflusswm wallpaper browser config"@.len() == 40);
    assert(!"# sommerflusswm wallpaper browser config"@.contains('\n'));
}

proof fn lemma_head_second()
    ensures
        plain("# managed by sfwm-appearance; edits are preserved on the"@),
        "# managed by sfwm-appearance; edits are preserved on the"@[0] == '#',
{
    reveal_strlit("# managed by sfwm-appearance; edits are preserved on the");
    assert(!"# managed by sfwm-appearance; edits are preserved on the"@.contains('\n'));
}

proof fn lemma_head_third()
    ensures
        plain("# next save only for recognised directives."@),
        "# next save only for recognised directives."@[0] == '#',
{
    reveal_strlit("# next save only for recognised directives.");
    assert(!"# next save only for recognised directives."@.contains('\n'));
}

// --- lines --------------------------------------------------------------------------------

/// Lines with their ends, and more lines behind them.
proof fn lemma_ended_add(a: Seq<Text>, b: Seq<Text>)
    ensures
        ended(a + b) == ended(a) + ended(b),
    decreases b.len(),
{
    if b.len() == 0 {
        assert(a + b =~= a);
        assert(ended(a) + ended(b) =~= ended(a));
    } else {
        lemma_ended_add(a, b.drop_last());
        assert((a + b).drop_last() =~= a + b.drop_last());
        assert((a + b).last() == b.last());
        assert(ended(a + b) =~= ended(a) + ended(b));
    }
}

/// Where lines with their ends are cut.
proof fn lemma_ended_fields(ls: Seq<Text>)
    requires
        forall|i: int| 0 <= i < ls.len() ==> !(#[trigger] ls[i]).contains('\n'),
    ensures
        fields(ended(ls), Class::Is('\n')) == ls.push(Seq::empty()),
    decreases ls.len(),
{
    let none = Seq::<char>::empty();
    if ls.len() == 0 {
        lemma_uncut(none, '\n');
        assert(ls.push(none) =~= seq![none]);
    } else {
        let rest = ls.drop_first();
        let first = seq![ls[0]];
        assert forall|i: int| 0 <= i < rest.len() implies !(#[trigger] rest[i]).contains('\n') by {
            assert(rest[i] == ls[i + 1]);
        }
        lemma_ended_fields(rest);
        lemma_ended_add(first, rest);
        assert(first + rest =~= ls);
        assert(first.drop_last() =~= Seq::<Text>::empty());
        assert(ended(Seq::<Text>::empty()) =~= none);
        assert(ended(first) =~= ls[0].push('\n'));
        assert(!ls[0].contains('\n'));
        lemma_first_cut(ls[0], '\n', ended(rest));
        assert(first + rest.push(none) =~= ls.push(none));
    }
}

/// Plain lines that are written are read again.
proof fn lemma_lines(ls: Seq<Text>)
    requires
        forall|i: int| 0 <= i < ls.len() ==> plain(#[trigger] ls[i]),
    ensures
        lines(ended(ls)) == ls,
{
    assert forall|i: int| 0 <= i < ls.len() implies !(#[trigger] ls[i]).contains('\n') by {
        assert(plain(ls[i]));
    }
    lemma_ended_fields(ls);
    let parts = ls.push(Seq::empty());
    assert(parts.last() =~= Seq::<char>::empty());
    assert forall|i: int| 0 <= i < ls.len() implies #[trigger] lines(ended(ls))[i] == ls[i] by {
        assert(plain(ls[i]));
        assert(ls[i].last() != '\r');
    }
    assert(lines(ended(ls)) =~= ls);
}

// --- the law ------------------------------------------------------------------------------

/// What lines with one more say.
proof fn lemma_one_more(ls: Seq<Text>, l: Text)
    ensures
        config_lines(ls.push(l)) == config_line(config_lines(ls), l),
{
    assert(ls.push(l).drop_last() =~= ls);
}

/// The lines of the directories say the directories.
proof fn lemma_dirs(p: Prefs, n: int)
    requires
        storable(p),
        0 <= n <= p.dirs.len(),
    ensures
        config_lines(head_lines() + dir_lines(p.dirs.take(n))) == (Prefs {
            dirs: p.dirs.take(n),
            ..no_prefs()
        }),
    decreases n,
{
    if n == 0 {
        lemma_head();
        assert(head_lines() + dir_lines(p.dirs.take(0)) =~= head_lines());
        assert(p.dirs.take(0) =~= Seq::<Text>::empty());
    } else {
        lemma_dirs(p, n - 1);
        let d = p.dirs[n - 1];
        let before = head_lines() + dir_lines(p.dirs.take(n - 1));
        assert(head_lines() + dir_lines(p.dirs.take(n)) =~= before.push(kind_line("dir"@, d)));
        lemma_one_more(before, kind_line("dir"@, d));
        lemma_kind_words();
        assert(plain(d));
        lemma_reads(config_lines(before), "dir"@, d);
        let known = p.dirs.take(n - 1);
        assert(!known.contains(d)) by {
            if known.contains(d) {
                let i = choose|i: int| 0 <= i < known.len() && known[i] == d;
                assert(p.dirs[i] == p.dirs[n - 1]);
            }
        }
        assert(known.push(d) =~= p.dirs.take(n));
    }
}

/// A wallpaper for a monitor whose name comes behind all others goes last.
proof fn lemma_goes_last(s: Seq<(Text, Kept)>, monitor: Text)
    requires
        forall|i: int| 0 <= i < s.len() ==> text_before((#[trigger] s[i]).0, monitor),
    ensures
        saved_place(s, monitor) == s.len(),
    decreases s.len(),
{
    if s.len() > 0 {
        let rest = s.drop_first();
        assert forall|i: int| 0 <= i < rest.len() implies text_before((#[trigger] rest[i]).0, monitor) by {
            assert(rest[i] == s[i + 1]);
        }
        lemma_goes_last(rest, monitor);
        assert(text_before(s[0].0, monitor));
    }
}

/// The line of a wallpaper says the wallpaper.
proof fn lemma_saved_line(p: Prefs, e: (Text, Kept))
    requires
        keepable(e),
    ensures
        plain(saved_line(e)),
        config_line(p, saved_line(e)) == (Prefs { saved: with_saved(p.saved, e.0, e.1), ..p }),
{
    lemma_kind_words();
    crate::config::lemma_kinds();
    match e.1 {
        Kept::Image { mode, path } => {
            lemma_kind_line(mode, path);
            let inner = kind_line(mode, path);
            lemma_kind_line(e.0, inner);
            let rest = kind_line(e.0, inner);
            lemma_kind_line("saved"@, rest);
            lemma_reads(p, "saved"@, rest);
            lemma_plain(path);
        },
        Kept::Color { color } => {
            lemma_kind_line(e.0, color);
            let rest = kind_line(e.0, color);
            lemma_kind_line("saved-color"@, rest);
            lemma_reads(p, "saved-color"@, rest);
            lemma_plain(color);
        },
    }
}

/// The lines of the wallpapers say the wallpapers.
proof fn lemma_saved(p: Prefs, n: int)
    requires
        storable(p),
        0 <= n <= p.saved.len(),
    ensures
        config_lines(head_lines() + dir_lines(p.dirs) + saved_lines(p.saved.take(n))) == (Prefs {
            dirs: p.dirs,
            saved: p.saved.take(n),
            ..no_prefs()
        }),
    decreases n,
{
    let front = head_lines() + dir_lines(p.dirs);
    if n == 0 {
        lemma_dirs(p, p.dirs.len() as int);
        assert(p.dirs.take(p.dirs.len() as int) =~= p.dirs);
        assert(front + saved_lines(p.saved.take(0)) =~= front);
        assert(p.saved.take(0) =~= Seq::<(Text, Kept)>::empty());
    } else {
        lemma_saved(p, n - 1);
        let e = p.saved[n - 1];
        let before = front + saved_lines(p.saved.take(n - 1));
        assert(front + saved_lines(p.saved.take(n)) =~= before.push(saved_line(e)));
        lemma_one_more(before, saved_line(e));
        assert(keepable(e));
        lemma_saved_line(config_lines(before), e);
        let s = p.saved.take(n - 1);
        assert forall|i: int| 0 <= i < s.len() implies text_before((#[trigger] s[i]).0, e.0) by {
            assert(s[i] == p.saved[i]);
        }
        lemma_goes_last(s, e.0);
        assert(with_saved(s, e.0, e.1) =~= p.saved.take(n));
    }
}

/// The line of a setting that is there says it.
proof fn lemma_setting(ls: Seq<Text>, kind: Text, v: Option<Text>)
    requires
        word(kind),
        kind[0] != '#',
        v matches Some(t) ==> plain(t),
    ensures
        config_lines(ls + if_some(kind, v)) == match v {
            Some(t) => pref_line(config_lines(ls), kind, t),
            None => config_lines(ls),
        },
{
    match v {
        Some(t) => {
            assert(ls + if_some(kind, v) =~= ls.push(kind_line(kind, t)));
            lemma_one_more(ls, kind_line(kind, t));
            lemma_reads(config_lines(ls), kind, t);
        },
        None => {
            assert(ls + if_some(kind, v) =~= ls);
        },
    }
}

/// A number is plain.
proof fn lemma_number_plain(n: nat)
    ensures
        plain(show(n)),
{
    law_show_reads_back(n);
    let t = show(n);
    assert(is_digit(t[0]) && is_digit(t[t.len() - 1]));
    if t.contains('\n') {
        let i = choose|i: int| 0 <= i < t.len() && t[i] == '\n';
        assert(is_digit(t[i]));
    }
}

/// All lines say all that was chosen.
proof fn lemma_all_said(p: Prefs)
    requires
        storable(p),
    ensures
        config_lines(written_lines(p)) == p,
{
    crate::config::lemma_kinds();
    lemma_kind_words();
    lemma_saved(p, p.saved.len() as int);
    assert(p.saved.take(p.saved.len() as int) =~= p.saved);
    let front = head_lines() + dir_lines(p.dirs) + saved_lines(p.saved);
    let size = match p.cursor_size {
        Some(n) => Some(show(n as nat)),
        None => None,
    };
    if let Some(n) = p.cursor_size {
        lemma_number_plain(n as nat);
        law_unsigned_round_trip(n as nat, u32::MAX as int);
    }
    let a = front + if_some("icon-theme"@, p.icon_theme);
    let b = a + if_some("cursor-theme"@, p.cursor_theme);
    lemma_setting(front, "icon-theme"@, p.icon_theme);
    lemma_setting(a, "cursor-theme"@, p.cursor_theme);
    lemma_setting(b, "cursor-size"@, size);
    assert(written_lines(p) =~= b + if_some("cursor-size"@, size));
}

/// All lines are plain.
proof fn lemma_all_plain(p: Prefs)
    requires
        storable(p),
    ensures
        forall|i: int| 0 <= i < written_lines(p).len() ==> plain(#[trigger] written_lines(p)[i]),
{
    lemma_kind_words();
    lemma_head();
    if let Some(n) = p.cursor_size {
        lemma_number_plain(n as nat);
        lemma_kind_line("cursor-size"@, show(n as nat));
    }
    if let Some(t) = p.icon_theme {
        lemma_kind_line("icon-theme"@, t);
    }
    if let Some(t) = p.cursor_theme {
        lemma_kind_line("cursor-theme"@, t);
    }
    let w = written_lines(p);
    let h = head_lines().len();
    let d = dir_lines(p.dirs).len();
    let s = saved_lines(p.saved).len();
    assert forall|i: int| 0 <= i < w.len() implies plain(#[trigger] w[i]) by {
        if i < h {
            assert(w[i] == head_lines()[i]);
        } else if i < h + d {
            assert(plain(p.dirs[i - h]));
            lemma_kind_line("dir"@, p.dirs[i - h]);
            assert(w[i] == dir_lines(p.dirs)[i - h]);
        } else if i < h + d + s {
            assert(keepable(p.saved[i - h - d]));
            lemma_saved_line(no_prefs(), p.saved[i - h - d]);
            assert(w[i] == saved_lines(p.saved)[i - h - d]);
        } else {
            let j = i - h - d - s;
            assert(w[i] == theme_lines(p)[j]);
        }
    }
}

/// What is written down is read again as it was: where the directories and the themes are
/// plain, the monitors and the modes are words, and no directory is there twice.
pub proof fn law_kept(p: Prefs)
    requires
        storable(p),
    ensures
        config_lines(lines(ended(written_lines(p)))) == p,
{
    lemma_all_plain(p);
    lemma_lines(written_lines(p));
    lemma_all_said(p);
}

/// The last wallpaper that was kept for a monitor counts; those of others stay.
pub proof fn law_last_counts(s: Seq<(Text, Kept)>, monitor: Text, a: Kept, b: Kept)
    requires
        monitors_in_order(s),
    ensures
        with_saved(with_saved(s, monitor, a), monitor, b) == with_saved(s, monitor, b),
{
    crate::config::lemma_saved_place(s, monitor);
    let at = saved_place(s, monitor);
    let t = with_saved(s, monitor, a);
    crate::config::lemma_saved_place(t, monitor);
    let q = saved_place(t, monitor);
    crate::order::lemma_not_itself(monitor);
    assert(t[at].0 == monitor);
    if q < at {
        assert(t[q] == s[q]);
        assert(text_before(s[q].0, monitor));
    }
    if q > at {
        assert(text_before(t[at].0, monitor));
    }
    assert(with_saved(t, monitor, b) =~= with_saved(s, monitor, b));
}

} // verus!
