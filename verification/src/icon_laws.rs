//! What a search for an icon comes to, on a disk that does not change meanwhile.

use vstd::prelude::*;
use crate::icon_theme::{clues_of, index_of, next_base, onward, started, told, Clue, Heard, Hunt, Pending, Wish};
use crate::text::Text;

verus! {

/// What is on the disk: the text of each file that can be read, and which files are
/// there.
pub ghost struct Disk {
    pub text: spec_fn(Text) -> Option<Text>,
    pub there: spec_fn(Text) -> bool,
}

impl Disk {
    /// What a search is told that asks for this.
    pub open spec fn answer(self, wish: Wish) -> Heard {
        match wish {
            Wish::Read(p) => Heard::Text((self.text)(p)),
            Wish::Probe(p) => Heard::Exists((self.there)(p)),
            _ => Heard::Exists(false),
        }
    }

    /// All the themes that a description on the disk names are among `themes`, and so is
    /// the one that all fall back on. A disk with finitely many files has such a set.
    pub open spec fn names_only(self, themes: Set<Text>) -> bool {
        &&& themes.finite()
        &&& themes.contains("hicolor"@)
        &&& forall|p: Text, k: int|
            (self.text)(p) is Some && index_of((self.text)(p)->0) is Some && 0 <= k < index_of(
                (self.text)(p)->0,
            )->0.inherits.len() ==> themes.contains(
                #[trigger] index_of((self.text)(p)->0)->0.inherits[k],
            )
    }
}

/// A search and what it asks for, after that many more answers.
pub open spec fn after_answers(d: Disk, s: (Hunt, Wish), n: nat) -> (Hunt, Wish)
    decreases n,
{
    if n == 0 || s.1 is Found || s.1 is Missing {
        s
    } else {
        after_answers(d, told(s.0, d.answer(s.1)), (n - 1) as nat)
    }
}

/// Whether the search has ended with a file, or with none.
pub open spec fn comes_to(wish: Wish, r: Option<Text>) -> bool {
    match r {
        Some(f) => wish == Wish::Found(f),
        None => wish is Missing,
    }
}

/// Whether a search ends with a file, or with none.
pub open spec fn ends(d: Disk, s: (Hunt, Wish), r: Option<Text>) -> bool {
    exists|n: nat| comes_to((#[trigger] after_answers(d, s, n)).1, r)
}

/// What a search finds.
pub open spec fn found(d: Disk, s: (Hunt, Wish)) -> Option<Text> {
    choose|r: Option<Text>| ends(d, s, r)
}

/// What the search for an icon of one name finds.
pub open spec fn icon_found(d: Disk, theme: Text, name: Text, bases: Seq<Text>, target: i32) -> Option<
    Text,
> {
    found(d, onward(started(theme, seq![name], bases, target)))
}

/// What is found for the first of the names for which anything is.
pub open spec fn first_found(
    d: Disk,
    theme: Text,
    names: Seq<Text>,
    bases: Seq<Text>,
    target: i32,
) -> Option<Text>
    decreases names.len(),
{
    if names.len() == 0 {
        None
    } else {
        match icon_found(d, theme, names[0], bases, target) {
            Some(f) => Some(f),
            None => first_found(d, theme, names.drop_first(), bases, target),
        }
    }
}

proof fn lemma_stays(d: Disk, s: (Hunt, Wish), n: nat, m: nat)
    requires
        n <= m,
        after_answers(d, s, n).1 is Found || after_answers(d, s, n).1 is Missing,
    ensures
        after_answers(d, s, m) == after_answers(d, s, n),
    decreases n,
{
    if n > 0 && !(s.1 is Found || s.1 is Missing) {
        lemma_stays(d, told(s.0, d.answer(s.1)), (n - 1) as nat, (m - 1) as nat);
    }
}

/// A search ends in one way only.
proof fn lemma_one_end(d: Disk, s: (Hunt, Wish), a: Option<Text>, b: Option<Text>)
    requires
        ends(d, s, a),
        ends(d, s, b),
    ensures
        a == b,
{
    let n = choose|n: nat| comes_to((#[trigger] after_answers(d, s, n)).1, a);
    let m = choose|m: nat| comes_to((#[trigger] after_answers(d, s, m)).1, b);
    if n <= m {
        lemma_stays(d, s, n, m);
    } else {
        lemma_stays(d, s, m, n);
    }
}

proof fn lemma_one_more(d: Disk, s: (Hunt, Wish), r: Option<Text>)
    requires
        !(s.1 is Found || s.1 is Missing),
        ends(d, told(s.0, d.answer(s.1)), r),
    ensures
        ends(d, s, r),
{
    let t = told(s.0, d.answer(s.1));
    let n = choose|n: nat| comes_to((#[trigger] after_answers(d, t, n)).1, r);
    assert(after_answers(d, s, n + 1) == after_answers(d, t, n));
}

// --- a search ends ------------------------------------------------------------------------

/// How many of the themes were not looked at.
spec fn unseen(themes: Set<Text>, h: Hunt) -> nat {
    themes.difference(h.visited.to_set()).len()
}

/// How many places may still be asked for the description that is waited for.
spec fn tries(h: Hunt) -> nat {
    match h.pending {
        Pending::Index { theme, tried } => if tried < h.bases.len() {
            (h.bases.len() - tried) as nat
        } else {
            0
        },
        _ => 0,
    }
}

/// Whether a file is waited for.
spec fn probing(h: Hunt) -> nat {
    if h.pending is File {
        1
    } else {
        0
    }
}

/// Whether less is left to do for one search than for another.
spec fn nearer(themes: Set<Text>, a: Hunt, b: Hunt) -> bool {
    ||| a.names.len() < b.names.len()
    ||| a.names.len() == b.names.len() && {
        ||| unseen(themes, a) < unseen(themes, b)
        ||| unseen(themes, a) == unseen(themes, b) && {
            ||| tries(a) < tries(b)
            ||| tries(a) == tries(b) && {
                ||| a.clues.len() < b.clues.len()
                ||| a.clues.len() == b.clues.len() && probing(a) < probing(b)
            }
        }
    }
}

/// All the themes that a search is to look at are among `themes`.
spec fn within(themes: Set<Text>, h: Hunt) -> bool {
    &&& h.wf()
    &&& themes.contains(h.theme)
    &&& forall|i: int| 0 <= i < h.clues.len() ==> ((#[trigger] h.clues[i]) matches Clue::Theme(t)
        ==> themes.contains(t))
}

proof fn lemma_onward(themes: Set<Text>, h: Hunt)
    requires
        themes.finite(),
        within(themes, h),
    ensures
        within(themes, onward(h).0),
        onward(h).0 == h || onward(h).1 is Missing || nearer(themes, onward(h).0, h),
        h.pending is Nothing && onward(h).0 == h ==> onward(h).1 is Missing,
        onward(h).1 is Read && onward(h).0.pending is Index || onward(h).1 is Probe && onward(
            h,
        ).0.pending is File || onward(h).1 is Missing,
    decreases h.names.len(), h.clues.len(),
{
    if h.pending is Nothing {
        if h.clues.len() == 0 {
            if h.names.len() > 0 {
                let g = Hunt {
                    icon: h.names[0],
                    names: h.names.drop_first(),
                    visited: Seq::empty(),
                    clues: seq![Clue::Theme(h.theme)],
                    ..h
                };
                lemma_onward(themes, g);
            }
        } else {
            let rest = Hunt { clues: h.clues.drop_first(), ..h };
            assert forall|i: int| 0 <= i < rest.clues.len() implies ((#[trigger] rest.clues[i]) matches Clue::Theme(
                t,
            ) ==> themes.contains(t)) by {
                assert(rest.clues[i] == h.clues[i + 1]);
            }
            match h.clues[0] {
                Clue::File(f) => {},
                Clue::Theme(t) => {
                    if h.visited.contains(t) {
                        lemma_onward(themes, rest);
                    } else {
                        let seen = h.visited.push(t);
                        assert(seen.to_set() =~= h.visited.to_set().insert(t)) by {
                            assert forall|x: Text| seen.contains(x) <==> h.visited.contains(x) || x
                                == t by {
                                if h.visited.contains(x) {
                                    let i = choose|i: int| 0 <= i < h.visited.len() && h.visited[i] == x;
                                    assert(seen[i] == x);
                                }
                                assert(seen[h.visited.len() as int] == t);
                            }
                        }
                        assert(seen[h.visited.len() as int] == t);
                        let left = themes.difference(h.visited.to_set());
                        assert(left.contains(t));
                        assert(themes.difference(seen.to_set()) =~= left.remove(t));
                        let g = Hunt { visited: seen, ..rest };
                        if h.bases.len() == 0 {
                            lemma_onward(themes, g);
                        }
                    }
                },
            }
        }
    }
}

/// A search that asks for something waits for it.
spec fn asking(s: (Hunt, Wish)) -> bool {
    s.1 is Read && s.0.pending is Index || s.1 is Probe && s.0.pending is File
}

proof fn lemma_told(d: Disk, themes: Set<Text>, s: (Hunt, Wish))
    requires
        d.names_only(themes),
        within(themes, s.0),
        asking(s),
    ensures
        ({
            let t = told(s.0, d.answer(s.1));
            &&& t.1 is Found || t.1 is Missing || asking(t) && within(themes, t.0) && nearer(
                themes,
                t.0,
                s.0,
            )
        }),
{
    let h = s.0;
    let nothing = Hunt { pending: Pending::Nothing, ..h };
    match h.pending {
        Pending::Index { theme, tried } => {
            let g = match d.answer(s.1) {
                Heard::Text(Some(text)) => match index_of(text) {
                    Some(m) => Hunt {
                        clues: clues_of(m, h.bases, theme, h.icon, h.target as int) + h.clues,
                        pending: Pending::Nothing,
                        ..h
                    },
                    None => next_base(h, theme, tried),
                },
                _ => next_base(h, theme, tried),
            };
            if let Heard::Text(Some(text)) = d.answer(s.1) {
                if let Some(m) = index_of(text) {
                    let new = clues_of(m, h.bases, theme, h.icon, h.target as int);
                    assert forall|i: int| 0 <= i < g.clues.len() implies ((#[trigger] g.clues[i]) matches Clue::Theme(
                        t,
                    ) ==> themes.contains(t)) by {
                        if i >= new.len() {
                            assert(g.clues[i] == h.clues[i - new.len()]);
                        } else {
                            let files = new.len() - 1 - m.inherits.len();
                            if files <= i < files + m.inherits.len() {
                                assert(g.clues[i] == Clue::Theme(m.inherits[i - files]));
                                let p = s.1->Read_0;
                                assert(themes.contains(
                                    index_of((d.text)(p)->0)->0.inherits[i - files],
                                ));
                            }
                        }
                    }
                }
            }
            assert(nearer(themes, g, h));
            lemma_onward(themes, g);
        },
        _ => {
            lemma_onward(themes, nothing);
        },
    }
}

/// Every search ends.
proof fn lemma_ends(d: Disk, themes: Set<Text>, s: (Hunt, Wish))
    requires
        d.names_only(themes),
        within(themes, s.0),
        asking(s) || s.1 is Found || s.1 is Missing,
    ensures
        ends(d, s, found(d, s)),
    decreases
            s.0.names.len(),
            unseen(themes, s.0),
            tries(s.0),
            s.0.clues.len(),
            probing(s.0),
{
    if asking(s) {
        let t = told(s.0, d.answer(s.1));
        lemma_told(d, themes, s);
        if asking(t) {
            lemma_ends(d, themes, t);
        } else {
            lemma_ended(d, t);
        }
        lemma_one_more(d, s, found(d, t));
    } else {
        lemma_ended(d, s);
    }
}

proof fn lemma_ended(d: Disk, s: (Hunt, Wish))
    requires
        s.1 is Found || s.1 is Missing,
    ensures
        ends(d, s, found(d, s)),
{
    let r = match s.1 {
        Wish::Found(f) => Some(f),
        _ => None,
    };
    assert(comes_to(after_answers(d, s, 0).1, r));
    assert(ends(d, s, r));
}

// --- one name after the other -------------------------------------------------------------

/// A search with other names to try.
spec fn with_names(h: Hunt, names: Seq<Text>) -> Hunt {
    Hunt { names, ..h }
}

proof fn lemma_onward_named(h: Hunt, names: Seq<Text>)
    requires
        h.names.len() == 0,
    ensures
        onward(h).1 is Missing ==> onward(with_names(h, names)).1 == onward(
            started(h.theme, names, h.bases, h.target),
        ).1 && (names.len() > 0 ==> onward(with_names(h, names)) == onward(
            started(h.theme, names, h.bases, h.target),
        )),
        !(onward(h).1 is Missing) ==> onward(with_names(h, names)) == (
            with_names(onward(h).0, names),
            onward(h).1,
        ),
        onward(h).0.names.len() == 0,
        onward(h).0.theme == h.theme,
        onward(h).0.bases == h.bases,
        onward(h).0.target == h.target,
    decreases h.clues.len(),
{
    let k = with_names(h, names);
    if h.pending is Nothing {
        if h.clues.len() == 0 {
            if names.len() > 0 {
                let s = started(h.theme, names, h.bases, h.target);
                let next = Hunt {
                    icon: names[0],
                    names: names.drop_first(),
                    visited: Seq::empty(),
                    clues: seq![Clue::Theme(h.theme)],
                    ..h
                };
                assert(onward(k) == onward(next));
                assert(onward(s) == onward(next));
            }
        } else if let Clue::Theme(t) = h.clues[0] {
            let rest = Hunt { clues: h.clues.drop_first(), ..h };
            if h.visited.contains(t) {
                lemma_onward_named(rest, names);
                assert(with_names(rest, names) == Hunt { clues: k.clues.drop_first(), ..k });
            } else if h.bases.len() == 0 {
                let g = Hunt { visited: h.visited.push(t), ..rest };
                lemma_onward_named(g, names);
                assert(with_names(g, names) == Hunt {
                    visited: k.visited.push(t),
                    clues: k.clues.drop_first(),
                    ..k
                });
            }
        }
    }
}

proof fn lemma_told_named(h: Hunt, heard: Heard, names: Seq<Text>)
    requires
        h.names.len() == 0,
    ensures
        ({
            let t = told(h, heard);
            let k = told(with_names(h, names), heard);
            let next = onward(started(h.theme, names, h.bases, h.target));
            &&& t.1 is Missing ==> k.1 == next.1 && (names.len() > 0 ==> k == next)
            &&& !(t.1 is Missing) ==> k == (with_names(t.0, names), t.1)
            &&& t.0.names.len() == 0
            &&& t.0.theme == h.theme
            &&& t.0.bases == h.bases
            &&& t.0.target == h.target
        }),
{
    let k = with_names(h, names);
    let nothing = Hunt { pending: Pending::Nothing, ..h };
    lemma_onward_named(nothing, names);
    assert(with_names(nothing, names) == Hunt { pending: Pending::Nothing, ..k });
    if let Pending::Index { theme, tried } = h.pending {
        lemma_onward_named(next_base(h, theme, tried), names);
        assert(with_names(next_base(h, theme, tried), names) == next_base(k, theme, tried));
        if let Heard::Text(Some(text)) = heard {
            if let Some(m) = index_of(text) {
                let clues = clues_of(m, h.bases, theme, h.icon, h.target as int) + h.clues;
                let g = Hunt { clues, pending: Pending::Nothing, ..h };
                lemma_onward_named(g, names);
                assert(with_names(g, names) == Hunt { clues, pending: Pending::Nothing, ..k });
            }
        }
    }
}

/// While a name is tried, the names after it make no difference; where nothing is found
/// for it, the search goes on as one for those.
proof fn lemma_run(d: Disk, h: Hunt, w: Wish, names: Seq<Text>, n: nat, r: Option<Text>, r2: Option<Text>)
    requires
        h.names.len() == 0,
        !(w is Missing),
        comes_to(after_answers(d, (h, w), n).1, r),
        r is Some ==> r2 == r,
        r is None ==> ends(d, onward(started(h.theme, names, h.bases, h.target)), r2),
    ensures
        ends(d, (with_names(h, names), w), r2),
    decreases n,
{
    let k = (with_names(h, names), w);
    if w is Found {
        assert(comes_to(after_answers(d, k, 0).1, r2));
    } else {
        let heard = d.answer(w);
        let t = told(h, heard);
        let l = told(k.0, heard);
        lemma_told_named(h, heard, names);
        if t.1 is Missing {
            let next = onward(started(h.theme, names, h.bases, h.target));
            assert(comes_to(after_answers(d, t, 0).1, None));
            assert(ends(d, t, None));
            assert(after_answers(d, t, (n - 1) as nat) == after_answers(d, (h, w), n));
            assert(ends(d, t, r));
            lemma_one_end(d, t, r, None);
            if names.len() == 0 {
                assert(comes_to(after_answers(d, next, 0).1, None));
                assert(ends(d, next, None));
                lemma_one_end(d, next, r2, None);
                assert(comes_to(after_answers(d, l, 0).1, None));
            }
        } else {
            lemma_run(d, t.0, t.1, names, (n - 1) as nat, r, r2);
        }
        lemma_one_more(d, k, r2);
    }
}

proof fn lemma_start(themes: Set<Text>, theme: Text, names: Seq<Text>, bases: Seq<Text>, target: i32)
    requires
        themes.finite(),
        themes.contains(theme),
    ensures
        within(themes, onward(started(theme, names, bases, target)).0),
        asking(onward(started(theme, names, bases, target))) || onward(
            started(theme, names, bases, target),
        ).1 is Missing,
{
    lemma_onward(themes, started(theme, names, bases, target));
}

/// A search for the first of an icon's names ends, with what the search for one name
/// alone finds for the first name for which that finds anything: with nothing if, and
/// only if, nothing is found for any of them. `themes` holds the themes that the disk
/// knows of.
pub proof fn law_first_name(
    d: Disk,
    themes: Set<Text>,
    theme: Text,
    names: Seq<Text>,
    bases: Seq<Text>,
    target: i32,
)
    requires
        d.names_only(themes),
        themes.contains(theme),
    ensures
        ends(
            d,
            onward(started(theme, names, bases, target)),
            first_found(d, theme, names, bases, target),
        ),
        found(d, onward(started(theme, names, bases, target))) == first_found(
            d,
            theme,
            names,
            bases,
            target,
        ),
        first_found(d, theme, names, bases, target) is None <==> forall|i: int|
            0 <= i < names.len() ==> icon_found(d, theme, #[trigger] names[i], bases, target) is None,
    decreases names.len(),
{
    let slot = onward(started(theme, names, bases, target));
    let r = first_found(d, theme, names, bases, target);
    if names.len() == 0 {
        assert(comes_to(after_answers(d, slot, 0).1, None));
        assert(ends(d, slot, r));
    } else {
        let rest = names.drop_first();
        law_first_name(d, themes, theme, rest, bases, target);
        lemma_start(themes, theme, seq![names[0]], bases, target);
        let one = started(theme, seq![names[0]], bases, target);
        lemma_ends(d, themes, onward(one));
        let h = Hunt {
            icon: names[0],
            names: Seq::empty(),
            clues: seq![Clue::Theme(theme)],
            ..one
        };
        assert(one.names.drop_first() =~= Seq::<Text>::empty());
        assert(onward(one) == onward(h));
        assert(with_names(h, rest) == Hunt {
            icon: names[0],
            names: rest,
            clues: seq![Clue::Theme(theme)],
            ..started(theme, names, bases, target)
        });
        assert(slot == onward(with_names(h, rest)));
        lemma_onward_named(h, rest);
        let s = onward(h);
        let f = icon_found(d, theme, names[0], bases, target);
        let next = onward(started(theme, rest, bases, target));
        if s.1 is Missing {
            assert(comes_to(after_answers(d, s, 0).1, None));
            assert(ends(d, s, None));
            lemma_one_end(d, s, f, None);
            if rest.len() == 0 {
                assert(next.1 is Missing);
                assert(comes_to(after_answers(d, slot, 0).1, None));
                assert(ends(d, slot, None));
            }
            assert(ends(d, slot, r));
        } else {
            let n = choose|n: nat| comes_to((#[trigger] after_answers(d, s, n)).1, f);
            lemma_run(d, s.0, s.1, rest, n, f, r);
        }
        assert forall|i: int| 0 < i < names.len() implies #[trigger] names[i] == rest[i - 1] by {}
        if r is None {
            assert forall|i: int| 0 <= i < names.len() implies icon_found(
                d,
                theme,
                #[trigger] names[i],
                bases,
                target,
            ) is None by {
                if i > 0 {
                    assert(names[i] == rest[i - 1]);
                }
            }
        } else if f is None {
            let j = choose|j: int|
                0 <= j < rest.len() && icon_found(d, theme, #[trigger] rest[j], bases, target) is Some;
            assert(names[j + 1] == rest[j]);
        } else {
            assert(names[0] == names[0]);
        }
    }
    lemma_one_end(d, slot, r, found(d, slot));
}

} // verus!
