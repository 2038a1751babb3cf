//! What is dumped reads back: layout strings.

use vstd::prelude::*;
use crate::double::{close, halfway, law_ratio_round_trip, nearly_close, to_four_places};
use crate::frame::{layout_named, Frame, LayoutMode, Orientation, WinId};
use crate::number::{all_digits, is_digit, law_show_reads_back, law_unsigned_round_trip, show};
use crate::ratio::{last_digits, round_half_even, show_ratio, Ratio, ONE};
use crate::sexpr::{
    ids_at, ids_text, layout_name, orient_name, orient_named, sexpr, spaced, spaced_char, tokens, tree_at,
    tree_text,
};
use crate::text::{
    fields, lemma_position, lemma_position_is, nonempty, position, words, Class, Text,
};
use crate::tree::Tree;

verus! {

// --- cutting a text that was joined -----------------------------------------------

/// A text is cut at a separator into what it is cut into before and after it.
pub proof fn lemma_fields_concat(a: Text, c: char, b: Text, k: Class)
    requires
        k.has(c),
    ensures
        fields(a + seq![c] + b, k) == fields(a, k) + fields(b, k),
    decreases a.len(),
{
    let s = a + seq![c] + b;
    lemma_position(a, k);
    let p = position(a, k);
    assert forall|j: int| 0 <= j < p implies !k.has(#[trigger] s[j]) by {
        assert(!k.has(a[j]));
    }
    if p < a.len() {
        assert(s[p] == a[p]);
        lemma_position_is(s, k, p);
        assert(s.skip(p + 1) =~= a.skip(p + 1) + seq![c] + b);
        lemma_fields_concat(a.skip(p + 1), c, b, k);
        assert(s.take(p) =~= a.take(p));
        assert(seq![a.take(p)] + (fields(a.skip(p + 1), k) + fields(b, k)) =~= fields(a, k) + fields(
            b,
            k,
        ));
    } else {
        assert(s[p] == c);
        lemma_position_is(s, k, p);
        assert(s.skip(p + 1) =~= b);
        assert(s.take(p) =~= a);
    }
}

/// A text without a separator is one part.
pub proof fn lemma_fields_single(s: Text, k: Class)
    requires
        forall|i: int| 0 <= i < s.len() ==> !k.has(#[trigger] s[i]),
    ensures
        fields(s, k) == seq![s],
{
    lemma_position_is(s, k, s.len() as int);
}

proof fn lemma_nonempty_concat(a: Seq<Text>, b: Seq<Text>)
    ensures
        nonempty(a + b) == nonempty(a) + nonempty(b),
    decreases b.len(),
{
    if b.len() == 0 {
        assert(a + b =~= a);
        assert(nonempty(a) + nonempty(b) =~= nonempty(a));
    } else {
        assert((a + b).drop_last() =~= a + b.drop_last());
        lemma_nonempty_concat(a, b.drop_last());
        assert(nonempty(a + b) =~= nonempty(a) + nonempty(b));
    }
}

/// The words of a text are those before and those after a white character of it.
proof fn lemma_words_concat(a: Text, c: char, b: Text)
    requires
        Class::White.has(c),
    ensures
        words(a + seq![c] + b) == words(a) + words(b),
{
    lemma_fields_concat(a, c, b, Class::White);
    lemma_nonempty_concat(fields(a, Class::White), fields(b, Class::White));
}

/// Characters that neither end a word nor stand alone.
spec fn plain(s: Text) -> bool {
    forall|i: int| 0 <= i < s.len() ==> plain_char(#[trigger] s[i])
}

spec fn plain_char(c: char) -> bool {
    !Class::White.has(c) && c != '(' && c != ')'
}

proof fn lemma_plain_words(s: Text)
    requires
        plain(s),
    ensures
        s.len() > 0 ==> words(s) == seq![s],
        s.len() == 0 ==> words(s) == Seq::<Text>::empty(),
        spaced(s) == s,
{
    assert forall|i: int| 0 <= i < s.len() implies !Class::White.has(#[trigger] s[i]) by {
        assert(plain_char(s[i]));
    }
    lemma_fields_single(s, Class::White);
    let one = seq![s];
    assert(one.drop_last() =~= Seq::<Text>::empty());
    assert(nonempty(one.drop_last()) =~= Seq::<Text>::empty());
    assert(Seq::<Text>::empty().push(s) =~= one);
    lemma_plain_spaced(s);
}

proof fn lemma_plain_spaced(s: Text)
    requires
        plain(s),
    ensures
        spaced(s) == s,
    decreases s.len(),
{
    if s.len() > 0 {
        assert(plain_char(s.last()));
        assert(plain(s.drop_last())) by {
            assert forall|i: int| 0 <= i < s.len() - 1 implies plain_char(#[trigger] s.drop_last()[i]) by {
                assert(plain_char(s[i]));
            }
        }
        lemma_plain_spaced(s.drop_last());
        assert(s.drop_last() + seq![s.last()] =~= s);
    }
}

proof fn lemma_spaced_concat(a: Text, b: Text)
    ensures
        spaced(a + b) == spaced(a) + spaced(b),
    decreases b.len(),
{
    if b.len() == 0 {
        assert(a + b =~= a);
        assert(spaced(a) + spaced(b) =~= spaced(a));
    } else {
        assert((a + b).drop_last() =~= a + b.drop_last());
        lemma_spaced_concat(a, b.drop_last());
        assert(spaced(a + b) =~= spaced(a) + spaced(b));
    }
}

proof fn lemma_spaced_single(c: char)
    ensures
        spaced(seq![c]) == spaced_char(c),
{
    let s = seq![c];
    assert(s.drop_last() =~= Seq::<char>::empty());
    assert(s.last() == c);
    assert(spaced(Seq::<char>::empty()) =~= Seq::<char>::empty());
    assert(Seq::<char>::empty() + spaced_char(c) =~= spaced_char(c));
}

proof fn lemma_plain_concat(a: Text, b: Text)
    requires
        plain(a),
        plain(b),
    ensures
        plain(a + b),
{
    assert forall|i: int| 0 <= i < (a + b).len() implies plain_char(#[trigger] (a + b)[i]) by {
        if i < a.len() {
            assert(plain_char(a[i]));
        } else {
            assert(plain_char(b[i - a.len()]));
        }
    }
}

proof fn lemma_digits_plain(s: Text)
    requires
        all_digits(s),
    ensures
        plain(s),
        forall|i: int| 0 <= i < s.len() ==> #[trigger] s[i] != ':',
{
    assert forall|i: int| 0 <= i < s.len() implies plain_char(#[trigger] s[i]) && s[i] != ':' by {
        assert(is_digit(s[i]));
    }
}

proof fn lemma_last_digits_all(k: nat, places: nat)
    ensures
        all_digits(last_digits(k, places)),
    decreases places,
{
    if places > 0 {
        lemma_last_digits_all(k / 10, (places - 1) as nat);
        let s = last_digits(k, places);
        assert forall|i: int| 0 <= i < s.len() implies is_digit(#[trigger] s[i]) by {
            if i < s.len() - 1 {
                assert(is_digit(last_digits(k / 10, (places - 1) as nat)[i]));
            }
        }
    }
}

proof fn lemma_ratio_plain(r: Ratio)
    ensures
        plain(show_ratio(r, 4)),
        show_ratio(r, 4).len() > 0,
        forall|i: int| 0 <= i < show_ratio(r, 4).len() ==> #[trigger] show_ratio(r, 4)[i] != ':',
{
    let k = round_half_even(r.units as nat * crate::double::pow10(4), ONE as nat);
    let a = show(k / crate::double::pow10(4));
    let b = last_digits(k, 4);
    law_show_reads_back(k / crate::double::pow10(4));
    lemma_last_digits_all(k, 4);
    lemma_digits_plain(a);
    lemma_digits_plain(b);
    assert(plain(seq!['.']));
    lemma_plain_concat(a, seq!['.']);
    lemma_plain_concat(a + seq!['.'], b);
    let s = show_ratio(r, 4);
    assert forall|i: int| 0 <= i < s.len() implies #[trigger] s[i] != ':' by {
        if i < a.len() {
            assert(s[i] == a[i]);
        } else if i > a.len() {
            assert(s[i] == b[i - a.len() - 1]);
        }
    }
}

proof fn lemma_names(l: LayoutMode, o: Orientation)
    ensures
        plain(layout_name(l)),
        layout_name(l).len() > 0,
        layout_named(layout_name(l)) == Some(l),
        forall|i: int| 0 <= i < layout_name(l).len() ==> #[trigger] layout_name(l)[i] != ':',
        plain(orient_name(o)),
        orient_name(o).len() > 0,
        orient_named(orient_name(o)) == Some(o),
        forall|i: int| 0 <= i < orient_name(o).len() ==> #[trigger] orient_name(o)[i] != ':',
{
    reveal_strlit("max");
    reveal_strlit("vertical");
    reveal_strlit("horizontal");
    reveal_strlit("grid");
    assert("max"@.len() == 3 && "grid"@.len() == 4);
    assert("vertical"@.len() == 8 && "horizontal"@.len() == 10);
}

// --- the tokens of a layout string --------------------------------------------------

/// A leaf's arrangement and selection.
spec fn leaf_head(selected: int, layout: LayoutMode) -> Text {
    layout_name(layout) + seq![':'] + show(selected as nat)
}

/// A split's orientation, share and selection.
spec fn split_head(orient: Orientation, ratio: Ratio, selection: int) -> Text {
    orient_name(orient) + seq![':'] + show_ratio(ratio, 4) + seq![':'] + show(selection as nat)
}

spec fn id_tokens(windows: Seq<WinId>) -> Seq<Text> {
    windows.map_values(|w: WinId| show(w as nat))
}

/// The brackets and words that a tree is written in.
spec fn tree_tokens(t: Tree) -> Seq<Text>
    decreases t,
{
    match t {
        Tree::Leaf { windows, selected, layout } => seq![
            "("@,
            "clients"@,
            leaf_head(selected, layout),
        ] + id_tokens(windows) + seq![")"@],
        Tree::Split { orient, ratio, selection, first, second } => seq![
            "("@,
            "split"@,
            split_head(orient, ratio, selection),
        ] + tree_tokens(*first) + tree_tokens(*second) + seq![")"@],
    }
}

proof fn lemma_ids_words(x: Text, windows: Seq<WinId>)
    ensures
        words(x + ids_text(windows)) == words(x) + id_tokens(windows),
        spaced(ids_text(windows)) == ids_text(windows),
    decreases windows.len(),
{
    if windows.len() == 0 {
        assert(x + ids_text(windows) =~= x);
        assert(words(x) + id_tokens(windows) =~= words(x));
    } else {
        let less = windows.drop_last();
        let w = show(windows.last() as nat);
        lemma_ids_words(x, less);
        law_show_reads_back(windows.last() as nat);
        lemma_digits_plain(w);
        lemma_plain_words(w);
        reveal_strlit(" ");
        assert(" "@ =~= seq![' ']);
        assert(x + ids_text(windows) =~= (x + ids_text(less)) + seq![' '] + w);
        lemma_words_concat(x + ids_text(less), ' ', w);
        assert(words(x) + id_tokens(less) + seq![w] =~= words(x) + id_tokens(windows));
        lemma_spaced_concat(ids_text(less) + " "@, w);
        lemma_spaced_concat(ids_text(less), " "@);
        lemma_spaced_single(' ');
    }
}

/// White space, a bracket, white space.
proof fn lemma_bracket(c: char)
    requires
        c == '(' || c == ')',
    ensures
        spaced(seq![c]) == seq![' ', c, ' '],
        words(seq![c]) == seq![seq![c]],
{
    let s = seq![c];
    lemma_spaced_single(c);
    lemma_fields_single(s, Class::White);
    let one = seq![s];
    assert(one.drop_last() =~= Seq::<Text>::empty());
    assert(nonempty(one.drop_last()) =~= Seq::<Text>::empty());
    assert(Seq::<Text>::empty().push(s) =~= one);
}

proof fn lemma_no_words()
    ensures
        words(Seq::<char>::empty()) == Seq::<Text>::empty(),
{
    lemma_plain_words(Seq::<char>::empty());
}

/// What a bracketed group is cut into.
#[verifier::rlimit(40)]
proof fn lemma_group(kind: Text, head: Text, body: Text, inner: Seq<Text>)
    requires
        plain(kind),
        kind.len() > 0,
        words(head + body) == seq![head] + inner,
        plain(head),
    ensures
        words(
            seq![' ', '(', ' '] + kind + seq![' '] + head + body + seq![' ', ')', ' '],
        ) == seq![seq!['('], kind, head] + inner + seq![seq![')']],
{
    let none = Seq::<char>::empty();
    let open = seq!['('];
    let close = seq![')'];
    lemma_no_words();
    lemma_bracket('(');
    lemma_bracket(')');
    lemma_plain_words(kind);
    let whole = seq![' ', '(', ' '] + kind + seq![' '] + head + body + seq![' ', ')', ' '];
    let r1 = head + body + seq![' ', ')', ' '];
    let r2 = kind + seq![' '] + r1;
    let r3 = open + seq![' '] + r2;
    assert(whole =~= none + seq![' '] + r3);
    lemma_words_concat(none, ' ', r3);
    lemma_words_concat(open, ' ', r2);
    lemma_words_concat(kind, ' ', r1);
    let r4 = close + seq![' '] + none;
    assert(r1 =~= (head + body) + seq![' '] + r4);
    lemma_words_concat(head + body, ' ', r4);
    lemma_words_concat(close, ' ', none);
    assert(words(whole) =~= seq![open, kind, head] + inner + seq![close]);
}

proof fn lemma_brackets()
    ensures
        "("@ == seq!['('],
        ")"@ == seq![')'],
        ":"@ == seq![':'],
        " "@ == seq![' '],
        "(clients "@ == seq!['('] + "clients"@ + seq![' '],
        "(split "@ == seq!['('] + "split"@ + seq![' '],
        plain("clients"@),
        "clients"@.len() == 7,
        plain("split"@),
        "split"@.len() == 5,
        plain(seq![':']),
        spaced(seq![' ']) == seq![' '],
        spaced(seq!['(']) == seq![' ', '(', ' '],
        spaced(seq![')']) == seq![' ', ')', ' '],
{
    reveal_strlit("(");
    reveal_strlit(")");
    reveal_strlit(" ");
    reveal_strlit(":");
    reveal_strlit("(clients ");
    reveal_strlit("clients");
    reveal_strlit("(split ");
    reveal_strlit("split");
    assert("("@ =~= seq!['(']);
    assert(")"@ =~= seq![')']);
    assert(":"@ =~= seq![':']);
    assert(" "@ =~= seq![' ']);
    assert("(clients "@ =~= seq!['('] + "clients"@ + seq![' ']);
    assert("(split "@ =~= seq!['('] + "split"@ + seq![' ']);
    assert(plain("clients"@));
    assert(plain("split"@));
    lemma_spaced_single(' ');
    lemma_spaced_single('(');
    lemma_spaced_single(')');
}

#[verifier::rlimit(40)]
proof fn lemma_leaf_tokens(windows: Seq<WinId>, selected: int, layout: LayoutMode)
    ensures
        tokens(sexpr(Tree::Leaf { windows, selected, layout })) == tree_tokens(
            Tree::Leaf { windows, selected, layout },
        ),
{
    lemma_brackets();
    let head = leaf_head(selected, layout);
    let kind = "clients"@;
    let ids = ids_text(windows);
    lemma_names(layout, Orientation::Horizontal);
    law_show_reads_back(selected as nat);
    lemma_digits_plain(show(selected as nat));
    lemma_plain_concat(layout_name(layout), seq![':']);
    lemma_plain_concat(layout_name(layout) + seq![':'], show(selected as nat));
    lemma_plain_words(head);
    lemma_plain_words(kind);
    lemma_ids_words(head, windows);
    let s = sexpr(Tree::Leaf { windows, selected, layout });
    let a1 = seq!['('] + kind;
    let a2 = a1 + seq![' '];
    let a3 = a2 + head;
    let a4 = a3 + ids;
    assert(s =~= a4 + seq![')']);
    lemma_spaced_concat(a4, seq![')']);
    lemma_spaced_concat(a3, ids);
    lemma_spaced_concat(a2, head);
    lemma_spaced_concat(a1, seq![' ']);
    lemma_spaced_concat(seq!['('], kind);
    lemma_group(kind, head, ids, id_tokens(windows));
}

proof fn lemma_split_head_plain(orient: Orientation, ratio: Ratio, selection: int)
    ensures
        plain(split_head(orient, ratio, selection)),
        split_head(orient, ratio, selection).len() > 0,
{
    lemma_names(LayoutMode::Max, orient);
    law_show_reads_back(selection as nat);
    lemma_digits_plain(show(selection as nat));
    lemma_ratio_plain(ratio);
    assert(plain(seq![':']));
    lemma_plain_concat(orient_name(orient), seq![':']);
    lemma_plain_concat(orient_name(orient) + seq![':'], show_ratio(ratio, 4));
    lemma_plain_concat(orient_name(orient) + seq![':'] + show_ratio(ratio, 4), seq![':']);
    lemma_plain_concat(
        orient_name(orient) + seq![':'] + show_ratio(ratio, 4) + seq![':'],
        show(selection as nat),
    );
}

#[verifier::rlimit(40)]
proof fn lemma_split_text(orient: Orientation, ratio: Ratio, selection: int, first: Tree, second: Tree)
    ensures
        spaced(
            sexpr(
                Tree::Split {
                    orient,
                    ratio,
                    selection,
                    first: Box::new(first),
                    second: Box::new(second),
                },
            ),
        ) == seq![' ', '(', ' '] + "split"@ + seq![' '] + split_head(orient, ratio, selection) + (seq![
            ' ',
        ] + spaced(sexpr(first)) + seq![' '] + spaced(sexpr(second))) + seq![' ', ')', ' '],
{
    lemma_brackets();
    let head = split_head(orient, ratio, selection);
    let kind = "split"@;
    let x = sexpr(first);
    let y = sexpr(second);
    lemma_split_head_plain(orient, ratio, selection);
    lemma_plain_words(head);
    lemma_plain_words(kind);
    let s = sexpr(
        Tree::Split { orient, ratio, selection, first: Box::new(first), second: Box::new(second) },
    );
    let a1 = seq!['('] + kind;
    let a2 = a1 + seq![' '];
    let a3 = a2 + head;
    let a4 = a3 + seq![' '];
    let a5 = a4 + x;
    let a6 = a5 + seq![' '];
    let a7 = a6 + y;
    assert(s =~= a7 + seq![')']);
    lemma_spaced_concat(a7, seq![')']);
    lemma_spaced_concat(a6, y);
    lemma_spaced_concat(a5, seq![' ']);
    lemma_spaced_concat(a4, x);
    lemma_spaced_concat(a3, seq![' ']);
    lemma_spaced_concat(a2, head);
    lemma_spaced_concat(a1, seq![' ']);
    lemma_spaced_concat(seq!['('], kind);
    assert(spaced(s) =~= seq![' ', '(', ' '] + kind + seq![' '] + head + (seq![' '] + spaced(x) + seq![
        ' ',
    ] + spaced(y)) + seq![' ', ')', ' ']);
}

#[verifier::rlimit(40)]
proof fn lemma_tokens(t: Tree)
    ensures
        tokens(sexpr(t)) == tree_tokens(t),
    decreases t,
{
    match t {
        Tree::Leaf { windows, selected, layout } => {
            lemma_leaf_tokens(windows, selected, layout);
        },
        Tree::Split { orient, ratio, selection, first, second } => {
            let head = split_head(orient, ratio, selection);
            lemma_split_head_plain(orient, ratio, selection);
            lemma_plain_words(head);
            lemma_tokens(*first);
            lemma_tokens(*second);
            lemma_brackets();
            lemma_split_text(orient, ratio, selection, *first, *second);
            let x = spaced(sexpr(*first));
            let y = spaced(sexpr(*second));
            let rest = x + seq![' '] + y;
            let body = seq![' '] + x + seq![' '] + y;
            let inner = tree_tokens(*first) + tree_tokens(*second);
            assert(head + body =~= head + seq![' '] + rest);
            lemma_words_concat(head, ' ', rest);
            lemma_words_concat(x, ' ', y);
            lemma_group("split"@, head, body, inner);
            assert(tree_tokens(t) =~= seq!["("@, "split"@, head] + inner + seq![")"@]);
        },
    }
}

// --- reading the tokens back --------------------------------------------------------

/// The tree with every share as four decimals give it.
pub open spec fn to_four_places_all(t: Tree) -> Tree
    decreases t,
{
    match t {
        Tree::Leaf { .. } => t,
        Tree::Split { orient, ratio, selection, first, second } => Tree::Split {
            orient,
            ratio: to_four_places(ratio),
            selection,
            first: Box::new(to_four_places_all(*first)),
            second: Box::new(to_four_places_all(*second)),
        },
    }
}

/// A tree whose selections are machine words.
spec fn within_words(t: Tree) -> bool
    decreases t,
{
    match t {
        Tree::Leaf { selected, .. } => selected <= usize::MAX,
        Tree::Split { first, second, .. } => within_words(*first) && within_words(*second),
    }
}

proof fn lemma_frames_within_words(f: Frame)
    ensures
        within_words(f@),
    decreases f,
{
    match f {
        Frame::Leaf(_) => {},
        Frame::Split(s) => {
            lemma_frames_within_words(*s.first);
            lemma_frames_within_words(*s.second);
        },
    }
}

proof fn lemma_ids_back(toks: Seq<Text>, at: int, windows: Seq<WinId>)
    requires
        0 <= at,
        at + windows.len() < toks.len(),
        forall|i: int| 0 <= i < windows.len() ==> toks[at + i] == show(#[trigger] windows[i] as nat),
        toks[at + windows.len()] == ")"@,
    ensures
        ids_at(toks, at) == Some((windows, at + windows.len() + 1)),
    decreases windows.len(),
{
    lemma_brackets();
    if windows.len() > 0 {
        let w = windows[0];
        law_unsigned_round_trip(w as nat, u64::MAX as int);
        law_show_reads_back(w as nat);
        assert(toks[at + 0] == show(w as nat));
        assert(is_digit(show(w as nat)[0]));
        assert(show(w as nat)[0] != ')');
        assert(seq![')'][0] == ')');
        let rest = windows.drop_first();
        assert forall|i: int| 0 <= i < rest.len() implies toks[at + 1 + i] == show(
            #[trigger] rest[i] as nat,
        ) by {
            assert(rest[i] == windows[i + 1]);
            assert(toks[at + (i + 1)] == show(windows[i + 1] as nat));
        }
        lemma_ids_back(toks, at + 1, rest);
        assert(seq![w] + rest =~= windows);
    } else {
        assert(windows =~= Seq::<WinId>::empty());
    }
}

proof fn lemma_head_cut(name: Text, tail: Text)
    requires
        forall|i: int| 0 <= i < name.len() ==> #[trigger] name[i] != ':',
    ensures
        position(name + seq![':'] + tail, Class::Is(':')) == name.len(),
        (name + seq![':'] + tail).take(name.len() as int) == name,
        (name + seq![':'] + tail).skip(name.len() as int + 1) == tail,
{
    let s = name + seq![':'] + tail;
    assert forall|j: int| 0 <= j < name.len() implies !Class::Is(':').has(#[trigger] s[j]) by {
        assert(s[j] == name[j]);
    }
    assert(s[name.len() as int] == ':');
    lemma_position_is(s, Class::Is(':'), name.len() as int);
    assert(s.take(name.len() as int) =~= name);
    assert(s.skip(name.len() as int + 1) =~= tail);
}

proof fn lemma_split_head_cut(orient: Orientation, ratio: Ratio, selection: int)
    ensures
        fields(split_head(orient, ratio, selection), Class::Is(':')) == seq![
            orient_name(orient),
            show_ratio(ratio, 4),
            show(selection as nat),
        ],
{
    let k = Class::Is(':');
    let o = orient_name(orient);
    let r = show_ratio(ratio, 4);
    let n = show(selection as nat);
    lemma_names(LayoutMode::Max, orient);
    lemma_ratio_plain(ratio);
    law_show_reads_back(selection as nat);
    lemma_digits_plain(n);
    lemma_fields_single(o, k);
    lemma_fields_single(r, k);
    lemma_fields_single(n, k);
    lemma_fields_concat(o, ':', r, k);
    lemma_fields_concat(o + seq![':'] + r, ':', n, k);
    assert(fields(split_head(orient, ratio, selection), k) =~= seq![o, r, n]);
}

/// The tokens stand in `toks` from `at` on.
spec fn stands_at(toks: Seq<Text>, at: int, own: Seq<Text>) -> bool {
    &&& 0 <= at
    &&& at + own.len() <= toks.len()
    &&& forall|i: int| 0 <= i < own.len() ==> toks[at + i] == #[trigger] own[i]
}

#[verifier::rlimit(40)]
proof fn lemma_leaf_back(toks: Seq<Text>, at: int, windows: Seq<WinId>, selected: int, layout: LayoutMode)
    requires
        (Tree::Leaf { windows, selected, layout }).wf(),
        selected <= usize::MAX,
        stands_at(toks, at, tree_tokens(Tree::Leaf { windows, selected, layout })),
    ensures
        tree_at(toks, at) == Some(
            (Tree::Leaf { windows, selected, layout }, at + windows.len() + 4),
        ),
{
    reveal(tree_at);
    let t = Tree::Leaf { windows, selected, layout };
    let own = tree_tokens(t);
    let n = show(selected as nat);
    assert(own.len() == windows.len() + 4);
    assert(toks[at + 0] == own[0] && toks[at + 1] == own[1] && toks[at + 2] == own[2]);
    lemma_names(layout, Orientation::Horizontal);
    lemma_head_cut(layout_name(layout), n);
    law_unsigned_round_trip(selected as nat, usize::MAX as int);
    assert forall|i: int| 0 <= i < windows.len() implies toks[at + 3 + i] == show(
        #[trigger] windows[i] as nat,
    ) by {
        assert(toks[at + (3 + i)] == own[3 + i]);
        assert(own[3 + i] == id_tokens(windows)[i]);
    }
    assert(toks[at + (3 + windows.len())] == own[3 + windows.len() as int]);
    lemma_ids_back(toks, at + 3, windows);
}

#[verifier::rlimit(40)]
proof fn lemma_split_back(
    toks: Seq<Text>,
    at: int,
    orient: Orientation,
    ratio: Ratio,
    selection: int,
    first: (Tree, int),
    second: (Tree, int),
)
    requires
        ratio.wf(),
        selection == 0 || selection == 1,
        0 <= at,
        at + 3 < first.1 <= second.1 < toks.len(),
        toks[at] == "("@,
        toks[at + 1] == "split"@,
        toks[at + 2] == split_head(orient, ratio, selection),
        tree_at(toks, at + 3) == Some(first),
        tree_at(toks, first.1) == Some(second),
        toks[second.1] == ")"@,
    ensures
        tree_at(toks, at) == Some(
            (
                Tree::Split {
                    orient,
                    ratio: to_four_places(ratio),
                    selection,
                    first: Box::new(first.0),
                    second: Box::new(second.0),
                },
                second.1 + 1,
            ),
        ),
{
    reveal(tree_at);
    reveal_strlit("clients");
    reveal_strlit("split");
    assert("split"@.len() != "clients"@.len());
    lemma_names(LayoutMode::Max, orient);
    lemma_split_head_cut(orient, ratio, selection);
    law_unsigned_round_trip(selection as nat, usize::MAX as int);
    law_ratio_round_trip(ratio);
}

proof fn lemma_tree_back(toks: Seq<Text>, at: int, t: Tree)
    requires
        t.wf(),
        within_words(t),
        stands_at(toks, at, tree_tokens(t)),
    ensures
        tree_at(toks, at) == Some((to_four_places_all(t), at + tree_tokens(t).len())),
    decreases t,
{
    let own = tree_tokens(t);
    match t {
        Tree::Leaf { windows, selected, layout } => {
            assert(own.len() == windows.len() + 4);
            lemma_leaf_back(toks, at, windows, selected, layout);
        },
        Tree::Split { orient, ratio, selection, first, second } => {
            let a = tree_tokens(*first);
            let b = tree_tokens(*second);
            let n = at + 3 + a.len();
            assert(own.len() == a.len() + b.len() + 4);
            assert(toks[at + 0] == own[0] && toks[at + 1] == own[1] && toks[at + 2] == own[2]);
            assert(stands_at(toks, at + 3, a)) by {
                assert forall|i: int| 0 <= i < a.len() implies toks[at + 3 + i] == #[trigger] a[i] by {
                    assert(toks[at + (3 + i)] == own[3 + i]);
                }
            }
            lemma_tree_back(toks, at + 3, *first);
            assert(stands_at(toks, n, b)) by {
                assert forall|i: int| 0 <= i < b.len() implies toks[n + i] == #[trigger] b[i] by {
                    assert(toks[at + (3 + a.len() + i)] == own[3 + a.len() + i]);
                }
            }
            lemma_tree_back(toks, n, *second);
            assert(toks[at + (3 + a.len() + b.len())] == own[3 + a.len() + b.len() as int]);
            lemma_tokens_some(*first);
            lemma_tokens_some(*second);
            lemma_split_back(
                toks,
                at,
                orient,
                ratio,
                selection,
                (to_four_places_all(*first), n),
                (to_four_places_all(*second), n + b.len()),
            );
        },
    }
}

proof fn lemma_tokens_some(t: Tree)
    ensures
        tree_tokens(t).len() > 0,
{
}

/// Whether two trees are the same but for their shares, and each share of the second is
/// within 0.00005 of that of the first. One in the middle between two numbers of four
/// decimals may be half the distance of two doubles farther off.
pub open spec fn alike(t: Tree, u: Tree) -> bool
    decreases t,
{
    match (t, u) {
        (Tree::Leaf { .. }, Tree::Leaf { .. }) => t == u,
        (
            Tree::Split { orient, ratio, selection, first, second },
            Tree::Split { orient: o, ratio: r, selection: s, first: a, second: b },
        ) => orient == o && selection == s && (close(ratio, r) || halfway(ratio)) && nearly_close(ratio, r) && alike(*first, *a) && alike(
            *second,
            *b,
        ),
        _ => false,
    }
}

proof fn lemma_same_text(t: Tree)
    requires
        t.wf(),
    ensures
        alike(t, to_four_places_all(t)),
        to_four_places_all(t).wf(),
        to_four_places_all(t).windows() == t.windows(),
        to_four_places_all(t).leaves() == t.leaves(),
        to_four_places_all(t).focused_index() == t.focused_index(),
        sexpr(to_four_places_all(t)) == sexpr(t),
    decreases t,
{
    match t {
        Tree::Leaf { .. } => {},
        Tree::Split { ratio, first, second, .. } => {
            law_ratio_round_trip(ratio);
            lemma_same_text(*first);
            lemma_same_text(*second);
        },
    }
}

/// A layout string reads back as the tree that it was written from, with its shares
/// as four decimals give them: the same splits, leaves, windows and focus, no share
/// farther than 0.00005 from the one that was written, but for those in the middle
/// between two numbers of four decimals, and a tree that is written the same.
pub proof fn law_layout_round_trip(f: Frame)
    requires
        f@.wf(),
    ensures
        tree_text(sexpr(f@)) == Some(to_four_places_all(f@)),
        alike(f@, to_four_places_all(f@)),
        to_four_places_all(f@).wf(),
        to_four_places_all(f@).windows() == f@.windows(),
        to_four_places_all(f@).leaves() == f@.leaves(),
        to_four_places_all(f@).focused_index() == f@.focused_index(),
        sexpr(to_four_places_all(f@)) == sexpr(f@),
{
    lemma_frames_within_words(f);
    lemma_tokens(f@);
    lemma_tree_back(tokens(sexpr(f@)), 0, f@);
    lemma_same_text(f@);
}

} // verus!
