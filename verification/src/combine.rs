//! Commands made of attributes and other commands: comparing, and filling in values.

use vstd::prelude::*;
use crate::attr::{attr_value, get};
use crate::number::{parse_i64, signed64};
use crate::reply::{err, err3, err_about, err_text, ok, ok_text};
use crate::state::{State, World};
use crate::table::{comes_before, text_before};
use crate::text::{chars_of, same, string_of, Text};

verus! {

/// Whether one value comes before another: as numbers where both are, else as texts.
pub open spec fn value_before(a: Text, b: Text) -> bool {
    match (signed64(a), signed64(b)) {
        (Some(x), Some(y)) => x < y,
        _ => text_before(a, b),
    }
}

/// Whether two values are equal: as numbers where both are, else as texts.
pub open spec fn value_equal(a: Text, b: Text) -> bool {
    match (signed64(a), signed64(b)) {
        (Some(x), Some(y)) => x == y,
        _ => a == b,
    }
}

/// Whether an operator holds of two values; none where there is no such operator.
pub open spec fn holds(op: Text, a: Text, b: Text) -> Option<bool> {
    if op == "="@ || op == "=="@ {
        Some(value_equal(a, b))
    } else if op == "!="@ {
        Some(!value_equal(a, b))
    } else if op == "lt"@ {
        Some(value_before(a, b))
    } else if op == "le"@ {
        Some(value_before(a, b) || value_equal(a, b))
    } else if op == "gt"@ {
        Some(!value_before(a, b) && !value_equal(a, b))
    } else if op == "ge"@ {
        Some(!value_before(a, b))
    } else {
        None
    }
}

/// `compare <attribute> <operator> <value>`: carried out where the comparison holds.
pub open spec fn compare(w: World, a: Seq<Text>) -> Text {
    if a.len() < 3 {
        err_text("compare: expected <path> <op> <value>"@)
    } else {
        match attr_value(w, a[0]) {
            Err(e) => err_text(e),
            Ok(v) => match holds(a[1], v, a[2]) {
                None => err_about("compare: unknown operator '"@, a[1], "'"@),
                Some(true) => ok_text(),
                Some(false) => err_text("compare: false"@),
            },
        }
    }
}

/// How two values stand to each other: whether the first comes before the second, and
/// whether they are equal.
fn relate(a: &str, b: &str) -> (r: (bool, bool))
    ensures
        r.0 == value_before(a@, b@),
        r.1 == value_equal(a@, b@),
{
    match (parse_i64(a), parse_i64(b)) {
        (Some(x), Some(y)) => (x < y, x == y),
        _ => (comes_before(a, b), same(a, b)),
    }
}

pub fn cmd_compare(state: &State, a: &[String]) -> (r: String)
    requires
        state@.wf(),
    ensures
        r@ == compare(state@, a.deep_view()),
{
    if a.len() < 3 {
        return err("compare: expected <path> <op> <value>");
    }
    assert(a.deep_view()[0] == a@[0]@ && a.deep_view()[1] == a@[1]@ && a.deep_view()[2] == a@[2]@);
    match get(state, a[0].as_str()) {
        Err(e) => err(e.as_str()),
        Ok(v) => {
            let (before, equal) = relate(v.as_str(), a[2].as_str());
            let op = a[1].as_str();
            let truth: bool = if same(op, "=") || same(op, "==") {
                equal
            } else if same(op, "!=") {
                !equal
            } else if same(op, "lt") {
                before
            } else if same(op, "le") {
                before || equal
            } else if same(op, "gt") {
                !before && !equal
            } else if same(op, "ge") {
                !before
            } else {
                return err3("compare: unknown operator '", op, "'");
            };
            if truth {
                ok()
            } else {
                err("compare: false")
            }
        },
    }
}

// --- filling in ---------------------------------------------------------------------------

/// Words with every one that is `ident` replaced.
pub open spec fn filled_in(words: Seq<Text>, ident: Text, v: Text) -> Seq<Text> {
    words.map_values(
        |t: Text|
            if t == ident {
                v
            } else {
                t
            },
    )
}

/// The words from `from` on with every one that is `ident` replaced.
pub fn fill_in(a: &[String], from: usize, ident: &str, v: &str) -> (r: Vec<String>)
    requires
        from <= a@.len(),
    ensures
        r.deep_view() == filled_in(a.deep_view().skip(from as int), ident@, v@),
        r@.len() == a@.len() - from,
{
    let ghost target = filled_in(a.deep_view().skip(from as int), ident@, v@);
    let mut r: Vec<String> = Vec::new();
    let mut i: usize = from;
    assert(r.deep_view() =~= target.take(0));
    while i < a.len()
        invariant
            from <= i <= a@.len(),
            target == filled_in(a.deep_view().skip(from as int), ident@, v@),
            r@.len() == i - from,
            r.deep_view() == target.take(i - from),
        decreases a@.len() - i,
    {
        let ghost before = r.deep_view();
        let word = if same(a[i].as_str(), ident) {
            v.to_owned()
        } else {
            a[i].clone()
        };
        r.push(word);
        i += 1;
        assert(r.deep_view() =~= before.push(word@));
        assert(target.take(i - from) =~= target.take(i - from - 1).push(target[i - from - 1]));
    }
    assert(target.take(i - from) =~= target);
    r
}

/// Where the first `%s` of a text stands; its length where there is none.
pub open spec fn mark_place(s: Text) -> int
    decreases s.len(),
{
    if s.len() < 2 {
        s.len() as int
    } else if s[0] == '%' && s[1] == 's' {
        0
    } else {
        1 + mark_place(s.drop_first())
    }
}

/// What `mark_place` finds.
pub proof fn lemma_mark_place(s: Text)
    ensures
        0 <= mark_place(s) <= s.len(),
        mark_place(s) < s.len() ==> mark_place(s) + 1 < s.len(),
    decreases s.len(),
{
    if s.len() >= 2 && !(s[0] == '%' && s[1] == 's') {
        lemma_mark_place(s.drop_first());
    }
}

/// How many times `%s` stands in a text.
pub open spec fn mark_count(s: Text) -> nat
    decreases s.len(),
    via mark_count_decreases
{
    let p = mark_place(s);
    if p >= s.len() {
        0
    } else {
        1 + mark_count(s.skip(p + 2))
    }
}

#[via_fn]
proof fn mark_count_decreases(s: Text) {
    lemma_mark_place(s);
}

/// The value of an attribute, or the path itself where there is none.
pub open spec fn value_or_path(w: World, path: Text) -> Text {
    match attr_value(w, path) {
        Ok(v) => v,
        Err(_) => path,
    }
}

/// A format with its marks replaced, from the left, by the values of the paths. What
/// is filled in is not searched again.
pub open spec fn formatted(w: World, fmt: Text, paths: Seq<Text>) -> Text
    decreases paths.len(),
{
    let p = mark_place(fmt);
    if paths.len() == 0 || p >= fmt.len() {
        fmt
    } else {
        fmt.take(p) + value_or_path(w, paths[0]) + formatted(w, fmt.skip(p + 2), paths.drop_first())
    }
}

/// Where the first `%s` from `from` on stands.
fn find_mark(v: &Vec<char>, from: usize) -> (r: usize)
    requires
        from <= v@.len(),
    ensures
        from <= r <= v@.len(),
        r == from + mark_place(v@.skip(from as int)),
        r < v@.len() ==> r + 1 < v@.len(),
{
    let ghost rest = v@.skip(from as int);
    let mut i: usize = from;
    while v.len() - i >= 2 && !(v[i] == '%' && v[i + 1] == 's')
        invariant
            from <= i <= v@.len() == v.len(),
            rest == v@.skip(from as int),
            mark_place(rest) == i - from + mark_place(v@.skip(i as int)),
        decreases v@.len() - i,
    {
        assert(v@.skip(i as int).drop_first() =~= v@.skip(i + 1));
        i += 1;
    }
    if v.len() - i < 2 {
        v.len()
    } else {
        i
    }
}

/// How many times `%s` stands in a string.
pub fn count_marks(s: &str) -> (r: usize)
    ensures
        r == mark_count(s@),
        2 * r <= s@.len(),
{
    let v = chars_of(s);
    let mut n: usize = 0;
    assert(v@.skip(0) =~= v@);
    let mut p: usize = find_mark(&v, 0);
    let ghost mut from: int = 0;
    while p < v.len()
        invariant
            0 <= from <= p <= v@.len(),
            p == from + mark_place(v@.skip(from)),
            p < v@.len() ==> p + 1 < v@.len(),
            2 * n <= from,
            mark_count(v@) == n + mark_count(v@.skip(from)),
        decreases v@.len() - p,
    {
        assert(v@.skip(from).skip(p - from + 2) =~= v@.skip(p + 2));
        n += 1;
        let next: usize = p + 2;
        p = find_mark(&v, next);
        proof {
            from = next as int;
        }
    }
    n
}

/// A format with its marks replaced by the values of the words from the third on.
pub fn format_marks(state: &State, a: &[String], n: usize) -> (r: String)
    requires
        state@.wf(),
        2 + n <= a.len(),
    ensures
        r@ == formatted(state@, a.deep_view()[1], a.deep_view().subrange(2, 2 + n)),
{
    let ghost all = a.deep_view();
    let ghost paths = all.subrange(2, 2 + n);
    assert(all[1] == a@[1]@);
    let c = chars_of(a[1].as_str());
    let mut r = String::new();
    let mut from: usize = 0;
    let mut i: usize = 0;
    assert(paths.skip(0) =~= paths);
    assert(c@.skip(0) =~= c@);
    assert(Seq::<char>::empty() + formatted(state@, c@, paths) =~= formatted(state@, c@, paths));
    let mut p: usize = find_mark(&c, 0);
    while i < n && p < c.len()
        invariant
            i <= n,
            from <= p <= c@.len(),
            p == from + mark_place(c@.skip(from as int)),
            p < c@.len() ==> p + 1 < c@.len(),
            2 + n <= a.len() == a@.len(),
            all == a.deep_view(),
            paths == all.subrange(2, 2 + n),
            state@.wf(),
            formatted(state@, c@, paths) == r@ + formatted(
                state@,
                c@.skip(from as int),
                paths.skip(i as int),
            ),
        decreases n - i,
    {
        let ghost before = r@;
        let ghost rest = c@.skip(from as int);
        assert(paths.skip(i as int)[0] == a@[2 + i]@);
        assert(paths.skip(i as int).drop_first() =~= paths.skip(i + 1));
        let v: String = match get(state, a[2 + i].as_str()) {
            Ok(v) => v,
            Err(_) => a[2 + i].clone(),
        };
        r.append(string_of(&c, from, p).as_str());
        r.append(v.as_str());
        assert(c@.subrange(from as int, p as int) =~= rest.take(p - from));
        assert(rest.skip(p - from + 2) =~= c@.skip(p + 2));
        assert(before + (rest.take(p - from) + v@ + formatted(state@, c@.skip(p + 2), paths.skip(i + 1)))
            =~= r@ + formatted(state@, c@.skip(p + 2), paths.skip(i + 1)));
        from = p + 2;
        p = find_mark(&c, from);
        i += 1;
    }
    r.append(string_of(&c, from, c.len()).as_str());
    assert(c@.subrange(from as int, c@.len() as int) =~= c@.skip(from as int));
    r
}

} // verus!
