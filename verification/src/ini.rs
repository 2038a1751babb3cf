//! Files of groups of settings, such as that of the Qt look and those of icon themes.

use vstd::prelude::*;
use crate::path::join_path;
use crate::reply::{three, two};
use crate::text::{
    halves, join, join_from, lines, same, split_lines, split_once, trim, trimmed, Class, Text,
};

verus! {

// --- changing a setting -------------------------------------------------------------------

/// The line that a group starts with.
pub open spec fn header_line(group: Text) -> Text {
    "["@ + group + "]"@
}

/// The line that sets a key.
pub open spec fn key_line(key: Text, value: Text) -> Text {
    key + "="@ + value
}

/// Whether a line starts a group.
pub open spec fn starts_group(line: Text) -> bool {
    let t = trimmed(line);
    t.len() > 0 && t[0] == '[' && t.last() == ']'
}

/// Whether a line sets the key.
pub open spec fn sets_key(line: Text, key: Text) -> bool {
    let (k, v) = halves(trimmed(line), Class::Is('='));
    v is Some && trimmed(k) == key
}

/// Where the group starts; the number of lines where it does not.
pub open spec fn group_place(ls: Seq<Text>, group: Text) -> int
    decreases ls.len(),
{
    if ls.len() == 0 || trimmed(ls[0]) == header_line(group) {
        0
    } else {
        1 + group_place(ls.drop_first(), group)
    }
}

/// The first line of a group's body that sets the key, or that starts the next group.
pub open spec fn key_place(body: Seq<Text>, key: Text) -> int
    decreases body.len(),
{
    if body.len() == 0 || starts_group(body[0]) || sets_key(body[0], key) {
        0
    } else {
        1 + key_place(body.drop_first(), key)
    }
}

/// How many lines are left of a group's body without the blank ones that end it.
pub open spec fn full_len(body: Seq<Text>) -> int
    decreases body.len(),
{
    if body.len() == 0 || trimmed(body.last()).len() > 0 {
        body.len() as int
    } else {
        full_len(body.drop_last())
    }
}

/// Whether the group sets the key, and in which line: the one behind `start` and `at`.
pub open spec fn key_set(ls: Seq<Text>, group: Text, key: Text) -> Option<int> {
    let start = group_place(ls, group);
    if start >= ls.len() {
        None
    } else {
        let body = ls.skip(start + 1);
        let at = key_place(body, key);
        if at < body.len() && !starts_group(body[at]) {
            Some(start + 1 + at)
        } else {
            None
        }
    }
}

/// The lines with the key set in the group: where the group sets it already, that line is
/// replaced; where it does not, a line is put at its end, before blank lines; where there
/// is no such group, it is put at the end, behind a blank line.
pub open spec fn with_key(ls: Seq<Text>, group: Text, key: Text, value: Text) -> Seq<Text> {
    let line = key_line(key, value);
    let start = group_place(ls, group);
    if start < ls.len() {
        match key_set(ls, group, key) {
            Some(at) => ls.update(at, line),
            None => {
                let body = ls.skip(start + 1);
                let at = full_len(body.take(key_place(body, key)));
                ls.insert(start + 1 + at, line)
            },
        }
    } else {
        let spaced = if ls.len() > 0 && trimmed(ls.last()).len() > 0 {
            ls.push(Seq::empty())
        } else {
            ls
        };
        spaced.push(header_line(group)).push(line)
    }
}

proof fn lemma_group_place(ls: Seq<Text>, group: Text)
    ensures
        0 <= group_place(ls, group) <= ls.len(),
        group_place(ls, group) < ls.len() ==> trimmed(ls[group_place(ls, group)])
            == header_line(group),
        forall|i: int| 0 <= i < group_place(ls, group) ==> trimmed(#[trigger] ls[i]) != header_line(group),
    decreases ls.len(),
{
    if ls.len() > 0 && trimmed(ls[0]) != header_line(group) {
        lemma_group_place(ls.drop_first(), group);
        let p = group_place(ls.drop_first(), group);
        assert forall|i: int| 0 <= i < 1 + p implies trimmed(#[trigger] ls[i]) != header_line(group) by {
            if i > 0 {
                assert(ls.drop_first()[i - 1] == ls[i]);
            }
        }
    }
}

proof fn lemma_group_place_is(ls: Seq<Text>, group: Text, p: int)
    requires
        0 <= p <= ls.len(),
        p < ls.len() ==> trimmed(ls[p]) == header_line(group),
        forall|i: int| 0 <= i < p ==> trimmed(#[trigger] ls[i]) != header_line(group),
    ensures
        group_place(ls, group) == p,
{
    lemma_group_place(ls, group);
    let q = group_place(ls, group);
    if q < p {
        assert(trimmed(ls[q]) != header_line(group));
    }
    if p < q {
        assert(trimmed(ls[p]) != header_line(group));
    }
}

proof fn lemma_key_place(body: Seq<Text>, key: Text)
    ensures
        0 <= key_place(body, key) <= body.len(),
        key_place(body, key) < body.len() ==> starts_group(body[key_place(body, key)]) || sets_key(
            body[key_place(body, key)],
            key,
        ),
        forall|i: int|
            0 <= i < key_place(body, key) ==> !starts_group(#[trigger] body[i]) && !sets_key(
                body[i],
                key,
            ),
    decreases body.len(),
{
    if body.len() > 0 && !starts_group(body[0]) && !sets_key(body[0], key) {
        lemma_key_place(body.drop_first(), key);
        let p = key_place(body.drop_first(), key);
        assert forall|i: int| 0 <= i < 1 + p implies !starts_group(#[trigger] body[i]) && !sets_key(
            body[i],
            key,
        ) by {
            if i > 0 {
                assert(body.drop_first()[i - 1] == body[i]);
            }
        }
    }
}

proof fn lemma_key_place_is(body: Seq<Text>, key: Text, p: int)
    requires
        0 <= p <= body.len(),
        p < body.len() ==> starts_group(body[p]) || sets_key(body[p], key),
        forall|i: int|
            0 <= i < p ==> !starts_group(#[trigger] body[i]) && !sets_key(body[i], key),
    ensures
        key_place(body, key) == p,
{
    lemma_key_place(body, key);
    let q = key_place(body, key);
    if q < p {
        assert(!starts_group(body[q]) && !sets_key(body[q], key));
    }
    if p < q {
        assert(!starts_group(body[p]) && !sets_key(body[p], key));
    }
}

proof fn lemma_full_len(body: Seq<Text>)
    ensures
        0 <= full_len(body) <= body.len(),
    decreases body.len(),
{
    if body.len() > 0 {
        lemma_full_len(body.drop_last());
    }
}

/// Tells whether a line starts a group.
fn is_header(line: &str) -> (r: bool)
    ensures
        r == starts_group(line@),
{
    let v = crate::text::chars_of(trim(line).as_str());
    v.len() > 0 && v[0] == '[' && v[v.len() - 1] == ']'
}

/// Tells whether a line sets the key.
fn is_key(line: &str, key: &str) -> (r: bool)
    ensures
        r == sets_key(line@, key@),
{
    let (k, v) = split_once(trim(line).as_str(), Class::Is('='));
    v.is_some() && same(trim(k.as_str()).as_str(), key)
}

/// Finds where a group starts.
fn find_group(ls: &Vec<String>, header: &str, Ghost(group): Ghost<Text>) -> (r: usize)
    requires
        header@ == header_line(group),
    ensures
        r == group_place(ls.deep_view(), group),
        r <= ls@.len(),
{
    let ghost all = ls.deep_view();
    let mut i: usize = 0;
    while i < ls.len() && !same(trim(ls[i].as_str()).as_str(), header)
        invariant
            i <= ls@.len() == all.len(),
            all == ls.deep_view(),
            header@ == header_line(group),
            forall|j: int| 0 <= j < i ==> trimmed(#[trigger] all[j]) != header_line(group),
        decreases ls@.len() - i,
    {
        assert(all[i as int] == ls@[i as int]@);
        i += 1;
    }
    proof {
        if i < ls@.len() {
            assert(all[i as int] == ls@[i as int]@);
        }
        lemma_group_place_is(all, group, i as int);
    }
    i
}

/// Finds the line of a group's body, which starts at `from`, that sets the key or starts
/// the next group.
fn find_key(ls: &Vec<String>, from: usize, key: &str) -> (r: usize)
    requires
        from <= ls@.len(),
    ensures
        from <= r <= ls@.len(),
        r - from == key_place(ls.deep_view().skip(from as int), key@),
{
    let ghost body = ls.deep_view().skip(from as int);
    let mut i: usize = from;
    while i < ls.len() && !is_header(ls[i].as_str()) && !is_key(ls[i].as_str(), key)
        invariant
            from <= i <= ls@.len(),
            body == ls.deep_view().skip(from as int),
            forall|j: int|
                0 <= j < i - from ==> !starts_group(#[trigger] body[j]) && !sets_key(body[j], key@),
        decreases ls@.len() - i,
    {
        assert(body[i - from] == ls@[i as int]@);
        i += 1;
    }
    proof {
        if i < ls@.len() {
            assert(body[i - from] == ls@[i as int]@);
        }
        lemma_key_place_is(body, key@, i - from);
    }
    i
}

/// Goes back over the blank lines before `to`, at most to `from`.
fn before_blank(ls: &Vec<String>, from: usize, to: usize) -> (r: usize)
    requires
        from <= to <= ls@.len(),
    ensures
        from <= r <= to,
        r - from == full_len(ls.deep_view().skip(from as int).take(to - from)),
{
    let ghost body = ls.deep_view().skip(from as int).take(to - from);
    let mut at: usize = to;
    assert(body.take(to - from) =~= body);
    while at > from && trim(ls[at - 1].as_str()).as_str().is_empty()
        invariant
            from <= at <= to <= ls@.len(),
            body == ls.deep_view().skip(from as int).take(to - from),
            full_len(body) == full_len(body.take(at - from)),
        decreases at,
    {
        assert(body.take(at - from).drop_last() =~= body.take(at - 1 - from));
        assert(body.take(at - from).last() == ls@[at - 1]@);
        at -= 1;
    }
    proof {
        if at > from {
            assert(body.take(at - from).last() == ls@[at - 1]@);
        }
    }
    at
}

/// Sets the key in the group.
fn set_key(ls: &mut Vec<String>, group: &str, key: &str, value: &str)
    ensures
        final(ls).deep_view() == with_key(old(ls).deep_view(), group@, key@, value@),
{
    let ghost all = ls.deep_view();
    let header = three("[", group, "]");
    let line = three(key, "=", value);
    let start: usize = find_group(ls, header.as_str(), Ghost(group@));
    if start < ls.len() {
        let ghost body = all.skip(start + 1);
        let at: usize = find_key(ls, start + 1, key);
        proof {
            lemma_key_place(body, key@);
            if at < ls@.len() {
                assert(body[at - start - 1] == ls@[at as int]@);
            }
        }
        if at < ls.len() && !is_header(ls[at].as_str()) {
            ls.set(at, line);
            assert(ls.deep_view() =~= all.update(at as int, line@));
        } else {
            let place: usize = before_blank(ls, start + 1, at);
            ls.insert(place, line);
            assert(ls.deep_view() =~= all.insert(place as int, line@));
        }
    } else {
        if ls.len() > 0 && !trim(ls[ls.len() - 1].as_str()).as_str().is_empty() {
            assert(all.last() == ls@.last()@);
            let blank = String::new();
            assert(blank@ =~= Seq::<char>::empty());
            ls.push(blank);
            assert(ls.deep_view() =~= all.push(Seq::empty()));
        } else if ls.len() > 0 {
            assert(all.last() == ls@.last()@);
        }
        let ghost spaced = ls.deep_view();
        ls.push(header);
        assert(ls.deep_view() =~= spaced.push(header@));
        ls.push(line);
        assert(ls.deep_view() =~= spaced.push(header@).push(line@));
    }
}

/// Sets a key in a group of a text of settings; all else stays as it is.
pub fn set_ini_key(input: &str, group: &str, key: &str, value: &str) -> (r: String)
    ensures
        r@ == join(with_key(lines(input@), group@, key@, value@), "\n"@) + "\n"@,
{
    let mut ls = split_lines(input);
    set_key(&mut ls, group, key, value);
    assert(ls.deep_view().skip(0) =~= ls.deep_view());
    let whole = join_from(ls.as_slice(), 0, "\n");
    two(whole.as_str(), "\n")
}

/// Where the settings of the Qt look are.
pub fn qt6ct_conf_path(home: Option<String>) -> (r: String)
    ensures
        r@ == crate::path::below(
            crate::path::below(
                crate::path::below(
                    (match home {
                        Some(h) => h@,
                        None => "."@,
                    }),
                    ".config"@,
                ),
                "qt6ct"@,
            ),
            "qt6ct.conf"@,
        ),
{
    let h: String = match home {
        Some(h) => h,
        None => ".".to_owned(),
    };
    join_path(
        join_path(join_path(h.as_str(), ".config").as_str(), "qt6ct").as_str(),
        "qt6ct.conf",
    )
}

/// Sets the icon theme in the settings of the Qt look, none of which need be there yet.
pub fn apply_qt6ct_icon_theme(existing: Option<&str>, dir_name: &str) -> (r: String)
    ensures
        r@ == join(
            with_key(
                lines(
                    match existing {
                        Some(t) => t@,
                        None => Seq::empty(),
                    },
                ),
                "Appearance"@,
                "icon_theme"@,
                dir_name@,
            ),
            "\n"@,
        ) + "\n"@,
{
    match existing {
        Some(t) => set_ini_key(t, "Appearance", "icon_theme", dir_name),
        None => {
            proof {
                reveal_strlit("");
            }
            assert(""@ =~= Seq::<char>::empty());
            set_ini_key("", "Appearance", "icon_theme", dir_name)
        },
    }
}

// --- laws ---------------------------------------------------------------------------------

/// Whether a line that sets the key is read as such.
pub open spec fn settable(key: Text, value: Text) -> bool {
    sets_key(key_line(key, value), key) && !starts_group(key_line(key, value))
}

/// A header is read as one.
proof fn lemma_header(group: Text)
    ensures
        trimmed(header_line(group)) == header_line(group),
        starts_group(header_line(group)),
{
    reveal_strlit("[");
    reveal_strlit("]");
    let h = header_line(group);
    assert(h.len() >= 2 && h[0] == '[' && h.last() == ']');
}

/// Once a key is set in a group, the group sets it, in the line that was written.
pub proof fn law_key_is_set(ls: Seq<Text>, group: Text, key: Text, value: Text)
    requires
        settable(key, value),
    ensures
        ({
            let r = with_key(ls, group, key, value);
            key_set(r, group, key) matches Some(at) && 0 <= at < r.len() && r[at] == key_line(key, value)
        }),
{
    let line = key_line(key, value);
    let r = with_key(ls, group, key, value);
    lemma_header(group);
    lemma_group_place(ls, group);
    let start = group_place(ls, group);
    if start < ls.len() {
        let body = ls.skip(start + 1);
        lemma_key_place(body, key);
        let k = key_place(body, key);
        match key_set(ls, group, key) {
            Some(at) => {
                assert(at == start + 1 + k);
                assert forall|i: int| 0 <= i < start implies trimmed(#[trigger] r[i]) != header_line(group) by {
                    assert(r[i] == ls[i]);
                }
                lemma_group_place_is(r, group, start);
                let b = r.skip(start + 1);
                assert forall|i: int| 0 <= i < k implies !starts_group(#[trigger] b[i]) && !sets_key(b[i], key) by {
                    assert(b[i] == body[i]);
                }
                assert(b[k] == line);
                lemma_key_place_is(b, key, k);
            },
            None => {
                lemma_full_len(body.take(k));
                let f = full_len(body.take(k));
                assert forall|i: int| 0 <= i < start implies trimmed(#[trigger] r[i]) != header_line(group) by {
                    assert(r[i] == ls[i]);
                }
                assert(r[start] == ls[start]);
                lemma_group_place_is(r, group, start);
                let b = r.skip(start + 1);
                assert forall|i: int| 0 <= i < f implies !starts_group(#[trigger] b[i]) && !sets_key(b[i], key) by {
                    assert(b[i] == body[i]);
                }
                assert(b[f] == line);
                lemma_key_place_is(b, key, f);
            },
        }
    } else {
        let n = r.len();
        assert forall|i: int| 0 <= i < n - 2 implies trimmed(#[trigger] r[i]) != header_line(group) by {
            if i < ls.len() {
                assert(r[i] == ls[i]);
            } else {
                assert(r[i] =~= Seq::<char>::empty());
                assert(trimmed(r[i]).len() == 0);
            }
        }
        lemma_group_place_is(r, group, n - 2);
        let b = r.skip(n - 1);
        assert(b[0] == line);
        lemma_key_place_is(b, key, 0);
    }
}

/// To set a key twice is to set it once, to the second value.
pub proof fn law_set_twice(ls: Seq<Text>, group: Text, key: Text, first: Text, second: Text)
    requires
        settable(key, first),
    ensures
        ({
            let once = with_key(ls, group, key, first);
            with_key(once, group, key, second) == once.update(
                key_set(once, group, key)->Some_0,
                key_line(key, second),
            )
        }),
        first == second ==> with_key(with_key(ls, group, key, first), group, key, second)
            == with_key(ls, group, key, first),
{
    law_key_is_set(ls, group, key, first);
    let once = with_key(ls, group, key, first);
    lemma_group_place(once, group);
    assert(group_place(once, group) < once.len());
    if first == second {
        assert(with_key(once, group, key, second) =~= once);
    }
}

/// Whatever else the lines held stays, in its order: at most one line is replaced, one
/// that set the key, or one is put in, or the group is put behind all of them.
pub proof fn law_others_stay(ls: Seq<Text>, group: Text, key: Text, value: Text)
    ensures
        ({
            let r = with_key(ls, group, key, value);
            let line = key_line(key, value);
            ||| exists|i: int| 0 <= i < ls.len() && sets_key(#[trigger] ls[i], key) && r == ls.update(i, line)
            ||| exists|i: int| 0 <= i <= ls.len() && r == #[trigger] ls.insert(i, line)
            ||| r == ls + seq![header_line(group), line]
            ||| r == ls + seq![Seq::empty(), header_line(group), line]
        }),
{
    let r = with_key(ls, group, key, value);
    let line = key_line(key, value);
    lemma_group_place(ls, group);
    let start = group_place(ls, group);
    if start < ls.len() {
        let body = ls.skip(start + 1);
        lemma_key_place(body, key);
        let k = key_place(body, key);
        match key_set(ls, group, key) {
            Some(at) => {
                assert(body[k] == ls[at]);
                assert(sets_key(ls[at], key) && r == ls.update(at, line));
            },
            None => {
                lemma_full_len(body.take(k));
                let at = start + 1 + full_len(body.take(k));
                assert(r == ls.insert(at, line));
            },
        }
    } else if ls.len() > 0 && trimmed(ls.last()).len() > 0 {
        assert(r =~= ls + seq![Seq::empty(), header_line(group), line]);
    } else {
        assert(r =~= ls + seq![header_line(group), line]);
    }
}

} // verus!
