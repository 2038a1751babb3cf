//! Strings as sequences of characters: cutting, joining, and numbers.

use vstd::prelude::*;

verus! {

/// `String::push`: the string grows by the character, at its end.
pub assume_specification[ String::push ](s: &mut String, c: char)
    ensures
        final(s)@ == old(s)@.push(c),
;

/// A string as its sequence of characters.
pub type Text = Seq<char>;

/// A kind of character that a string is cut at.
#[derive(Clone, Copy, Debug)]
pub enum Class {
    /// One given character.
    Is(char),
    /// A plus or a minus.
    Sign,
    /// White space, as Unicode has it.
    White,
    /// The letter before an exponent.
    Exponent,
}

/// Whether Unicode counts the character as white space.
pub open spec fn is_white(c: char) -> bool {
    let u = c as u32;
    ||| 9 <= u <= 13
    ||| u == 0x20
    ||| u == 0x85
    ||| u == 0xa0
    ||| u == 0x1680
    ||| 0x2000 <= u <= 0x200a
    ||| u == 0x2028
    ||| u == 0x2029
    ||| u == 0x202f
    ||| u == 0x205f
    ||| u == 0x3000
}

impl Class {
    /// Whether the character is of this kind.
    pub open spec fn has(self, c: char) -> bool {
        match self {
            Class::Is(d) => c == d,
            Class::Sign => c == '+' || c == '-',
            Class::White => is_white(c),
            Class::Exponent => c == 'e' || c == 'E',
        }
    }

    /// Whether the character is of this kind.
    pub fn test(self, c: char) -> (r: bool)
        ensures
            r == self.has(c),
    {
        match self {
            Class::Is(d) => c == d,
            Class::Sign => c == '+' || c == '-',
            Class::White => {
                let u: u32 = c as u32;
                (9 <= u && u <= 13) || u == 0x20 || u == 0x85 || u == 0xa0 || u == 0x1680 || (0x2000
                    <= u && u <= 0x200a) || u == 0x2028 || u == 0x2029 || u == 0x202f || u == 0x205f
                    || u == 0x3000
            },
            Class::Exponent => c == 'e' || c == 'E',
        }
    }
}

/// The characters of a string, one by one.
pub fn chars_of(s: &str) -> (r: Vec<char>)
    ensures
        r@ == s@,
{
    let mut r: Vec<char> = Vec::new();
    for c in it: s.chars()
        invariant
            it.seq() == s@,
            r@ == s@.take(it.index()),
    {
        r.push(c);
        assert(s@.take(it.index() + 1) =~= s@.take(it.index()).push(c));
    }
    assert(s@.take(s@.len() as int) =~= s@);
    r
}

/// The string of the characters from `from` up to `to`.
pub fn string_of(v: &Vec<char>, from: usize, to: usize) -> (r: String)
    requires
        from <= to <= v@.len(),
    ensures
        r@ == v@.subrange(from as int, to as int),
{
    let mut r = String::new();
    let mut i: usize = from;
    while i < to
        invariant
            from <= i <= to <= v@.len(),
            r@ == v@.subrange(from as int, i as int),
        decreases to - i,
    {
        r.push(v[i]);
        assert(v@.subrange(from as int, i as int + 1) =~= v@.subrange(from as int, i as int).push(
            v@[i as int],
        ));
        i += 1;
    }
    r
}

/// Whether two strings hold the same characters.
pub fn same(a: &str, b: &str) -> (r: bool)
    ensures
        r == (a@ == b@),
{
    a.to_owned() == b.to_owned()
}

/// A letter of the alphabet in lower case; any other character as it is.
pub open spec fn lower_char(c: char) -> char {
    if 'A' as u32 <= c as u32 <= 'Z' as u32 {
        ((c as u32 + 32) as u32) as char
    } else {
        c
    }
}

/// The text with the letters of the alphabet in lower case.
pub open spec fn lower(s: Text) -> Text {
    s.map_values(|c: char| lower_char(c))
}

/// A letter of the alphabet in lower case.
pub fn to_lower(c: char) -> (r: char)
    ensures
        r == lower_char(c),
{
    let u: u32 = c as u32;
    if 65 <= u && u <= 90 {
        (c as u8 + 32) as char
    } else {
        c
    }
}

/// A string with the letters of the alphabet in lower case.
pub fn lowered(s: &str) -> (r: String)
    ensures
        r@ == lower(s@),
{
    let v = chars_of(s);
    let mut r = String::new();
    let mut i: usize = 0;
    while i < v.len()
        invariant
            i <= v@.len(),
            r@ == lower(v@.take(i as int)),
        decreases v@.len() - i,
    {
        r.push(to_lower(v[i]));
        i += 1;
        assert(lower(v@.take(i as int)) =~= r@);
    }
    assert(v@.take(i as int) =~= v@);
    r
}

// --- cutting -------------------------------------------------------------------

/// Where the first character of the kind stands; the length where there is none.
pub open spec fn position(s: Text, k: Class) -> int
    decreases s.len(),
{
    if s.len() == 0 || k.has(s[0]) {
        0
    } else {
        1 + position(s.drop_first(), k)
    }
}

/// What `position` finds: the first hit, with none before it.
pub proof fn lemma_position(s: Text, k: Class)
    ensures
        0 <= position(s, k) <= s.len(),
        position(s, k) < s.len() ==> k.has(s[position(s, k)]),
        forall|j: int| 0 <= j < position(s, k) ==> !k.has(#[trigger] s[j]),
    decreases s.len(),
{
    if s.len() > 0 && !k.has(s[0]) {
        lemma_position(s.drop_first(), k);
        assert forall|j: int| 0 <= j < position(s, k) implies !k.has(#[trigger] s[j]) by {
            if j > 0 {
                assert(s[j] == s.drop_first()[j - 1]);
            }
        }
    }
}

/// A position with a hit, and none before it, is the one that `position` names.
pub proof fn lemma_position_is(s: Text, k: Class, i: int)
    requires
        0 <= i <= s.len(),
        i < s.len() ==> k.has(s[i]),
        forall|j: int| 0 <= j < i ==> !k.has(#[trigger] s[j]),
    ensures
        position(s, k) == i,
{
    lemma_position(s, k);
    let p = position(s, k);
    if p < i {
        assert(!k.has(s[p]));
    }
    if i < p {
        assert(!k.has(s[i]));
    }
}

/// The first character of the kind at or after `from`.
pub fn find_from(v: &Vec<char>, from: usize, k: Class) -> (r: usize)
    requires
        from <= v@.len(),
    ensures
        from <= r <= v@.len(),
        r == from + position(v@.skip(from as int), k),
        r < v@.len() ==> k.has(v@[r as int]),
        forall|j: int| from <= j < r ==> !k.has(#[trigger] v@[j]),
{
    let mut i: usize = from;
    while i < v.len() && !k.test(v[i])
        invariant
            from <= i <= v@.len(),
            forall|j: int| from <= j < i ==> !k.has(#[trigger] v@[j]),
        decreases v@.len() - i,
    {
        i += 1;
    }
    proof {
        lemma_position_is(v@.skip(from as int), k, i - from);
    }
    i
}

/// The parts between the characters of the kind, the empty ones too.
pub open spec fn fields(s: Text, k: Class) -> Seq<Text>
    decreases s.len(),
    via fields_decreases
{
    let i = position(s, k);
    if i >= s.len() {
        seq![s]
    } else {
        seq![s.take(i)] + fields(s.skip(i + 1), k)
    }
}

#[via_fn]
proof fn fields_decreases(s: Text, k: Class) {
    lemma_position(s, k);
}

/// Cuts a string at every character of the kind.
pub fn split(s: &str, k: Class) -> (r: Vec<String>)
    ensures
        r.deep_view() == fields(s@, k),
{
    let v = chars_of(s);
    let mut r: Vec<String> = Vec::new();
    let mut from: usize = 0;
    let mut open: bool = true;
    assert(v@.skip(0) =~= v@);
    assert(r.deep_view() + fields(v@, k) =~= fields(v@, k));
    while open
        invariant
            from <= v@.len(),
            open ==> r.deep_view() + fields(v@.skip(from as int), k) == fields(v@, k),
            !open ==> r.deep_view() == fields(v@, k),
        decreases v@.len() - from, if open { 1int } else { 0 },
    {
        let to: usize = find_from(&v, from, k);
        let ghost before = r.deep_view();
        let ghost rest = v@.skip(from as int);
        r.push(string_of(&v, from, to));
        assert(r.deep_view() =~= before.push(rest.take(to - from))) by {
            assert(rest.take(to - from) =~= v@.subrange(from as int, to as int));
        }
        if to < v.len() {
            assert(rest.skip(to - from + 1) =~= v@.skip(to + 1));
            assert(before + (seq![rest.take(to - from)] + fields(v@.skip(to + 1), k))
                =~= r.deep_view() + fields(v@.skip(to + 1), k));
            from = to + 1;
        } else {
            assert(rest.take(to - from) =~= rest);
            assert(before + seq![rest] =~= r.deep_view());
            open = false;
        }
    }
    r
}

/// A text that the character is not in is in one part.
pub proof fn lemma_uncut(t: Text, c: char)
    requires
        !t.contains(c),
    ensures
        fields(t, Class::Is(c)) == seq![t],
{
    lemma_position(t, Class::Is(c));
    let p = position(t, Class::Is(c));
    if p < t.len() {
        assert(t.contains(t[p]));
    }
}

/// The first part of a text ends at the first cut.
pub proof fn lemma_first_cut(head: Text, c: char, rest: Text)
    requires
        !head.contains(c),
    ensures
        fields(head.push(c) + rest, Class::Is(c)) == seq![head] + fields(rest, Class::Is(c)),
{
    let k = Class::Is(c);
    let whole = head.push(c) + rest;
    assert forall|j: int| 0 <= j < head.len() implies !k.has(#[trigger] whole[j]) by {
        assert(head.contains(head[j]));
    }
    lemma_position_is(whole, k, head.len() as int);
    assert(whole.take(head.len() as int) =~= head);
    assert(whole.skip(head.len() as int + 1) =~= rest);
}

/// The last part of a text starts at the last cut.
pub proof fn lemma_last_cut(head: Text, c: char, last: Text)
    requires
        !last.contains(c),
    ensures
        fields(head.push(c) + last, Class::Is(c)) == fields(head, Class::Is(c)).push(last),
    decreases head.len(),
{
    let k = Class::Is(c);
    let whole = head.push(c) + last;
    lemma_position(head, k);
    let p = position(head, k);
    if p < head.len() {
        assert forall|j: int| 0 <= j < p implies !k.has(#[trigger] whole[j]) by {
            assert(whole[j] == head[j]);
        }
        lemma_position_is(whole, k, p);
        lemma_last_cut(head.skip(p + 1), c, last);
        assert(whole.skip(p + 1) =~= head.skip(p + 1).push(c) + last);
        assert(whole.take(p) =~= head.take(p));
        assert(fields(whole, k) =~= fields(head, k).push(last));
    } else {
        assert(!head.contains(c)) by {
            if head.contains(c) {
                let j = choose|j: int| 0 <= j < head.len() && head[j] == c;
                assert(!k.has(head[j]));
            }
        }
        lemma_first_cut(head, c, last);
        lemma_uncut(last, c);
        lemma_uncut(head, c);
        assert(fields(whole, k) =~= fields(head, k).push(last));
    }
}

/// The parts that are not empty.
pub open spec fn nonempty(parts: Seq<Text>) -> Seq<Text>
    decreases parts.len(),
{
    if parts.len() == 0 {
        parts
    } else if parts.last().len() == 0 {
        nonempty(parts.drop_last())
    } else {
        nonempty(parts.drop_last()).push(parts.last())
    }
}

/// The words of a string: its parts between white space that are not empty.
pub open spec fn words(s: Text) -> Seq<Text> {
    nonempty(fields(s, Class::White))
}

/// Cuts a string at every character of the kind and drops the empty parts.
pub fn split_nonempty(s: &str, k: Class) -> (r: Vec<String>)
    ensures
        r.deep_view() == nonempty(fields(s@, k)),
{
    let parts = split(s, k);
    let mut r: Vec<String> = Vec::new();
    let mut i: usize = 0;
    assert(parts.deep_view().take(0) =~= Seq::<Text>::empty());
    assert(r.deep_view() =~= Seq::<Text>::empty());
    while i < parts.len()
        invariant
            i <= parts.len(),
            r.deep_view() == nonempty(parts.deep_view().take(i as int)),
        decreases parts.len() - i,
    {
        let ghost all = parts.deep_view();
        let ghost before = r.deep_view();
        assert(all.take(i + 1).drop_last() =~= all.take(i as int));
        assert(all.take(i + 1).last() == all[i as int]);
        if !parts[i].as_str().is_empty() {
            r.push(parts[i].clone());
            assert(r.deep_view() =~= before.push(all[i as int]));
        }
        i += 1;
    }
    assert(parts.deep_view().take(i as int) =~= parts.deep_view());
    r
}

// --- joining -------------------------------------------------------------------

/// The parts one after the other, with `sep` between each two.
pub open spec fn join(parts: Seq<Text>, sep: Text) -> Text
    decreases parts.len(),
{
    if parts.len() == 0 {
        Seq::empty()
    } else if parts.len() == 1 {
        parts[0]
    } else {
        join(parts.drop_last(), sep) + sep + parts.last()
    }
}

/// Joins the parts from `from` on, with `sep` between each two.
pub fn join_from(parts: &[String], from: usize, sep: &str) -> (r: String)
    requires
        from <= parts@.len(),
    ensures
        r@ == join(parts.deep_view().skip(from as int), sep@),
{
    let ghost all = parts.deep_view().skip(from as int);
    let mut r = String::new();
    let mut i: usize = from;
    while i < parts.len()
        invariant
            from <= i <= parts@.len(),
            all == parts.deep_view().skip(from as int),
            r@ == join(all.take(i - from), sep@),
        decreases parts@.len() - i,
    {
        let ghost before = r@;
        assert(all.take(i - from + 1).drop_last() =~= all.take(i - from));
        assert(all.take(i - from + 1).last() == parts@[i as int]@);
        if i > from {
            r.append(sep);
        }
        r.append(parts[i].as_str());
        if i == from {
            assert(all.take(1)[0] == parts@[i as int]@);
            assert(before + parts@[i as int]@ =~= parts@[i as int]@);
        }
        i += 1;
    }
    assert(all.take(i - from) =~= all);
    r
}

// --- trimming and searching ----------------------------------------------------

/// The string without the characters of the kind at its start.
pub open spec fn trim_start(s: Text, k: Class) -> Text
    decreases s.len(),
{
    if s.len() > 0 && k.has(s[0]) {
        trim_start(s.drop_first(), k)
    } else {
        s
    }
}

/// The string without the characters of the kind at its end.
pub open spec fn trim_end(s: Text, k: Class) -> Text
    decreases s.len(),
{
    if s.len() > 0 && k.has(s.last()) {
        trim_end(s.drop_last(), k)
    } else {
        s
    }
}

/// The string without the white space around it.
pub open spec fn trimmed(s: Text) -> Text {
    trim_end(trim_start(s, Class::White), Class::White)
}

/// How many characters of the kind the string starts with, after the first `from`.
fn skip_start(v: &Vec<char>, k: Class) -> (r: usize)
    ensures
        r <= v@.len(),
        v@.skip(r as int) == trim_start(v@, k),
{
    let mut i: usize = 0;
    assert(v@.skip(0) =~= v@);
    while i < v.len() && k.test(v[i])
        invariant
            i <= v@.len(),
            trim_start(v@.skip(i as int), k) == trim_start(v@, k),
        decreases v@.len() - i,
    {
        assert(v@.skip(i as int).drop_first() =~= v@.skip(i + 1));
        i += 1;
    }
    i
}

/// Drops the characters of the kind at the start of a string.
pub fn strip_start(s: &str, k: Class) -> (r: String)
    ensures
        r@ == trim_start(s@, k),
{
    let v = chars_of(s);
    let from: usize = skip_start(&v, k);
    assert(v@.subrange(from as int, v@.len() as int) =~= v@.skip(from as int));
    string_of(&v, from, v.len())
}

/// Drops the characters of the kind at the end of a string.
pub fn strip_end(s: &str, k: Class) -> (r: String)
    ensures
        r@ == trim_end(s@, k),
{
    let v = chars_of(s);
    let mut to: usize = v.len();
    assert(v@.take(to as int) =~= v@);
    while to > 0 && k.test(v[to - 1])
        invariant
            to <= v@.len(),
            trim_end(v@.take(to as int), k) == trim_end(v@, k),
        decreases to,
    {
        assert(v@.take(to as int).drop_last() =~= v@.take(to - 1));
        to -= 1;
    }
    assert(v@.subrange(0, to as int) =~= v@.take(to as int));
    string_of(&v, 0, to)
}

/// Drops the white space around a string.
pub fn trim(s: &str) -> (r: String)
    ensures
        r@ == trimmed(s@),
{
    let head = strip_start(s, Class::White);
    strip_end(head.as_str(), Class::White)
}

/// Whether the string starts with `pre`.
pub open spec fn has_prefix(s: Text, pre: Text) -> bool {
    pre.len() <= s.len() && s.take(pre.len() as int) == pre
}

/// Whether `pat` stands in the string at `at`.
pub open spec fn has_at(s: Text, pat: Text, at: int) -> bool {
    0 <= at && at + pat.len() <= s.len() && s.subrange(at, at + pat.len()) == pat
}

/// Whether `pat` stands somewhere in the string.
pub open spec fn has_part(s: Text, pat: Text) -> bool {
    exists|at: int| #[trigger] has_at(s, pat, at)
}

/// Whether `pat` stands in the characters at `at`.
fn matches_at(v: &Vec<char>, p: &Vec<char>, at: usize) -> (r: bool)
    requires
        at <= v@.len(),
    ensures
        r == has_at(v@, p@, at as int),
{
    if p.len() > v.len() - at {
        return false;
    }
    let mut i: usize = 0;
    while i < p.len()
        invariant
            i <= p@.len(),
            at + p@.len() <= v@.len() == v.len(),
            forall|j: int| at <= j < at + i ==> #[trigger] v@[j] == p@[j - at],
        decreases p@.len() - i,
    {
        if v[at + i] != p[i] {
            assert(v@.subrange(at as int, at + p@.len())[i as int] != p@[i as int]);
            return false;
        }
        i += 1;
    }
    assert(v@.subrange(at as int, at + p@.len()) =~= p@);
    true
}

/// Whether a string starts with another.
pub fn starts_with(s: &str, pre: &str) -> (r: bool)
    ensures
        r == has_prefix(s@, pre@),
{
    let v = chars_of(s);
    let p = chars_of(pre);
    assert(p@.len() <= v@.len() ==> v@.subrange(0, p@.len() as int) =~= v@.take(p@.len() as int));
    matches_at(&v, &p, 0)
}

/// Whether a string holds another.
pub fn contains(s: &str, pat: &str) -> (r: bool)
    ensures
        r == has_part(s@, pat@),
{
    let v = chars_of(s);
    let p = chars_of(pat);
    if p.len() > v.len() {
        return false;
    }
    let last: usize = v.len() - p.len();
    let mut at: usize = 0;
    while at < last
        invariant
            at <= last == v@.len() - p@.len(),
            forall|j: int| 0 <= j < at ==> !#[trigger] has_at(v@, p@, j),
            v@ == s@,
            p@ == pat@,
        decreases last - at,
    {
        if matches_at(&v, &p, at) {
            return true;
        }
        at += 1;
    }
    matches_at(&v, &p, last)
}

/// What follows `pre` in the text, where it starts with it.
pub open spec fn after(s: Text, pre: Text) -> Option<Text> {
    if has_prefix(s, pre) {
        Some(s.skip(pre.len() as int))
    } else {
        None
    }
}

/// What follows `pre` in a string, where it starts with it.
pub fn strip_prefix(s: &str, pre: &str) -> (r: Option<String>)
    ensures
        r.deep_view() == after(s@, pre@),
{
    let v = chars_of(s);
    let p = chars_of(pre);
    assert(p@.len() <= v@.len() ==> v@.subrange(0, p@.len() as int) =~= v@.take(p@.len() as int));
    if matches_at(&v, &p, 0) {
        assert(v@.subrange(p@.len() as int, v@.len() as int) =~= v@.skip(p@.len() as int));
        Some(string_of(&v, p.len(), v.len()))
    } else {
        None
    }
}

/// What stands before the first character of the kind, and what stands behind it.
pub open spec fn halves(s: Text, k: Class) -> (Text, Option<Text>) {
    let i = position(s, k);
    if i < s.len() {
        (s.take(i), Some(s.skip(i + 1)))
    } else {
        (s, None)
    }
}

/// Cuts a string at the first character of the kind.
pub fn split_once(s: &str, k: Class) -> (r: (String, Option<String>))
    ensures
        r.0@ == halves(s@, k).0,
        r.1.deep_view() == halves(s@, k).1,
{
    let v = chars_of(s);
    assert(v@.skip(0) =~= v@);
    let at: usize = find_from(&v, 0, k);
    if at < v.len() {
        assert(v@.subrange(0, at as int) =~= v@.take(at as int));
        assert(v@.subrange(at + 1, v@.len() as int) =~= v@.skip(at + 1));
        (string_of(&v, 0, at), Some(string_of(&v, at + 1, v.len())))
    } else {
        (s.to_owned(), None)
    }
}

/// The texts between the commas of a list, without the white space around each; those
/// that are empty are left out.
pub open spec fn listed(s: Text) -> Seq<Text> {
    nonempty(fields(s, Class::Is(',')).map_values(|t: Text| trimmed(t)))
}

/// Reads a list of strings between commas.
pub fn read_list(s: &str) -> (r: Vec<String>)
    ensures
        r.deep_view() == listed(s@),
{
    let parts = split(s, Class::Is(','));
    let ghost all = parts.deep_view();
    let ghost cut = all.map_values(|t: Text| trimmed(t));
    let mut r: Vec<String> = Vec::new();
    let mut i: usize = 0;
    assert(cut.take(0) =~= Seq::<Text>::empty());
    assert(r.deep_view() =~= Seq::<Text>::empty());
    while i < parts.len()
        invariant
            i <= parts@.len() == all.len(),
            all == parts.deep_view(),
            cut == all.map_values(|t: Text| trimmed(t)),
            r.deep_view() == nonempty(cut.take(i as int)),
        decreases parts@.len() - i,
    {
        let t = trim(parts[i].as_str());
        assert(cut.take(i + 1).drop_last() =~= cut.take(i as int));
        assert(all[i as int] == parts@[i as int]@);
        assert(cut.take(i + 1).last() == t@);
        let ghost before = r.deep_view();
        if !t.as_str().is_empty() {
            r.push(t);
            assert(r.deep_view() =~= before.push(t@));
        }
        i += 1;
    }
    assert(cut.take(i as int) =~= cut);
    r
}

// --- lines ------------------------------------------------------------------------------

/// A line without the carriage return that may end it.
pub open spec fn without_return(s: Text) -> Text {
    if s.len() > 0 && s.last() == '\r' {
        s.drop_last()
    } else {
        s
    }
}

/// How many lines parts between line ends make: one less than there are parts where
/// nothing follows the last line end.
pub open spec fn line_count(parts: Seq<Text>) -> nat {
    if parts.len() > 0 && parts.last().len() == 0 {
        (parts.len() - 1) as nat
    } else {
        parts.len()
    }
}

/// The lines of a text. A carriage return right before a line end belongs to it.
pub open spec fn lines(s: Text) -> Seq<Text> {
    let parts = fields(s, Class::Is('\n'));
    Seq::new(
        line_count(parts),
        |i: int|
            if i < parts.len() - 1 {
                without_return(parts[i])
            } else {
                parts[i]
            },
    )
}

/// Drops the carriage return that may end a line.
fn drop_return(s: &String) -> (r: String)
    ensures
        r@ == without_return(s@),
{
    let v = chars_of(s.as_str());
    if v.len() > 0 && v[v.len() - 1] == '\r' {
        assert(v@.subrange(0, v@.len() - 1) =~= v@.drop_last());
        string_of(&v, 0, v.len() - 1)
    } else {
        s.clone()
    }
}

/// Cuts a string into its lines.
pub fn split_lines(s: &str) -> (r: Vec<String>)
    ensures
        r.deep_view() == lines(s@),
{
    let parts = split(s, Class::Is('\n'));
    let ghost all = parts.deep_view();
    let n: usize = parts.len();
    let count: usize = if n > 0 && parts[n - 1].as_str().is_empty() {
        n - 1
    } else {
        n
    };
    proof {
        if n > 0 {
            assert(all.last() == parts@[n - 1]@);
        }
    }
    let ghost target = lines(s@);
    let mut r: Vec<String> = Vec::new();
    let mut i: usize = 0;
    assert(r.deep_view() =~= target.take(0));
    while i < count
        invariant
            i <= count <= n == parts@.len(),
            all == parts.deep_view(),
            all == fields(s@, Class::Is('\n')),
            target == lines(s@),
            line_count(all) == count,
            r.deep_view() == target.take(i as int),
        decreases count - i,
    {
        let ghost before = r.deep_view();
        let line = if i < n - 1 {
            drop_return(&parts[i])
        } else {
            parts[i].clone()
        };
        r.push(line);
        i += 1;
        proof {
            assert(all[i - 1] == parts@[i - 1]@);
            assert(target[i - 1] == line@);
            assert(r.deep_view() =~= before.push(line@));
            assert(target.take(i as int) =~= target.take(i - 1).push(target[i - 1]));
        }
    }
    assert(target.take(i as int) =~= target);
    r
}

} // verus!
