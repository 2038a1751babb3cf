//! The launcher: applications, and a fuzzy search among lines.

use vstd::prelude::*;
use vstd::utf8::encode_utf8;
use crate::monitor::{clip, clip_to};
use crate::table::{comes_before, text_before};
use crate::text::{
    after, chars_of, join, join_from, lines, lower, lowered, same, split_lines, split_nonempty,
    string_of, strip_prefix, trim, trimmed, words, Class, Text,
};

verus! {

/// An application that can be started.
#[derive(Debug)]
pub struct DesktopApp {
    pub name: String,
    pub command: String,
}

impl DeepView for DesktopApp {
    type V = (Text, Text);

    open spec fn deep_view(&self) -> (Text, Text) {
        (self.name@, self.command@)
    }
}

/// The launcher while it is open.
#[derive(Debug)]
pub struct Launcher {
    pub query: String,
    pub entries: Vec<String>,
    /// The command of each entry, where it starts applications.
    pub execs: Option<Vec<String>>,
    /// The entries that match, the best first.
    pub matches: Vec<usize>,
    /// The match that is marked.
    pub selected: usize,
    /// The first match that is seen.
    pub scroll: usize,
}

/// The launcher, its strings as texts.
#[verifier::ext_equal]
pub ghost struct LauncherModel {
    pub query: Text,
    pub entries: Seq<Text>,
    pub execs: Option<Seq<Text>>,
    pub matches: Seq<usize>,
    pub selected: usize,
    pub scroll: usize,
}

impl DeepView for Launcher {
    type V = LauncherModel;

    open spec fn deep_view(&self) -> LauncherModel {
        LauncherModel {
            query: self.query@,
            entries: self.entries.deep_view(),
            execs: self.execs.deep_view(),
            matches: self.matches@,
            selected: self.selected,
            scroll: self.scroll,
        }
    }
}

// --- searching --------------------------------------------------------------------------------

/// The text in lower case, as Unicode has it.
pub uninterp spec fn lowercase(s: Seq<char>) -> Seq<char>;

/// Puts a string in lower case: `str::to_lowercase`, whose result depends on the string
/// alone and is named, not described.
#[verifier::external_body]
pub(crate) fn to_lowercase(s: &str) -> (r: String)
    ensures
        r@ == lowercase(s@),
{
    s.to_lowercase()
}

/// Whether Unicode counts the character as a letter or a number.
pub uninterp spec fn is_alphanumeric(c: char) -> bool;

/// Asks for a character's kind: `char::is_alphanumeric`, whose result depends on the
/// character alone and is named, not described.
#[verifier::external_body]
pub(crate) fn alphanumeric(c: char) -> (r: bool)
    ensures
        r == is_alphanumeric(c),
{
    c.is_alphanumeric()
}

/// The places in a text at which a word starts: the first, and each after a character
/// that is neither a letter nor a number.
pub open spec fn word_starts(t: Text) -> Seq<bool> {
    Seq::new(t.len(), |i: int| i == 0 || !is_alphanumeric(t[i - 1]))
}

/// A search under way: how many characters of the query were found, what they count,
/// and where the last of them stands.
#[verifier::ext_equal]
pub ghost struct Search {
    pub found: int,
    pub points: int,
    pub last: int,
}

/// The search among the first `n` characters: each character of the query is found at
/// the first place after the one before it. One counts 1, and 5 more where it follows
/// the one before it at once, and 3 more where it starts a word.
pub open spec fn search(q: Text, t: Text, starts: Seq<bool>, n: nat) -> Search
    decreases n,
{
    if n == 0 {
        Search { found: 0, points: 0, last: -2 }
    } else {
        let s = search(q, t, starts, (n - 1) as nat);
        let i = n - 1;
        if s.found < q.len() && t[i] == q[s.found] {
            Search {
                found: s.found + 1,
                points: s.points + 1 + (if s.last == i - 1 {
                    5int
                } else {
                    0
                }) + (if starts[i] {
                    3int
                } else {
                    0
                }),
                last: i,
            }
        } else {
            s
        }
    }
}

/// What a query counts in a text, both in lower case: what its characters count, less
/// one for every twenty of the text; none where they are not all found in their order.
pub open spec fn score(q: Text, t: Text, starts: Seq<bool>) -> Option<i32> {
    let s = search(q, t, starts, t.len());
    if s.found == q.len() {
        Some(clip(s.points - t.len() / 20))
    } else {
        None
    }
}

/// What a query counts in a text; nothing is found everywhere and counts nothing.
pub open spec fn fuzzy(query: Text, text: Text) -> Option<i32> {
    if query.len() == 0 {
        Some(0i32)
    } else {
        score(lowercase(query), lowercase(text), word_starts(lowercase(text)))
    }
}

/// What a query counts in a text, both in lower case.
pub fn score_lowered(q: &Vec<char>, t: &Vec<char>, starts: &Vec<bool>) -> (r: Option<i32>)
    requires
        starts@.len() == t@.len(),
    ensures
        r == score(q@, t@, starts@),
{
    let mut found: usize = 0;
    let mut points: i128 = 0;
    let mut last: i128 = -2;
    let mut i: usize = 0;
    while i < t.len()
        invariant
            i <= t@.len() == starts@.len(),
            found <= q@.len(),
            0 <= points <= 9 * i,
            -2 <= last < i,
            search(q@, t@, starts@, i as nat) == (Search {
                found: found as int,
                points: points as int,
                last: last as int,
            }),
        decreases t@.len() - i,
    {
        if found < q.len() && t[i] == q[found] {
            points = points + 1;
            if last == i as i128 - 1 {
                points = points + 5;
            }
            if starts[i] {
                points = points + 3;
            }
            last = i as i128;
            found += 1;
        }
        i += 1;
    }
    if found == q.len() {
        Some(clip_to(points - (t.len() / 20) as i128))
    } else {
        None
    }
}

/// The places in a text at which a word starts.
fn find_word_starts(t: &Vec<char>) -> (r: Vec<bool>)
    ensures
        r@ == word_starts(t@),
{
    let ghost target = word_starts(t@);
    let mut r: Vec<bool> = Vec::new();
    let mut i: usize = 0;
    while i < t.len()
        invariant
            i <= t@.len(),
            target == word_starts(t@),
            r@ == target.take(i as int),
        decreases t@.len() - i,
    {
        let ghost before = r@;
        r.push(i == 0 || !alphanumeric(t[i - 1]));
        i += 1;
        assert(r@ =~= target.take(i as int));
    }
    assert(target.take(i as int) =~= target);
    r
}

/// What a query counts in a text.
pub fn fuzzy_score(query: &str, text: &str) -> (r: Option<i32>)
    ensures
        r == fuzzy(query@, text@),
{
    if query.is_empty() {
        return Some(0);
    }
    let q = chars_of(to_lowercase(query).as_str());
    let t = chars_of(to_lowercase(text).as_str());
    let starts = find_word_starts(&t);
    score_lowered(&q, &t, &starts)
}

/// The length of a text in bytes.
pub open spec fn byte_len(t: Text) -> nat {
    encode_utf8(t).len()
}

/// The length of a string in bytes.
fn count_bytes(s: &str) -> (r: usize)
    ensures
        r == byte_len(s@),
{
    s.as_bytes().len()
}

/// Whether one match goes before another: it counts more, or as much and its text is
/// shorter.
pub open spec fn ranks_before(a: (i32, nat), b: (i32, nat)) -> bool {
    a.0 > b.0 || (a.0 == b.0 && a.1 < b.1)
}

/// A match as it is ranked: what it counts, and how long its text is.
pub open spec fn rank(entries: Seq<Text>, scores: Seq<Option<i32>>, i: usize) -> (i32, nat) {
    (scores[i as int]->0, byte_len(entries[i as int]))
}

/// The place among `order` where a match goes: before the first that it goes before.
pub open spec fn rank_place(
    entries: Seq<Text>,
    scores: Seq<Option<i32>>,
    order: Seq<usize>,
    i: usize,
) -> int
    decreases order.len(),
{
    if order.len() == 0 || ranks_before(rank(entries, scores, i), rank(entries, scores, order[0])) {
        0
    } else {
        1 + rank_place(entries, scores, order.drop_first(), i)
    }
}

/// The matches among the first `n` entries, the best first, those of one rank in the
/// order of the list.
pub open spec fn ranked(entries: Seq<Text>, scores: Seq<Option<i32>>, n: nat) -> Seq<usize>
    decreases n,
{
    if n == 0 {
        Seq::empty()
    } else {
        let front = ranked(entries, scores, (n - 1) as nat);
        let i = (n - 1) as usize;
        if scores[n - 1] is Some {
            front.insert(rank_place(entries, scores, front, i), i)
        } else {
            front
        }
    }
}

/// What a query counts in each entry.
pub open spec fn scores_of(entries: Seq<Text>, query: Text) -> Seq<Option<i32>> {
    entries.map_values(|e: Text| fuzzy(query, e))
}

/// The entries that match a query, the best first.
pub open spec fn matches_of(entries: Seq<Text>, query: Text) -> Seq<usize> {
    ranked(entries, scores_of(entries, query), entries.len())
}

/// The matches, ranked by what each entry counts.
pub fn rank_entries(entries: &[String], scores: &Vec<Option<i32>>) -> (r: Vec<usize>)
    requires
        scores@.len() == entries@.len(),
    ensures
        r@ == ranked(entries.deep_view(), scores@, entries@.len()),
        forall|k: int| 0 <= k < r@.len() ==> r@[k] < entries@.len(),
{
    let ghost all = entries.deep_view();
    let mut order: Vec<usize> = Vec::new();
    let mut i: usize = 0;
    while i < entries.len()
        invariant
            i <= entries@.len() == scores@.len(),
            all == entries.deep_view(),
            order@ == ranked(all, scores@, i as nat),
            forall|k: int|
                0 <= k < order@.len() ==> order@[k] < i && scores@[order@[k] as int] is Some,
        decreases entries@.len() - i,
    {
        if let Some(s) = scores[i] {
            let len: usize = count_bytes(entries[i].as_str());
            assert(rank(all, scores@, i) == (s, len as nat));
            let mut at: usize = 0;
            let mut open: bool = true;
            assert(order@.skip(0) =~= order@);
            while at < order.len() && open
                invariant
                    at <= order@.len(),
                    i < entries@.len() == scores@.len(),
                    all == entries.deep_view(),
                    rank(all, scores@, i) == (s, len as nat),
                    forall|k: int|
                        0 <= k < order@.len() ==> order@[k] < i && scores@[order@[k] as int] is Some,
                    open ==> rank_place(all, scores@, order@, i) == at + rank_place(
                        all,
                        scores@,
                        order@.skip(at as int),
                        i,
                    ),
                    !open ==> rank_place(all, scores@, order@, i) == at,
                decreases order@.len() - at, if open {
                    1int
                } else {
                    0
                },
            {
                let j: usize = order[at];
                let other: i32 = match scores[j] {
                    Some(o) => o,
                    None => 0,
                };
                let other_len: usize = count_bytes(entries[j].as_str());
                proof {
                    assert(order@.skip(at as int)[0] == j);
                    assert(order@.skip(at as int).drop_first() =~= order@.skip(at + 1));
                }
                if s > other || (s == other && len < other_len) {
                    open = false;
                } else {
                    at += 1;
                }
            }
            order.insert(at, i);
        }
        i += 1;
    }
    order
}

/// The entries that match a query, the best first.
pub fn filter(entries: &[String], query: &str) -> (r: Vec<usize>)
    ensures
        r@ == matches_of(entries.deep_view(), query@),
        forall|k: int| 0 <= k < r@.len() ==> r@[k] < entries@.len(),
{
    let ghost target = scores_of(entries.deep_view(), query@);
    let mut scores: Vec<Option<i32>> = Vec::new();
    let mut i: usize = 0;
    while i < entries.len()
        invariant
            i <= entries@.len(),
            target == scores_of(entries.deep_view(), query@),
            scores@ == target.take(i as int),
        decreases entries@.len() - i,
    {
        scores.push(fuzzy_score(query, entries[i].as_str()));
        i += 1;
        assert(scores@ =~= target.take(i as int));
    }
    assert(target.take(i as int) =~= target);
    rank_entries(entries, &scores)
}

/// Every match is ranked once, no other entry is, none goes before one that is ranked
/// higher, and of those that are ranked alike the earlier entry goes first.
pub proof fn law_ranked(entries: Seq<Text>, scores: Seq<Option<i32>>, n: nat)
    requires
        n <= entries.len() == scores.len(),
        n <= usize::MAX,
    ensures
        forall|k: int|
            0 <= k < ranked(entries, scores, n).len() ==> (#[trigger] ranked(entries, scores, n)[k]) < n
                && scores[ranked(entries, scores, n)[k] as int] is Some,
        forall|i: usize| i < n && scores[i as int] is Some ==> ranked(entries, scores, n).contains(i),
        forall|a: int, b: int|
            0 <= a < b < ranked(entries, scores, n).len() ==> {
                let x = #[trigger] ranked(entries, scores, n)[a];
                let y = #[trigger] ranked(entries, scores, n)[b];
                &&& x != y
                &&& !ranks_before(rank(entries, scores, y), rank(entries, scores, x))
                &&& rank(entries, scores, x) == rank(entries, scores, y) ==> x < y
            },
    decreases n,
{
    if n > 0 {
        let m = (n - 1) as nat;
        law_ranked(entries, scores, m);
        let front = ranked(entries, scores, m);
        let me = m as usize;
        let now = ranked(entries, scores, n);
        if scores[m as int] is Some {
            lemma_rank_place(entries, scores, front, me);
            let p = rank_place(entries, scores, front, me);
            assert(now == front.insert(p, me));
            assert(now[p] == me);
            assert forall|i: usize| i < n && scores[i as int] is Some implies now.contains(i) by {
                if i < m {
                    assert(ranked(entries, scores, m).contains(i));
                    let k = choose|k: int| 0 <= k < front.len() && front[k] == i;
                    assert(now[if k < p { k } else { k + 1 }] == i);
                }
            }
            assert forall|k: int| 0 <= k < now.len() implies (#[trigger] now[k]) < n
                && scores[now[k] as int] is Some by {
                if k != p {
                    assert(now[k] == front[if k < p { k } else { k - 1 }]);
                }
            }
            assert forall|a: int, b: int| 0 <= a < b < now.len() implies ({
                let x = #[trigger] now[a];
                let y = #[trigger] now[b];
                &&& x != y
                &&& !ranks_before(rank(entries, scores, y), rank(entries, scores, x))
                &&& rank(entries, scores, x) == rank(entries, scores, y) ==> x < y
            }) by {
                if a == p {
                    let c = b - 1;
                    assert(now[b] == front[c]);
                    if c > p {
                        assert(!ranks_before(
                            rank(entries, scores, front[c]),
                            rank(entries, scores, front[p]),
                        ));
                    }
                } else if b == p {
                    assert(now[a] == front[a]);
                } else {
                    let c = if a < p {
                        a
                    } else {
                        a - 1
                    };
                    let d = if b < p {
                        b
                    } else {
                        b - 1
                    };
                    assert(now[a] == front[c] && now[b] == front[d]);
                    assert(front[c] != front[d]);
                }
            }
        } else {
            assert(now == front);
            assert forall|i: usize| i < n && scores[i as int] is Some implies now.contains(i) by {
                assert(ranked(entries, scores, m).contains(i));
            }
        }
    }
}

proof fn lemma_rank_place(entries: Seq<Text>, scores: Seq<Option<i32>>, order: Seq<usize>, i: usize)
    ensures
        ({
            let p = rank_place(entries, scores, order, i);
            &&& 0 <= p <= order.len()
            &&& p < order.len() ==> ranks_before(
                rank(entries, scores, i),
                rank(entries, scores, order[p]),
            )
            &&& forall|k: int|
                0 <= k < p ==> !ranks_before(
                    rank(entries, scores, i),
                    rank(entries, scores, #[trigger] order[k]),
                )
        }),
    decreases order.len(),
{
    if order.len() > 0 && !ranks_before(rank(entries, scores, i), rank(entries, scores, order[0])) {
        let rest = order.drop_first();
        lemma_rank_place(entries, scores, rest, i);
        let p = rank_place(entries, scores, order, i);
        assert forall|k: int| 0 <= k < p implies !ranks_before(
            rank(entries, scores, i),
            rank(entries, scores, #[trigger] order[k]),
        ) by {
            if k > 0 {
                assert(order[k] == rest[k - 1]);
            }
        }
        if p < order.len() {
            assert(order[p] == rest[p - 1]);
        }
    }
}

// --- applications -----------------------------------------------------------------------------

/// A command without its field codes: every percent sign dropped with the character
/// after it.
pub open spec fn without_codes(s: Text) -> Text
    decreases s.len(),
{
    if s.len() == 0 {
        s
    } else if s[0] == '%' {
        if s.len() > 1 {
            without_codes(s.skip(2))
        } else {
            Seq::empty()
        }
    } else {
        seq![s[0]] + without_codes(s.skip(1))
    }
}

/// A command to be run: without its field codes, its words one space apart.
pub open spec fn cleaned(s: Text) -> Text {
    join(words(without_codes(s)), " "@)
}

/// Cleans a command.
pub fn clean_exec(s: &str) -> (r: String)
    ensures
        r@ == cleaned(s@),
{
    let v = chars_of(s);
    let mut out = String::new();
    let mut i: usize = 0;
    assert(v@.skip(0) =~= v@);
    assert(out@ + without_codes(v@) =~= without_codes(v@));
    while i < v.len()
        invariant
            i <= v@.len(),
            out@ + without_codes(v@.skip(i as int)) == without_codes(v@),
        decreases v@.len() - i,
    {
        let ghost rest = v@.skip(i as int);
        let ghost before = out@;
        assert(rest[0] == v@[i as int]);
        if v[i] == '%' {
            if v.len() - i > 1 {
                assert(rest.skip(2) =~= v@.skip(i + 2));
                i += 2;
            } else {
                assert(v@.skip(i + 1) =~= Seq::<char>::empty());
                i += 1;
            }
        } else {
            out.push(v[i]);
            assert(rest.skip(1) =~= v@.skip(i + 1));
            assert(before + (seq![rest[0]] + without_codes(v@.skip(i + 1))) =~= out@ + without_codes(
                v@.skip(i + 1),
            ));
            i += 1;
        }
    }
    assert(v@.skip(i as int) =~= Seq::<char>::empty());
    assert(out@ =~= without_codes(v@));
    let parts = split_nonempty(out.as_str(), Class::White);
    assert(parts.deep_view().skip(0) =~= parts.deep_view());
    join_from(parts.as_slice(), 0, " ")
}

/// What the lines of a desktop entry say.
#[verifier::ext_equal]
pub ghost struct Entry {
    pub inside: bool,
    pub name: Option<Text>,
    pub command: Option<Text>,
    pub kind: Option<Text>,
    pub hidden: bool,
}

/// The first of two texts that is there.
pub open spec fn first_of(a: Option<Text>, b: Text) -> Option<Text> {
    if a is Some {
        a
    } else {
        Some(b)
    }
}

/// What one more line of a desktop entry says. Only the lines of its own group count; a
/// name and a command that are given again do not.
pub open spec fn entry_line(e: Entry, line: Text) -> Entry {
    let l = trimmed(line);
    if l.len() > 0 && l[0] == '[' {
        Entry { inside: l == "[Desktop Entry]"@, ..e }
    } else if !e.inside {
        e
    } else if let Some(v) = after(l, "Name="@) {
        Entry { name: first_of(e.name, v), ..e }
    } else if let Some(v) = after(l, "Exec="@) {
        Entry { command: first_of(e.command, v), ..e }
    } else if let Some(v) = after(l, "Type="@) {
        Entry { kind: Some(v), ..e }
    } else if let Some(v) = after(l, "NoDisplay="@) {
        Entry { hidden: e.hidden || lower(v) == "true"@, ..e }
    } else if let Some(v) = after(l, "Hidden="@) {
        Entry { hidden: e.hidden || lower(v) == "true"@, ..e }
    } else {
        e
    }
}

/// What lines of a desktop entry say.
pub open spec fn entry_lines(ls: Seq<Text>) -> Entry
    decreases ls.len(),
{
    if ls.len() == 0 {
        Entry { inside: false, name: None, command: None, kind: None, hidden: false }
    } else {
        entry_line(entry_lines(ls.drop_last()), ls.last())
    }
}

/// The application that a desktop entry describes: one that is not hidden, of no other
/// kind, and has a name and a command.
pub open spec fn entry_app(e: Entry) -> Option<(Text, Text)> {
    if e.hidden || (e.kind is Some && e.kind != Some("Application"@)) {
        None
    } else {
        match (e.name, e.command) {
            (Some(n), Some(c)) => if cleaned(c).len() == 0 {
                None
            } else {
                Some((n, cleaned(c)))
            },
            _ => None,
        }
    }
}

/// The application that a text describes.
pub open spec fn app_text(s: Text) -> Option<(Text, Text)> {
    entry_app(entry_lines(lines(s)))
}

/// A desktop entry that is being read.
struct EntryReader {
    inside: bool,
    name: Option<String>,
    command: Option<String>,
    kind: Option<String>,
    hidden: bool,
}

impl EntryReader {
    spec fn says(&self) -> Entry {
        Entry {
            inside: self.inside,
            name: self.name.deep_view(),
            command: self.command.deep_view(),
            kind: self.kind.deep_view(),
            hidden: self.hidden,
        }
    }

    fn take_line(&mut self, line: &str)
        ensures
            final(self).says() == entry_line(old(self).says(), line@),
    {
        let text = trim(line);
        let l = text.as_str();
        if l.unicode_len() > 0 && l.get_char(0) == '[' {
            self.inside = same(l, "[Desktop Entry]");
            return;
        }
        if !self.inside {
            return;
        }
        if let Some(v) = strip_prefix(l, "Name=") {
            if self.name.is_none() {
                self.name = Some(v);
            }
        } else if let Some(v) = strip_prefix(l, "Exec=") {
            if self.command.is_none() {
                self.command = Some(v);
            }
        } else if let Some(v) = strip_prefix(l, "Type=") {
            self.kind = Some(v);
        } else if let Some(v) = strip_prefix(l, "NoDisplay=") {
            self.hidden = self.hidden || same(lowered(v.as_str()).as_str(), "true");
        } else if let Some(v) = strip_prefix(l, "Hidden=") {
            self.hidden = self.hidden || same(lowered(v.as_str()).as_str(), "true");
        }
    }
}

/// Reads a desktop entry.
pub fn parse_desktop(text: &str) -> (r: Option<DesktopApp>)
    ensures
        r.deep_view() == app_text(text@),
{
    let ls = split_lines(text);
    let ghost all = ls.deep_view();
    let mut e = EntryReader { inside: false, name: None, command: None, kind: None, hidden: false };
    let mut i: usize = 0;
    assert(all.take(0) =~= Seq::<Text>::empty());
    while i < ls.len()
        invariant
            i <= ls@.len(),
            all == ls.deep_view(),
            e.says() == entry_lines(all.take(i as int)),
        decreases ls@.len() - i,
    {
        assert(all.take(i + 1).drop_last() =~= all.take(i as int));
        assert(all.take(i + 1).last() == ls@[i as int]@);
        e.take_line(ls[i].as_str());
        i += 1;
    }
    assert(all.take(i as int) =~= all);
    if e.hidden {
        return None;
    }
    if let Some(k) = &e.kind {
        if !same(k.as_str(), "Application") {
            return None;
        }
    }
    match (e.name, e.command) {
        (Some(name), Some(c)) => {
            let command = clean_exec(c.as_str());
            if command.as_str().is_empty() {
                None
            } else {
                Some(DesktopApp { name, command })
            }
        },
        _ => None,
    }
}

/// The place among `apps` where an application goes: before the first whose name, in
/// lower case, its own comes before.
pub open spec fn app_place(apps: Seq<(Text, Text)>, name: Text) -> int
    decreases apps.len(),
{
    if apps.len() == 0 || text_before(lowercase(name), lowercase(apps[0].0)) {
        0
    } else {
        1 + app_place(apps.drop_first(), name)
    }
}

/// The applications in the order of their names.
pub open spec fn by_name(apps: Seq<(Text, Text)>) -> Seq<(Text, Text)>
    decreases apps.len(),
{
    if apps.len() == 0 {
        apps
    } else {
        let front = by_name(apps.drop_last());
        front.insert(app_place(front, apps.last().0), apps.last())
    }
}

/// The applications that files describe, each given by its name and its text. Of files
/// of one name the first counts, though it describe none; one that could not be read
/// has no text.
pub open spec fn described(files: Seq<(Text, Option<Text>)>) -> Seq<(Text, Text)>
    decreases files.len(),
{
    if files.len() == 0 {
        Seq::empty()
    } else {
        let front = described(files.drop_last());
        let f = files.last();
        if file_seen(files.drop_last(), f.0) || f.1 is None || app_text(f.1->0) is None {
            front
        } else {
            front.push(app_text(f.1->0)->0)
        }
    }
}

/// Whether a file of the name is among the files.
pub open spec fn file_seen(files: Seq<(Text, Option<Text>)>, name: Text) -> bool {
    exists|i: int| 0 <= i < files.len() && (#[trigger] files[i]).0 == name
}

/// Puts an application among others, in the order of their names.
fn insert_app(apps: &mut Vec<DesktopApp>, app: DesktopApp)
    ensures
        final(apps).deep_view() == old(apps).deep_view().insert(
            app_place(old(apps).deep_view(), app.name@),
            app.deep_view(),
        ),
        final(apps)@.len() == old(apps)@.len() + 1,
{
    let ghost all = apps.deep_view();
    let low = to_lowercase(app.name.as_str());
    let mut at: usize = 0;
    let mut open: bool = true;
    assert(all.skip(0) =~= all);
    while at < apps.len() && open
        invariant
            at <= apps@.len() == all.len(),
            all == apps.deep_view(),
            low@ == lowercase(app.name@),
            open ==> app_place(all, app.name@) == at + app_place(all.skip(at as int), app.name@),
            !open ==> app_place(all, app.name@) == at,
        decreases apps@.len() - at, if open {
            1int
        } else {
            0
        },
    {
        assert(all.skip(at as int)[0] == apps@[at as int].deep_view());
        assert(all.skip(at as int).drop_first() =~= all.skip(at + 1));
        let other = to_lowercase(apps[at].name.as_str());
        if comes_before(low.as_str(), other.as_str()) {
            open = false;
        } else {
            at += 1;
        }
    }
    apps.insert(at, app);
    assert(apps.deep_view() =~= all.insert(at as int, app.deep_view()));
}

/// Puts applications in the order of their names.
pub fn sort_apps(apps: Vec<DesktopApp>) -> (r: Vec<DesktopApp>)
    ensures
        r.deep_view() == by_name(apps.deep_view()),
{
    let ghost all = apps.deep_view();
    let mut left = apps;
    let mut turned: Vec<DesktopApp> = Vec::new();
    let ghost n = all.len();
    while left.len() > 0
        invariant
            left@.len() + turned@.len() == n == all.len(),
            left.deep_view() == all.take(left@.len() as int),
            forall|k: int|
                0 <= k < turned@.len() ==> (#[trigger] turned@[k]).deep_view() == all[n - 1 - k],
        decreases left@.len(),
    {
        let ghost before = left.deep_view();
        let app = left.pop();
        if let Some(a) = app {
            proof {
                assert(a.deep_view() == before.last());
                assert(left.deep_view() =~= before.drop_last());
                assert(before.drop_last() =~= all.take(left@.len() as int));
            }
            turned.push(a);
        }
    }
    let mut r: Vec<DesktopApp> = Vec::new();
    assert(r.deep_view() =~= Seq::<(Text, Text)>::empty());
    assert(all.take(0) =~= Seq::<(Text, Text)>::empty());
    while turned.len() > 0
        invariant
            turned@.len() + r@.len() == n == all.len(),
            r.deep_view() == by_name(all.take(r@.len() as int)),
            forall|k: int|
                0 <= k < turned@.len() ==> (#[trigger] turned@[k]).deep_view() == all[n - 1 - k],
        decreases turned@.len(),
    {
        let ghost done = r@.len() as int;
        let ghost last = turned@.len() - 1;
        assert(turned@[last].deep_view() == all[n - 1 - last]);
        if let Some(a) = turned.pop() {
            proof {
                assert(all.take(done + 1).drop_last() =~= all.take(done));
                assert(all.take(done + 1).last() == a.deep_view());
            }
            insert_app(&mut r, a);
        }
    }
    assert(all.take(n as int) =~= all);
    r
}

/// Whether a file of the name is among the first `n` files.
fn has_file(files: &Vec<(String, Option<String>)>, n: usize, name: &str) -> (r: bool)
    requires
        n <= files@.len(),
    ensures
        r == file_seen(files.deep_view().take(n as int), name@),
{
    let ghost all = files.deep_view().take(n as int);
    let mut i: usize = 0;
    while i < n
        invariant
            i <= n <= files@.len(),
            all == files.deep_view().take(n as int),
            forall|k: int| 0 <= k < i ==> (#[trigger] all[k]).0 != name@,
        decreases n - i,
    {
        assert(all[i as int].0 == files@[i as int].0@);
        if same(files[i].0.as_str(), name) {
            return true;
        }
        i += 1;
    }
    false
}

/// The applications that files describe, in the order of their names.
pub fn read_apps(files: &Vec<(String, Option<String>)>) -> (r: Vec<DesktopApp>)
    ensures
        r.deep_view() == by_name(described(files.deep_view())),
{
    let ghost all = files.deep_view();
    let mut apps: Vec<DesktopApp> = Vec::new();
    let mut i: usize = 0;
    assert(all.take(0) =~= Seq::<(Text, Option<Text>)>::empty());
    assert(apps.deep_view() =~= Seq::<(Text, Text)>::empty());
    while i < files.len()
        invariant
            i <= files@.len(),
            all == files.deep_view(),
            apps.deep_view() == described(all.take(i as int)),
        decreases files@.len() - i,
    {
        let ghost before = apps.deep_view();
        assert(all.take(i + 1).drop_last() =~= all.take(i as int));
        assert(all.take(i + 1).last() == files@[i as int].deep_view());
        if !has_file(files, i, files[i].0.as_str()) {
            if let Some(text) = &files[i].1 {
                if let Some(app) = parse_desktop(text.as_str()) {
                    apps.push(app);
                    assert(apps.deep_view() =~= before.push(app.deep_view()));
                }
            }
        }
        i += 1;
    }
    assert(all.take(i as int) =~= all);
    sort_apps(apps)
}

// --- the launcher while it is open --------------------------------------------------------------

/// A key pressed while the launcher is open.
#[derive(Debug)]
pub enum LauncherKey {
    Escape,
    Enter,
    BackSpace,
    Up,
    Down,
    /// Any other key, with the text that it types.
    Other(String),
}

/// A key pressed while the launcher is open, a string as a text.
pub ghost enum Stroke {
    Escape,
    Enter,
    BackSpace,
    Up,
    Down,
    Other(Text),
}

impl View for LauncherKey {
    type V = Stroke;

    open spec fn view(&self) -> Stroke {
        match self {
            LauncherKey::Escape => Stroke::Escape,
            LauncherKey::Enter => Stroke::Enter,
            LauncherKey::BackSpace => Stroke::BackSpace,
            LauncherKey::Up => Stroke::Up,
            LauncherKey::Down => Stroke::Down,
            LauncherKey::Other(s) => Stroke::Other(s@),
        }
    }
}

/// The number of the Escape key's symbol.
pub const KEY_ESCAPE: u32 = 0xff1b;

/// The number of the Return key's symbol.
pub const KEY_RETURN: u32 = 0xff0d;

/// The number of the symbol of the Enter key of the number block.
pub const KEY_KP_ENTER: u32 = 0xff8d;

/// The number of the BackSpace key's symbol.
pub const KEY_BACKSPACE: u32 = 0xff08;

/// The number of the Tab key's symbol.
pub const KEY_TAB: u32 = 0xff09;

/// The number of the symbol of the key upwards.
pub const KEY_UP: u32 = 0xff52;

/// The number of the symbol of the key downwards.
pub const KEY_DOWN: u32 = 0xff54;

/// What a key with the symbol is to the launcher; `text` is what it types.
pub open spec fn stroke_of(sym: u32, text: Text) -> Stroke {
    if sym == KEY_ESCAPE {
        Stroke::Escape
    } else if sym == KEY_RETURN || sym == KEY_KP_ENTER {
        Stroke::Enter
    } else if sym == KEY_BACKSPACE {
        Stroke::BackSpace
    } else if sym == KEY_UP {
        Stroke::Up
    } else if sym == KEY_DOWN || sym == KEY_TAB {
        Stroke::Down
    } else {
        Stroke::Other(text)
    }
}

/// What a key with the symbol is to the launcher; `text` is what it types.
pub fn key_of_sym(sym: u32, text: String) -> (r: LauncherKey)
    ensures
        r@ == stroke_of(sym, text@),
{
    if sym == KEY_ESCAPE {
        LauncherKey::Escape
    } else if sym == KEY_RETURN || sym == KEY_KP_ENTER {
        LauncherKey::Enter
    } else if sym == KEY_BACKSPACE {
        LauncherKey::BackSpace
    } else if sym == KEY_UP {
        LauncherKey::Up
    } else if sym == KEY_DOWN || sym == KEY_TAB {
        LauncherKey::Down
    } else {
        LauncherKey::Other(text)
    }
}

/// Whether the character is a control character.
pub open spec fn is_control(c: char) -> bool {
    c as u32 <= 0x1f || 0x7f <= c as u32 <= 0x9f
}

/// The text without its control characters.
pub open spec fn visible_text(s: Text) -> Text
    decreases s.len(),
{
    if s.len() == 0 {
        s
    } else if is_control(s.last()) {
        visible_text(s.drop_last())
    } else {
        visible_text(s.drop_last()).push(s.last())
    }
}

/// The launcher with another query: the matches anew, and the first of them marked.
pub open spec fn queried(l: LauncherModel, query: Text) -> LauncherModel {
    LauncherModel {
        query,
        matches: matches_of(l.entries, query),
        selected: 0,
        scroll: 0,
        ..l
    }
}

/// The launcher after a key that neither ends nor acts.
pub open spec fn keyed(l: LauncherModel, k: Stroke) -> LauncherModel {
    match k {
        Stroke::BackSpace => queried(
            l,
            if l.query.len() > 0 {
                l.query.drop_last()
            } else {
                l.query
            },
        ),
        Stroke::Up => LauncherModel {
            selected: if l.selected > 0 {
                (l.selected - 1) as usize
            } else {
                0
            },
            ..l
        },
        Stroke::Down => if l.selected + 1 < l.matches.len() {
            LauncherModel { selected: (l.selected + 1) as usize, ..l }
        } else {
            l
        },
        Stroke::Other(s) => if visible_text(s).len() > 0 {
            queried(l, l.query + visible_text(s))
        } else {
            l
        },
        _ => l,
    }
}

/// The launcher as it opens: an empty query, which everything matches.
pub open spec fn opened(entries: Seq<Text>, execs: Option<Seq<Text>>) -> LauncherModel {
    LauncherModel {
        query: Seq::empty(),
        entries,
        execs,
        matches: matches_of(entries, Seq::empty()),
        selected: 0,
        scroll: 0,
    }
}

/// What the marked match comes to: its command where applications are started, else the
/// entry itself.
pub open spec fn chosen(l: LauncherModel) -> Option<Text> {
    if l.selected < l.matches.len() {
        let i = l.matches[l.selected as int] as int;
        match l.execs {
            Some(e) => if i < e.len() {
                Some(e[i])
            } else {
                None
            },
            None => if i < l.entries.len() {
                Some(l.entries[i])
            } else {
                None
            },
        }
    } else {
        None
    }
}

impl Launcher {
    /// The launcher as it opens.
    pub fn open(entries: Vec<String>, execs: Option<Vec<String>>) -> (r: Launcher)
        ensures
            r.deep_view() == opened(entries.deep_view(), execs.deep_view()),
    {
        proof {
            reveal_strlit("");
            assert(""@ =~= Seq::<char>::empty());
        }
        let all = entries.as_slice();
        assert(all.deep_view() =~= entries.deep_view());
        let matches = filter(all, "");
        Launcher { query: String::new(), entries, execs, matches, selected: 0, scroll: 0 }
    }

    /// Takes another query.
    fn search_for(&mut self, query: String)
        ensures
            final(self).deep_view() == queried(old(self).deep_view(), query@),
    {
        let all = self.entries.as_slice();
        assert(all.deep_view() =~= self.entries.deep_view());
        let matches = filter(all, query.as_str());
        self.matches = matches;
        self.query = query;
        self.selected = 0;
        self.scroll = 0;
    }

    /// Takes a key that neither ends nor acts.
    pub fn key(&mut self, k: &LauncherKey)
        ensures
            final(self).deep_view() == keyed(old(self).deep_view(), k@),
    {
        match k {
            LauncherKey::BackSpace => {
                let v = chars_of(self.query.as_str());
                if v.len() > 0 {
                    assert(v@.subrange(0, v@.len() - 1) =~= v@.drop_last());
                    self.search_for(string_of(&v, 0, v.len() - 1));
                } else {
                    assert(v@.subrange(0, 0) =~= v@);
                    self.search_for(string_of(&v, 0, 0));
                }
            },
            LauncherKey::Up => {
                self.selected = if self.selected > 0 { self.selected - 1 } else { 0 };
            },
            LauncherKey::Down => {
                if self.matches.len() > 0 && self.selected < self.matches.len() - 1 {
                    self.selected = self.selected + 1;
                }
            },
            LauncherKey::Other(s) => {
                let typed = drop_controls(s.as_str());
                if !typed.as_str().is_empty() {
                    let mut query = self.query.clone();
                    query.append(typed.as_str());
                    self.search_for(query);
                }
            },
            _ => {},
        }
    }

    /// What the marked match comes to.
    pub fn choice(&self) -> (r: Option<String>)
        ensures
            r.deep_view() == chosen(self.deep_view()),
    {
        if self.selected < self.matches.len() {
            let i: usize = self.matches[self.selected];
            match &self.execs {
                Some(e) => if i < e.len() {
                    assert(e.deep_view()[i as int] == e@[i as int]@);
                    Some(e[i].clone())
                } else {
                    None
                },
                None => if i < self.entries.len() {
                    assert(self.entries.deep_view()[i as int] == self.entries@[i as int]@);
                    Some(self.entries[i].clone())
                } else {
                    None
                },
            }
        } else {
            None
        }
    }
}

/// The string without its control characters.
fn drop_controls(s: &str) -> (r: String)
    ensures
        r@ == visible_text(s@),
{
    let v = chars_of(s);
    let mut r = String::new();
    let mut i: usize = 0;
    assert(v@.take(0) =~= Seq::<char>::empty());
    while i < v.len()
        invariant
            i <= v@.len(),
            r@ == visible_text(v@.take(i as int)),
        decreases v@.len() - i,
    {
        assert(v@.take(i + 1).drop_last() =~= v@.take(i as int));
        let u: u32 = v[i] as u32;
        if !(u <= 0x1f || (0x7f <= u && u <= 0x9f)) {
            r.push(v[i]);
        }
        i += 1;
    }
    assert(v@.take(i as int) =~= v@);
    r
}

} // verus!
