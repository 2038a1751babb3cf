//! Replies to commands, and the arguments of commands.

use vstd::prelude::*;
use crate::number::{parse_i32, parse_u32, signed32, unsigned};
use crate::text::{has_prefix, same, starts_with, Text};

verus! {

/// The reply to a command that was carried out.
pub open spec fn ok_text() -> Text {
    "ok\n"@
}

/// The reply to a command that was not.
pub open spec fn err_text(m: Text) -> Text {
    "error: "@ + m + "\n"@
}

/// The reply to a command that was not, with something of the command in it.
pub open spec fn err_about(a: Text, b: Text, c: Text) -> Text {
    err_text(a + b + c)
}

/// Whether a reply says that the command was not carried out.
pub open spec fn is_failure(reply: Text) -> bool {
    has_prefix(reply, "error:"@)
}

/// The reply to a command that was carried out.
pub fn ok() -> (r: String)
    ensures
        r@ == ok_text(),
{
    "ok\n".to_owned()
}

/// The reply to a command that was not.
pub fn err(m: &str) -> (r: String)
    ensures
        r@ == err_text(m@),
{
    let mut r = "error: ".to_owned();
    r.append(m);
    r.append("\n");
    r
}

/// The two strings as one.
pub fn two(a: &str, b: &str) -> (r: String)
    ensures
        r@ == a@ + b@,
{
    let mut r = a.to_owned();
    r.append(b);
    r
}

/// The three strings as one.
pub fn three(a: &str, b: &str, c: &str) -> (r: String)
    ensures
        r@ == a@ + b@ + c@,
{
    let mut r = a.to_owned();
    r.append(b);
    r.append(c);
    r
}

/// The reply to a command that was not, with something of the command in it.
pub fn err3(a: &str, b: &str, c: &str) -> (r: String)
    ensures
        r@ == err_about(a@, b@, c@),
{
    err(three(a, b, c).as_str())
}

/// Whether a reply says that the command was not carried out.
pub fn failed(reply: &str) -> (r: bool)
    ensures
        r == is_failure(reply@),
{
    starts_with(reply, "error:")
}

/// The tag that a text writes.
pub open spec fn tag_text(s: Text) -> Option<u32> {
    match unsigned(s, u32::MAX as int) {
        Some(n) => Some(n as u32),
        None => None,
    }
}

/// Reads a tag.
pub fn parse_tag(s: &str) -> (r: Option<u32>)
    ensures
        r == tag_text(s@),
{
    parse_u32(s)
}

/// Whether a text says yes.
pub open spec fn is_yes(s: Text) -> bool {
    s == "on"@ || s == "true"@ || s == "1"@
}

/// Whether a text says yes.
pub fn parse_bool(s: &str) -> (r: bool)
    ensures
        r == is_yes(s@),
{
    same(s, "on") || same(s, "true") || same(s, "1")
}

/// The number of steps that the first argument says; one where it says none.
pub open spec fn steps(a: Seq<Text>) -> int {
    if a.len() > 0 && signed32(a[0]) is Some {
        signed32(a[0])->0
    } else {
        1
    }
}

/// The number of steps that the first argument says.
pub fn read_steps(a: &[String]) -> (r: i32)
    ensures
        r == steps(a.deep_view()),
{
    if a.len() > 0 {
        assert(a.deep_view()[0] == a@[0]@);
        match parse_i32(a[0].as_str()) {
            Some(n) => n,
            None => 1,
        }
    } else {
        1
    }
}

/// What a switch is set to: on, off, or the other way round.
pub open spec fn switched(arg: Text, cur: bool) -> bool {
    if arg == "on"@ || arg == "true"@ {
        true
    } else if arg == "off"@ || arg == "false"@ {
        false
    } else {
        !cur
    }
}

/// What a switch is set to.
pub fn switch(arg: &str, cur: bool) -> (r: bool)
    ensures
        r == switched(arg@, cur),
{
    if same(arg, "on") || same(arg, "true") {
        true
    } else if same(arg, "off") || same(arg, "false") {
        false
    } else {
        !cur
    }
}

// --- groups -----------------------------------------------------------------------

/// The groups that arguments fall into between those that are the separator.
pub open spec fn groups(args: Seq<Text>, sep: Text) -> Seq<Seq<Text>>
    decreases args.len(),
{
    if args.len() == 0 {
        seq![Seq::empty()]
    } else {
        let before = groups(args.drop_last(), sep);
        if args.last() == sep {
            before.push(Seq::empty())
        } else {
            before.update(before.len() - 1, before.last().push(args.last()))
        }
    }
}

/// There is at least one group.
pub proof fn lemma_groups_some(args: Seq<Text>, sep: Text)
    ensures
        groups(args, sep).len() > 0,
    decreases args.len(),
{
    if args.len() > 0 {
        lemma_groups_some(args.drop_last(), sep);
    }
}

/// Cuts arguments into groups at the separator.
pub fn split_groups(args: &[String], sep: &str) -> (r: Vec<Vec<String>>)
    ensures
        r.deep_view() == groups(args.deep_view(), sep@),
        r@.len() > 0,
{
    let ghost all = args.deep_view();
    let mut done: Vec<Vec<String>> = Vec::new();
    let mut cur: Vec<String> = Vec::new();
    let mut i: usize = 0;
    assert(all.take(0) =~= Seq::<Text>::empty());
    assert(done.deep_view().push(cur.deep_view()) =~= groups(all.take(0), sep@)) by {
        assert(cur.deep_view() =~= Seq::<Text>::empty());
    }
    while i < args.len()
        invariant
            i <= args@.len(),
            all == args.deep_view(),
            done.deep_view().push(cur.deep_view()) == groups(all.take(i as int), sep@),
        decreases args@.len() - i,
    {
        let ghost before = done.deep_view().push(cur.deep_view());
        let ghost d0 = done.deep_view();
        let ghost c0 = cur.deep_view();
        assert(all.take(i + 1).drop_last() =~= all.take(i as int));
        assert(all.take(i + 1).last() == args@[i as int]@);
        if same(args[i].as_str(), sep) {
            done.push(cur);
            cur = Vec::new();
            assert(cur.deep_view() =~= Seq::<Text>::empty());
            assert(done.deep_view() =~= before);
        } else {
            cur.push(args[i].clone());
            assert(cur.deep_view() =~= c0.push(args@[i as int]@));
            assert(before.last() == c0);
            assert(d0.push(c0.push(args@[i as int]@)) =~= before.update(
                before.len() - 1,
                c0.push(args@[i as int]@),
            ));
        }
        i += 1;
    }
    assert(all.take(i as int) =~= all);
    let ghost d0 = done.deep_view();
    done.push(cur);
    assert(done.deep_view() =~= d0.push(cur.deep_view()));
    done
}

/// Groups joined, with the separator between each two.
pub open spec fn ungrouped(gs: Seq<Seq<Text>>, sep: Text) -> Seq<Text>
    decreases gs.len(),
{
    if gs.len() == 0 {
        Seq::empty()
    } else if gs.len() == 1 {
        gs[0]
    } else {
        ungrouped(gs.drop_last(), sep).push(sep) + gs.last()
    }
}

/// Joined again, with the separator between them, the groups are the arguments.
pub proof fn law_groups_join(args: Seq<Text>, sep: Text)
    ensures
        ungrouped(groups(args, sep), sep) == args,
    decreases args.len(),
{
    if args.len() == 0 {
        assert(groups(args, sep)[0] =~= args);
    } else {
        let front = args.drop_last();
        law_groups_join(front, sep);
        lemma_groups_some(front, sep);
        let before = groups(front, sep);
        let now = groups(args, sep);
        if args.last() == sep {
            assert(now.drop_last() =~= before);
            assert(now.last() == Seq::<Text>::empty());
            assert(ungrouped(now, sep) =~= front.push(sep));
            assert(front.push(sep) =~= args);
        } else {
            assert(now.drop_last() =~= before.drop_last());
            assert(now.last() =~= before.last().push(args.last()));
            if before.len() == 1 {
                assert(front.push(args.last()) =~= args);
            } else {
                let head = ungrouped(before.drop_last(), sep).push(sep);
                assert(head + before.last().push(args.last()) =~= (head + before.last()).push(
                    args.last(),
                ));
                assert(front.push(args.last()) =~= args);
            }
        }
    }
}

/// No group holds the separator.
pub proof fn law_groups_free(args: Seq<Text>, sep: Text)
    ensures
        forall|i: int|
            0 <= i < groups(args, sep).len() ==> !(#[trigger] groups(args, sep)[i]).contains(sep),
    decreases args.len(),
{
    if args.len() > 0 {
        let front = args.drop_last();
        law_groups_free(front, sep);
        lemma_groups_some(front, sep);
        let before = groups(front, sep);
        let now = groups(args, sep);
        assert forall|i: int| 0 <= i < now.len() implies !(#[trigger] now[i]).contains(sep) by {
            if args.last() == sep {
                if i < before.len() {
                    assert(now[i] == before[i]);
                }
            } else {
                assert(!before[i].contains(sep));
                if i == before.len() - 1 {
                    let g = before.last().push(args.last());
                    if g.contains(sep) {
                        let k = choose|k: int| 0 <= k < g.len() && g[k] == sep;
                        assert(k < before.last().len());
                        assert(before.last()[k] == sep);
                    }
                }
            }
        }
    }
}

} // verus!
