//! Laws of the commands that combine other commands.

use vstd::prelude::*;
use crate::ipc::{
    begin, begin_group, begin_outer, dispatched, kept, lemma_step_lighter, passed_on,
    said_first, settled, stack_weight, turn_weight, Begun, ChainMode, Coat, Course, Turn,
};
use crate::reply::{err_text, groups, is_failure, ok_text};
use crate::state::World;
use crate::text::Text;

verus! {

/// A reply that tells of an error is a failure; the plain reply to success is none.
pub proof fn law_failures(m: Text)
    ensures
        is_failure(err_text(m)),
        !is_failure(ok_text()),
        !is_failure(Seq::<char>::empty()),
{
    reveal_strlit("error:");
    reveal_strlit("error: ");
    reveal_strlit("ok\n");
    let e = err_text(m);
    assert(e.take(6) =~= "error:"@);
    assert(ok_text().len() == 3);
}

/// A command behaves inside others as it does alone: what it says is handed to those
/// that wait for it, and what it asks is asked while they wait.
pub proof fn law_inside(w: World, t: Turn, below: Seq<Coat>, stack: Seq<Coat>)
    ensures
        match settled(w, t, stack) {
            (v, Course::Reply(r)) => settled(w, t, below + stack) == settled(v, Turn::Back(r), below),
            (v, Course::Ask(q, rest)) => settled(w, t, below + stack) == (v, Course::Ask(q, below + rest)),
        },
    decreases turn_weight(t) + stack_weight(stack),
{
    reveal_with_fuel(settled, 1);
    lemma_step_lighter(w, t, stack);
    let all = below + stack;
    match t {
        Turn::Run(args) => {
            let (v, b) = begin(w, args);
            match b {
                Begun::Reply(r) => {
                    law_inside(v, Turn::Back(r), below, stack);
                },
                Begun::Ask(q) => {},
                Begun::Enter(c, inner) => {
                    law_inside(v, Turn::Run(inner), below, stack.push(c));
                    assert(all.push(c) =~= below + stack.push(c));
                },
                Begun::Again(inner) => {
                    law_inside(v, Turn::Run(inner), below, stack);
                },
            }
        },
        Turn::Back(said) => {
            if stack.len() == 0 {
                assert(all =~= below);
            } else {
                assert(all.last() == stack.last());
                assert(all.drop_last() =~= below + stack.drop_last());
                let (c, next) = passed_on(stack.last(), said);
                match c {
                    Some(c) => {
                        assert((below + stack.drop_last()).push(c) =~= below + stack.drop_last().push(c));
                        law_inside(w, next, below, stack.drop_last().push(c));
                    },
                    None => {
                        law_inside(w, next, below, stack.drop_last());
                    },
                }
            }
        },
    }
}

/// A command with words before it.
pub open spec fn worded(name: Text, a: Seq<Text>) -> Seq<Text> {
    seq![name] + a
}

/// What a command that waits for one inside it comes to, where that one asks nothing.
proof fn lemma_one_inside(w: World, name: Text, a: Seq<Text>, c: Coat, v: World, r: Text)
    requires
        begin(w, worded(name, a)) == (w, Begun::Enter(c, a)),
        dispatched(w, a) == (v, Course::Reply(r)),
        passed_on(c, r).0 is None,
        passed_on(c, r).1 is Back,
    ensures
        dispatched(w, worded(name, a)) == (v, Course::Reply(passed_on(c, r).1->Back_0)),
{
    let none = Seq::<Coat>::empty();
    let one = none.push(c);
    let t = passed_on(c, r).1->Back_0;
    law_inside(w, Turn::Run(a), one, none);
    assert(one + none =~= one);
    assert(one.drop_last() =~= none);
    assert(dispatched(w, worded(name, a)) == settled(w, Turn::Run(a), one)) by {
        reveal_with_fuel(settled, 1);
    }
    assert(settled(v, Turn::Back(r), one) == settled(v, Turn::Back(t), none)) by {
        reveal_with_fuel(settled, 1);
    }
    assert(settled(v, Turn::Back(t), none) == (v, Course::Reply(t))) by {
        reveal_with_fuel(settled, 1);
    }
}

/// `try` says what its command says, but never that it failed.
pub proof fn law_try(w: World, a: Seq<Text>, v: World, r: Text)
    requires
        dispatched(w, a) == (v, Course::Reply(r)),
    ensures
        dispatched(w, worded("try"@, a)) == (v, Course::Reply(if is_failure(r) { ok_text() } else { r })),
        dispatched(w, worded("try"@, a)).1 matches Course::Reply(t) ==> !is_failure(t),
{
    law_failures(r);
    lemma_outer_words();
    assert(worded("try"@, a).skip(1) =~= a);
    assert(begin_outer(w, "try"@, a) == Some(Begun::Enter(Coat::Try, a)));
    lemma_one_inside(w, "try"@, a, Coat::Try, v, r);
}

/// `silent` says nothing where its command succeeds, and no more than that it failed
/// where it fails.
pub proof fn law_silent(w: World, a: Seq<Text>, v: World, r: Text)
    requires
        dispatched(w, a) == (v, Course::Reply(r)),
    ensures
        dispatched(w, worded("silent"@, a)) == (
            v,
            Course::Reply(
                if is_failure(r) {
                    err_text("(silenced)"@)
                } else {
                    Seq::empty()
                },
            ),
        ),
{
    lemma_outer_words();
    assert(worded("silent"@, a).skip(1) =~= a);
    assert(begin_outer(w, "silent"@, a) == Some(Begun::Enter(Coat::Silent, a)));
    lemma_one_inside(w, "silent"@, a, Coat::Silent, v, r);
}

/// `!` fails where its command succeeds, and succeeds where it fails.
pub proof fn law_negate(w: World, a: Seq<Text>, v: World, r: Text)
    requires
        a.len() > 0,
        dispatched(w, a) == (v, Course::Reply(r)),
    ensures
        dispatched(w, worded("!"@, a)).0 == v,
        dispatched(w, worded("!"@, a)).1 matches Course::Reply(t) && is_failure(t) == !is_failure(r),
        dispatched(w, worded("negate"@, a)) == dispatched(w, worded("!"@, a)),
{
    law_failures("negate: command succeeded"@);
    lemma_outer_words();
    assert(worded("!"@, a).skip(1) =~= a);
    assert(worded("negate"@, a).skip(1) =~= a);
    assert(begin_outer(w, "!"@, a) == Some(Begun::Enter(Coat::Negate, a)));
    assert(begin_outer(w, "negate"@, a) == Some(Begun::Enter(Coat::Negate, a)));
    lemma_one_inside(w, "!"@, a, Coat::Negate, v, r);
    lemma_one_inside(w, "negate"@, a, Coat::Negate, v, r);
}

/// The names of the commands that hold others differ.
proof fn lemma_outer_words()
    ensures
        "try"@ != "chain"@,
        "try"@ != "and"@,
        "try"@ != "or"@,
        "try"@ != "!"@,
        "try"@ != "negate"@,
        "silent"@ != "chain"@,
        "silent"@ != "and"@,
        "silent"@ != "or"@,
        "silent"@ != "!"@,
        "silent"@ != "negate"@,
        "silent"@ != "try"@,
        "!"@ != "chain"@,
        "!"@ != "and"@,
        "!"@ != "or"@,
        "negate"@ != "chain"@,
        "negate"@ != "and"@,
        "negate"@ != "or"@,
        "and"@ != "chain"@,
        "or"@ != "chain"@,
        "or"@ != "and"@,
{
    reveal_strlit("try");
    reveal_strlit("chain");
    reveal_strlit("and");
    reveal_strlit("or");
    reveal_strlit("!");
    reveal_strlit("negate");
    reveal_strlit("silent");
    assert("try"@[0] == 't' && "chain"@[0] == 'c' && "and"@[0] == 'a' && "or"@[0] == 'o');
    assert("!"@[0] == '!' && "negate"@[0] == 'n' && "silent"@[0] == 's');
}

/// The name of a group of commands.
pub open spec fn mode_name(mode: ChainMode) -> Text {
    match mode {
        ChainMode::Chain => "chain"@,
        ChainMode::And => "and"@,
        ChainMode::Or => "or"@,
    }
}

/// What commands come to, one after the other: all of them, or up to the first that
/// fails, or up to the first that does not. None where one asks something.
pub open spec fn one_by_one(w: World, mode: ChainMode, said: Text, gs: Seq<Seq<Text>>) -> Option<(World, Text)>
    decreases gs.len(),
{
    if gs.len() == 0 {
        Some((w, said))
    } else {
        match dispatched(w, gs[0]) {
            (v, Course::Reply(r)) => match mode {
                ChainMode::Chain => one_by_one(v, mode, said + r, gs.skip(1)),
                ChainMode::And => if is_failure(r) {
                    Some((v, r))
                } else {
                    one_by_one(v, mode, r, gs.skip(1))
                },
                ChainMode::Or => if is_failure(r) {
                    one_by_one(v, mode, r, gs.skip(1))
                } else {
                    Some((v, r))
                },
            },
            _ => None,
        }
    }
}

proof fn lemma_group_goes_on(
    w: World,
    mode: ChainMode,
    said: Text,
    gs: Seq<Seq<Text>>,
    below: Seq<Coat>,
    v: World,
    t: Text,
)
    requires
        gs.len() > 0,
        one_by_one(w, mode, said, gs) == Some((v, t)),
    ensures
        settled(
            w,
            Turn::Run(gs[0]),
            below.push(Coat::Group { mode, said, left: gs.skip(1) }),
        ) == settled(v, Turn::Back(t), below),
    decreases gs.len(),
{
    let none = Seq::<Coat>::empty();
    let c = Coat::Group { mode, said, left: gs.skip(1) };
    let all = below.push(c);
    law_inside(w, Turn::Run(gs[0]), all, none);
    assert(all + none =~= all);
    let (u, course) = dispatched(w, gs[0]);
    let r = course->Reply_0;
    assert(all.drop_last() =~= below);
    let (next_c, next) = passed_on(c, r);
    assert(settled(u, Turn::Back(r), all) == settled(
        u,
        next,
        match next_c {
            Some(c) => below.push(c),
            None => below,
        },
    )) by {
        reveal_with_fuel(settled, 1);
    }
    if next_c is Some {
        let now = if mode == ChainMode::Chain {
            said + r
        } else {
            r
        };
        lemma_group_goes_on(u, mode, now, gs.skip(1), below, v, t);
    } else {
        assert(gs.skip(1).len() == 0 || mode != ChainMode::Chain);
        if gs.skip(1).len() == 0 {
            reveal_with_fuel(one_by_one, 2);
        }
    }
}

/// A group of commands comes to what its commands come to, one after the other: `chain`
/// carries out all of them and says all that they say, `and` goes on to the first that
/// fails, `or` to the first that does not.
pub proof fn law_group(w: World, mode: ChainMode, sep: Text, words: Seq<Text>, v: World, t: Text)
    requires
        one_by_one(w, mode, said_first(mode), kept(groups(words, sep))) == Some((v, t)),
    ensures
        dispatched(w, worded(mode_name(mode), worded(sep, words))) == (v, Course::Reply(t)),
{
    let a = worded(sep, words);
    let args = worded(mode_name(mode), a);
    lemma_outer_words();
    assert(args.skip(1) =~= a);
    assert(a.skip(1) =~= words);
    let gs = kept(groups(words, sep));
    let none = Seq::<Coat>::empty();
    assert(begin_outer(w, mode_name(mode), a) == Some(begin_group(mode, a)));
    if gs.len() == 0 {
        assert(dispatched(w, args) == settled(w, Turn::Back(t), none)) by {
            reveal_with_fuel(settled, 1);
        }
        assert(settled(w, Turn::Back(t), none) == (w, Course::Reply(t))) by {
            reveal_with_fuel(settled, 1);
        }
    } else {
        let c = Coat::Group { mode, said: said_first(mode), left: gs.skip(1) };
        assert(dispatched(w, args) == settled(w, Turn::Run(gs[0]), none.push(c))) by {
            reveal_with_fuel(settled, 1);
        }
        lemma_group_goes_on(w, mode, said_first(mode), gs, none, v, t);
        assert(settled(v, Turn::Back(t), none) == (v, Course::Reply(t))) by {
            reveal_with_fuel(settled, 1);
        }
    }
}

/// What all of some commands say, and the world that they leave; none where one asks
/// something.
pub open spec fn all_said(w: World, gs: Seq<Seq<Text>>) -> Option<(World, Text)>
    decreases gs.len(),
{
    if gs.len() == 0 {
        Some((w, Seq::empty()))
    } else {
        match all_said(w, gs.drop_last()) {
            Some((v, t)) => match dispatched(v, gs.last()) {
                (u, Course::Reply(r)) => Some((u, t + r)),
                _ => None,
            },
            None => None,
        }
    }
}

proof fn lemma_all_said_first(w: World, gs: Seq<Seq<Text>>)
    requires
        gs.len() > 0,
        all_said(w, gs) is Some,
    ensures
        dispatched(w, gs[0]).1 is Reply,
        all_said(dispatched(w, gs[0]).0, gs.skip(1)) is Some,
        all_said(w, gs)->Some_0.0 == all_said(dispatched(w, gs[0]).0, gs.skip(1))->Some_0.0,
        all_said(w, gs)->Some_0.1 == dispatched(w, gs[0]).1->Reply_0 + all_said(
            dispatched(w, gs[0]).0,
            gs.skip(1),
        )->Some_0.1,
    decreases gs.len(),
{
    if gs.len() == 1 {
        reveal_with_fuel(all_said, 2);
        assert(gs.skip(1) =~= Seq::<Seq<Text>>::empty());
        assert(gs.drop_last() =~= Seq::<Seq<Text>>::empty());
        let r = dispatched(w, gs[0]).1->Reply_0;
        assert(Seq::<char>::empty() + r =~= r + Seq::<char>::empty());
    } else {
        lemma_all_said_first(w, gs.drop_last());
        assert(gs.drop_last().skip(1) =~= gs.skip(1).drop_last());
        assert(gs.skip(1).last() == gs.last());
        let r = dispatched(w, gs[0]).1->Reply_0;
        let (v, t) = all_said(dispatched(w, gs[0]).0, gs.drop_last().skip(1))->0;
        let s = dispatched(v, gs.last()).1->Reply_0;
        assert((r + t) + s =~= r + (t + s));
    }
}

proof fn lemma_chain_said(w: World, said: Text, gs: Seq<Seq<Text>>)
    requires
        all_said(w, gs) is Some,
    ensures
        one_by_one(w, ChainMode::Chain, said, gs) == Some(
            (all_said(w, gs)->Some_0.0, said + all_said(w, gs)->Some_0.1),
        ),
    decreases gs.len(),
{
    if gs.len() == 0 {
        assert(said + Seq::<char>::empty() =~= said);
    } else {
        lemma_all_said_first(w, gs);
        let (v, course) = dispatched(w, gs[0]);
        let r = course->Reply_0;
        lemma_chain_said(v, said + r, gs.skip(1));
        let t = all_said(v, gs.skip(1))->Some_0.1;
        assert((said + r) + t =~= said + (r + t));
    }
}

/// `chain` carries out every command that stands between its separators, in order, and
/// says all that they say, one after the other.
pub proof fn law_chain(w: World, sep: Text, words: Seq<Text>)
    requires
        all_said(w, kept(groups(words, sep))) is Some,
    ensures
        dispatched(w, worded("chain"@, worded(sep, words))) == (
            all_said(w, kept(groups(words, sep)))->Some_0.0,
            Course::Reply(all_said(w, kept(groups(words, sep)))->Some_0.1),
        ),
{
    let gs = kept(groups(words, sep));
    lemma_chain_said(w, Seq::empty(), gs);
    let (v, t) = all_said(w, gs)->0;
    assert(Seq::<char>::empty() + t =~= t);
    law_group(w, ChainMode::Chain, sep, words, v, t);
}

} // verus!
