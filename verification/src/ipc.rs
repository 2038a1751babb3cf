//! The commands that clients send, and those that combine other commands.

use vstd::prelude::*;
use crate::attr::{attr_value, get};
use crate::cmd_tray::{cmd_tray, tray, TrayPlan, TrayStep, TrayVerb};
use crate::cmd_wallpaper::{
    cmd_wallpaper, cmd_wallpaper_file, wallpaper, wallpaper_file, Wall, WallStep,
};
use crate::combine::{count_marks, fill_in, filled_in, format_marks, formatted, mark_count};
use crate::keys::{
    args_from, bind_key, holds_zero, key_bound, key_words, keybind_known, keybind_to, parse_key_words,
};
use crate::launcher::DesktopApp;
use crate::launching::{apps_opened, launcher_closed};
use crate::reply::{
    err, err3, err_about, err_text, failed, groups, is_failure, ok, ok_text, split_groups, two,
};
use crate::route::{at_once, run_at_once};
use crate::state::{State, World};
use crate::text::{same, Text};
use crate::wallpaper::WallMode;

verus! {

// --- what is asked of the outside ---------------------------------------------------------

/// What a command needs from outside before it can go on.
#[derive(Debug)]
pub enum Request {
    /// Start a program; the first word is its name.
    Spawn(Vec<String>),
    /// Read a variable of the environment.
    Getenv(String),
    /// See whether there is a file.
    File { mons: Vec<usize>, path: String, mode: WallMode },
    /// Tell an item of the tray something.
    Tray(TrayVerb, String),
    /// Find the number of a key.
    Keysym { mods: u32, name: String, args: Vec<String> },
    /// Read the applications.
    Apps,
    /// End the session.
    Quit,
}

/// What a command needs from outside, its strings as texts.
pub ghost enum Ask {
    Spawn(Seq<Text>),
    Getenv(Text),
    File { mons: Seq<usize>, path: Text, mode: WallMode },
    Tray(TrayVerb, Text),
    Keysym { mods: u32, name: Text, args: Seq<Text> },
    Apps,
    Quit,
}

impl View for Request {
    type V = Ask;

    open spec fn view(&self) -> Ask {
        match self {
            Request::Spawn(a) => Ask::Spawn(a.deep_view()),
            Request::Getenv(n) => Ask::Getenv(n@),
            Request::File { mons, path, mode } => Ask::File {
                mons: mons@,
                path: path@,
                mode: *mode,
            },
            Request::Tray(v, k) => Ask::Tray(*v, k@),
            Request::Keysym { mods, name, args } => Ask::Keysym {
                mods: *mods,
                name: name@,
                args: args.deep_view(),
            },
            Request::Apps => Ask::Apps,
            Request::Quit => Ask::Quit,
        }
    }
}

/// What the outside says to what was asked.
#[derive(Debug)]
pub enum Answer {
    /// It was done, or is so.
    Done,
    /// It was not, for this reason.
    Failed(String),
    /// What was asked for.
    Value(String),
    /// The number that was asked for.
    Number(u32),
    /// The applications that there are.
    Apps(Vec<DesktopApp>),
}

/// What the outside says, its strings as texts.
pub ghost enum Told {
    Done,
    Failed(Text),
    Value(Text),
    Number(u32),
    Apps(Seq<(Text, Text)>),
}

impl View for Answer {
    type V = Told;

    open spec fn view(&self) -> Told {
        match self {
            Answer::Done => Told::Done,
            Answer::Failed(e) => Told::Failed(e@),
            Answer::Value(v) => Told::Value(v@),
            Answer::Number(n) => Told::Number(*n),
            Answer::Apps(a) => Told::Apps(a.deep_view()),
        }
    }
}

/// What a command comes to once the outside has answered.
pub open spec fn answered(w: World, ask: Ask, told: Told) -> (World, Text) {
    match ask {
        Ask::Spawn(_) => (
            w,
            match told {
                Told::Failed(e) => err_text("spawn: "@ + e),
                _ => ok_text(),
            },
        ),
        Ask::Getenv(n) => (
            w,
            match told {
                Told::Value(v) => v + "\n"@,
                _ => err_about("getenv: "@, n, " is not set"@),
            },
        ),
        Ask::File { mons, path, mode } => wallpaper_file(w, mons, path, mode, told is Done),
        Ask::Tray(_, _) => (
            w,
            match told {
                Told::Failed(e) => err_text("tray: command channel dead: "@ + e),
                _ => ok_text(),
            },
        ),
        Ask::Keysym { mods, name, args } => keybind_to(
            w,
            key_bound(
                mods,
                name,
                match told {
                    Told::Number(n) => n,
                    _ => 0,
                },
            ),
            args,
        ),
        Ask::Apps => (
            match told {
                Told::Apps(a) => apps_opened(World { apps: a, ..w }),
                _ => apps_opened(w),
            },
            ok_text(),
        ),
        Ask::Quit => (w, ok_text()),
    }
}

/// Whether a question is one that a command can ask.
pub open spec fn can_ask(ask: Ask) -> bool {
    ask matches Ask::Keysym { mods, name, args } ==> args.len() >= 2
}

/// Goes on with a command once the outside has answered.
fn settle_answer(state: &mut State, request: Request, answer: Answer) -> (r: String)
    requires
        old(state)@.wf(),
        can_ask(request@),
    ensures
        (final(state)@, r@) == answered(old(state)@, request@, answer@),
        final(state)@.wf(),
{
    match request {
        Request::Spawn(_) => match answer {
            Answer::Failed(e) => err(two("spawn: ", e.as_str()).as_str()),
            _ => ok(),
        },
        Request::Getenv(n) => match answer {
            Answer::Value(v) => two(v.as_str(), "\n"),
            _ => err3("getenv: ", n.as_str(), " is not set"),
        },
        Request::File { mons, path, mode } => {
            let there: bool = match answer {
                Answer::Done => true,
                _ => false,
            };
            cmd_wallpaper_file(state, &mons, path.as_str(), mode, there)
        },
        Request::Tray(_, _) => match answer {
            Answer::Failed(e) => err(two("tray: command channel dead: ", e.as_str()).as_str()),
            _ => ok(),
        },
        Request::Keysym { mods, name, args } => {
            let number: u32 = match answer {
                Answer::Number(n) => n,
                _ => 0,
            };
            let bound = bind_key(mods, name.as_str(), number);
            keybind_known(state, bound, args.as_slice())
        },
        Request::Apps => {
            if let Answer::Apps(a) = answer {
                state.apps = a;
            }
            state.open_apps();
            ok()
        },
        Request::Quit => ok(),
    }
}

// --- commands that hold others ------------------------------------------------------------

/// How a group of commands goes on from one to the next.
#[derive(Clone, Copy, Debug, PartialEq, Eq, Structural)]
pub enum ChainMode {
    /// All are carried out, and all that they say is said.
    Chain,
    /// The first that fails ends the group.
    And,
    /// The first that does not fail ends the group.
    Or,
}

/// A command that waits for one inside it.
#[derive(Debug)]
pub enum Shell {
    /// A group of commands: what was said so far, and those that are left.
    Group { mode: ChainMode, said: String, left: Vec<Vec<String>> },
    Negate,
    Try,
    Silent,
}

/// A command that waits for one inside it, its strings as texts.
pub ghost enum Coat {
    Group { mode: ChainMode, said: Text, left: Seq<Seq<Text>> },
    Negate,
    Try,
    Silent,
}

impl DeepView for Shell {
    type V = Coat;

    open spec fn deep_view(&self) -> Coat {
        match self {
            Shell::Group { mode, said, left } => Coat::Group {
                mode: *mode,
                said: said@,
                left: left.deep_view(),
            },
            Shell::Negate => Coat::Negate,
            Shell::Try => Coat::Try,
            Shell::Silent => Coat::Silent,
        }
    }
}

/// The groups that hold a word.
pub open spec fn kept(gs: Seq<Seq<Text>>) -> Seq<Seq<Text>>
    decreases gs.len(),
{
    if gs.len() == 0 {
        Seq::empty()
    } else if gs.last().len() == 0 {
        kept(gs.drop_last())
    } else {
        kept(gs.drop_last()).push(gs.last())
    }
}

/// What comes of the beginning of a command.
pub ghost enum Begun {
    /// It is done.
    Reply(Text),
    /// It needs something from outside.
    Ask(Ask),
    /// It waits for another command.
    Enter(Coat, Seq<Text>),
    /// It stands for another command.
    Again(Seq<Text>),
}

/// What a group of commands says before its first one.
pub open spec fn said_first(mode: ChainMode) -> Text {
    if mode == ChainMode::Chain {
        Seq::empty()
    } else {
        ok_text()
    }
}

/// The beginning of a group of commands.
pub open spec fn begin_group(mode: ChainMode, a: Seq<Text>) -> Begun {
    if a.len() == 0 {
        Begun::Reply(err_text("chain: expected a separator token"@))
    } else {
        let gs = kept(groups(a.skip(1), a[0]));
        if gs.len() == 0 {
            Begun::Reply(said_first(mode))
        } else {
            Begun::Enter(Coat::Group { mode, said: said_first(mode), left: gs.skip(1) }, gs[0])
        }
    }
}

/// The beginning of a command that stands for another one with values put in.
pub open spec fn begin_filled(w: World, name: Text, a: Seq<Text>) -> Begun {
    if name == "substitute"@ {
        if a.len() < 3 {
            Begun::Reply(err_text("substitute: expected <ident> <attr> <command...>"@))
        } else {
            match attr_value(w, a[1]) {
                Err(e) => Begun::Reply(err_text(e)),
                Ok(v) => Begun::Again(filled_in(a.skip(2), a[0], v)),
            }
        }
    } else if a.len() < 2 {
        Begun::Reply(err_text("sprintf: expected <ident> <format> [attrs...] <command...>"@))
    } else {
        let n = mark_count(a[1]);
        if a.len() < 3 + n {
            Begun::Reply(err_text("sprintf: not enough arguments for the format"@))
        } else {
            Begun::Again(
                filled_in(
                    a.skip(2 + n as int),
                    a[0],
                    formatted(w, a[1], a.subrange(2, 2 + n as int)),
                ),
            )
        }
    }
}

/// The beginning of a command that holds another; none where it is no such command.
pub open spec fn begin_outer(w: World, name: Text, a: Seq<Text>) -> Option<Begun> {
    if name == "chain"@ {
        Some(begin_group(ChainMode::Chain, a))
    } else if name == "and"@ {
        Some(begin_group(ChainMode::And, a))
    } else if name == "or"@ {
        Some(begin_group(ChainMode::Or, a))
    } else if name == "!"@ || name == "negate"@ {
        Some(
            if a.len() == 0 {
                Begun::Reply(err_text("negate: expected a command"@))
            } else {
                Begun::Enter(Coat::Negate, a)
            },
        )
    } else if name == "try"@ {
        Some(Begun::Enter(Coat::Try, a))
    } else if name == "silent"@ {
        Some(Begun::Enter(Coat::Silent, a))
    } else if name == "substitute"@ || name == "sprintf"@ {
        Some(begin_filled(w, name, a))
    } else {
        None
    }
}

/// The beginning of `keybind <key> <command>...`.
pub open spec fn begin_keybind(w: World, a: Seq<Text>) -> (World, Begun) {
    if a.len() < 2 {
        (w, Begun::Reply(err_text("keybind: expected <mods+key> <command...>"@)))
    } else {
        match key_words(a[0]) {
            Err(e) => (w, Begun::Reply(err_text("keybind: "@ + e))),
            Ok((mods, name)) => if name.contains('\0') {
                let (v, t) = keybind_to(w, key_bound(mods, name, 0), a);
                (v, Begun::Reply(t))
            } else {
                (w, Begun::Ask(Ask::Keysym { mods, name, args: a }))
            },
        }
    }
}

/// The beginning of a command that may need something from outside; none where it is no
/// such command.
#[verifier::opaque]
pub open spec fn begin_asking(w: World, name: Text, a: Seq<Text>) -> Option<(World, Begun)> {
    if name == "spawn"@ {
        Some(
            (
                w,
                if a.len() == 0 {
                    Begun::Reply(err_text("spawn: expected a command"@))
                } else {
                    Begun::Ask(Ask::Spawn(a))
                },
            ),
        )
    } else if name == "getenv"@ {
        Some(
            (
                w,
                if a.len() == 0 {
                    Begun::Reply(err_text("getenv: expected a variable name"@))
                } else {
                    Begun::Ask(Ask::Getenv(a[0]))
                },
            ),
        )
    } else if name == "keybind"@ {
        Some(begin_keybind(w, a))
    } else if name == "wallpaper"@ {
        Some(
            match wallpaper(w, a) {
                Wall::Done(v, t) => (v, Begun::Reply(t)),
                Wall::File { mons, path, mode } => (w, Begun::Ask(Ask::File { mons, path, mode })),
            },
        )
    } else if name == "tray"@ {
        Some(
            (
                w,
                match tray(w, a) {
                    TrayPlan::Reply(t) => Begun::Reply(t),
                    TrayPlan::Tell(v, k) => Begun::Ask(Ask::Tray(v, k)),
                },
            ),
        )
    } else if name == "launcher"@ {
        Some(
            if w.launcher is Some {
                (launcher_closed(w), Begun::Reply(ok_text()))
            } else if w.apps.len() == 0 {
                (w, Begun::Ask(Ask::Apps))
            } else {
                (apps_opened(w), Begun::Reply(ok_text()))
            },
        )
    } else if name == "quit"@ {
        Some((w, Begun::Ask(Ask::Quit)))
    } else {
        None
    }
}

/// The beginning of a command.
pub open spec fn begin(w: World, args: Seq<Text>) -> (World, Begun) {
    if args.len() == 0 {
        (w, Begun::Reply(err_text("empty command"@)))
    } else {
        let a = args.skip(1);
        match begin_outer(w, args[0], a) {
            Some(b) => (w, b),
            None => match begin_asking(w, args[0], a) {
                Some(p) => p,
                None => match at_once(w, args[0], a) {
                    Some((v, t)) => (v, Begun::Reply(t)),
                    None => (w, Begun::Reply(err_text("unknown command: "@ + args[0]))),
                },
            },
        }
    }
}

/// What is to be done next: a command carried out, or what one said handed on.
pub ghost enum Turn {
    Run(Seq<Text>),
    Back(Text),
}

/// What commands come to: a reply, or a question to the outside with the commands that
/// wait for it.
pub ghost enum Course {
    Reply(Text),
    Ask(Ask, Seq<Coat>),
}

/// What a command does with what the one inside it said: what it says itself, or the
/// command that it goes on with.
pub open spec fn passed_on(c: Coat, said: Text) -> (Option<Coat>, Turn) {
    match c {
        Coat::Negate => (
            None,
            Turn::Back(
                if is_failure(said) {
                    ok_text()
                } else {
                    err_text("negate: command succeeded"@)
                },
            ),
        ),
        Coat::Try => (
            None,
            Turn::Back(
                if is_failure(said) {
                    ok_text()
                } else {
                    said
                },
            ),
        ),
        Coat::Silent => (
            None,
            Turn::Back(
                if is_failure(said) {
                    err_text("(silenced)"@)
                } else {
                    Seq::empty()
                },
            ),
        ),
        Coat::Group { mode, said: before, left } => {
            let now = if mode == ChainMode::Chain {
                before + said
            } else {
                said
            };
            if left.len() == 0 || (mode == ChainMode::And && is_failure(said)) || (mode
                == ChainMode::Or && !is_failure(said)) {
                (None, Turn::Back(now))
            } else {
                (Some(Coat::Group { mode, said: now, left: left.skip(1) }), Turn::Run(left[0]))
            }
        },
    }
}

/// How much there is to do in groups of words.
pub open spec fn groups_weight(gs: Seq<Seq<Text>>) -> nat
    decreases gs.len(),
{
    if gs.len() == 0 {
        0
    } else {
        groups_weight(gs.drop_last()) + 2 * gs.last().len() + 2
    }
}

/// How much there is to do in a command that waits.
pub open spec fn coat_weight(c: Coat) -> nat {
    match c {
        Coat::Group { mode, said, left } => 1 + groups_weight(left),
        _ => 1,
    }
}

/// How much there is to do in commands that wait.
pub open spec fn stack_weight(stack: Seq<Coat>) -> nat
    decreases stack.len(),
{
    if stack.len() == 0 {
        0
    } else {
        stack_weight(stack.drop_last()) + coat_weight(stack.last())
    }
}

/// How much there is to do next.
pub open spec fn turn_weight(t: Turn) -> nat {
    match t {
        Turn::Run(args) => 2 * args.len() + 1,
        Turn::Back(_) => 0,
    }
}

/// One step: what is next, and the commands that wait, the innermost last; or the end.
pub ghost enum Step {
    Next(World, Turn, Seq<Coat>),
    End(World, Course),
}

/// What one step makes.
pub open spec fn step(w: World, t: Turn, stack: Seq<Coat>) -> Step {
    match t {
        Turn::Run(args) => {
            let (v, b) = begin(w, args);
            match b {
                Begun::Reply(r) => Step::Next(v, Turn::Back(r), stack),
                Begun::Ask(q) => Step::End(v, Course::Ask(q, stack)),
                Begun::Enter(c, inner) => Step::Next(v, Turn::Run(inner), stack.push(c)),
                Begun::Again(inner) => Step::Next(v, Turn::Run(inner), stack),
            }
        },
        Turn::Back(said) => if stack.len() == 0 {
            Step::End(w, Course::Reply(said))
        } else {
            let (c, next) = passed_on(stack.last(), said);
            Step::Next(
                w,
                next,
                match c {
                    Some(c) => stack.drop_last().push(c),
                    None => stack.drop_last(),
                },
            )
        },
    }
}

/// All that follows: step after step until the end.
#[verifier::opaque]
pub open spec fn settled(w: World, t: Turn, stack: Seq<Coat>) -> (World, Course)
    decreases turn_weight(t) + stack_weight(stack),
    via settled_ends
{
    match step(w, t, stack) {
        Step::End(v, c) => (v, c),
        Step::Next(v, next, rest) => settled(v, next, rest),
    }
}

#[via_fn]
proof fn settled_ends(w: World, t: Turn, stack: Seq<Coat>) {
    lemma_step_lighter(w, t, stack);
}

proof fn lemma_kept_weight(gs: Seq<Seq<Text>>)
    ensures
        groups_weight(kept(gs)) <= groups_weight(gs),
        forall|i: int| 0 <= i < kept(gs).len() ==> (#[trigger] kept(gs)[i]).len() > 0,
    decreases gs.len(),
{
    if gs.len() > 0 {
        lemma_kept_weight(gs.drop_last());
        if gs.last().len() > 0 {
            let k = kept(gs.drop_last());
            assert(kept(gs).drop_last() =~= k);
            assert forall|i: int| 0 <= i < kept(gs).len() implies (#[trigger] kept(gs)[i]).len()
                > 0 by {
                if i < k.len() {
                    assert(kept(gs)[i] == k[i]);
                }
            }
        }
    }
}

/// The weight of groups is that of the first and of the rest.
proof fn lemma_first_weight(gs: Seq<Seq<Text>>)
    requires
        gs.len() > 0,
    ensures
        groups_weight(gs) == 2 * gs[0].len() + 2 + groups_weight(gs.skip(1)),
    decreases gs.len(),
{
    if gs.len() == 1 {
        assert(gs.drop_last() =~= Seq::<Seq<Text>>::empty());
        assert(gs.skip(1) =~= Seq::<Seq<Text>>::empty());
    } else {
        lemma_first_weight(gs.drop_last());
        assert(gs.drop_last().skip(1) =~= gs.skip(1).drop_last());
        assert(gs.skip(1).last() == gs.last());
    }
}

/// Cut into groups, words weigh little more than they did.
proof fn lemma_groups_weight(args: Seq<Text>, sep: Text)
    ensures
        groups_weight(groups(args, sep)) == 2 * args.len() + 2,
        groups(args, sep).len() > 0,
    decreases args.len(),
{
    let gs = groups(args, sep);
    if args.len() == 0 {
        assert(gs.drop_last() =~= Seq::<Seq<Text>>::empty());
        assert(gs.last().len() == 0);
        assert(groups_weight(gs.drop_last()) == 0);
    } else {
        let before = groups(args.drop_last(), sep);
        lemma_groups_weight(args.drop_last(), sep);
        if args.last() == sep {
            assert(gs.drop_last() =~= before);
            assert(gs.last().len() == 0);
        } else {
            assert(gs.drop_last() =~= before.drop_last());
            assert(gs.last() == before.last().push(args.last()));
            assert(gs.last().len() == before.last().len() + 1);
            assert(groups_weight(before) == groups_weight(before.drop_last()) + 2
                * before.last().len() + 2);
        }
    }
}

/// A group of commands leaves less to do than the words that it was made of.
proof fn lemma_group_lighter(mode: ChainMode, a: Seq<Text>)
    ensures
        begin_group(mode, a) matches Begun::Enter(c, inner) ==> 2 * inner.len() + 1 + coat_weight(c)
            <= 2 * a.len(),
        !(begin_group(mode, a) is Again),
{
    if a.len() > 0 {
        let gs = groups(a.skip(1), a[0]);
        lemma_groups_weight(a.skip(1), a[0]);
        lemma_kept_weight(gs);
        if kept(gs).len() > 0 {
            lemma_first_weight(kept(gs));
        }
    }
}

/// A command that may need something from outside begins no other.
proof fn lemma_asking_inner(w: World, name: Text, a: Seq<Text>)
    ensures
        begin_asking(w, name, a) matches Some(p) ==> p.1 is Reply || p.1 is Ask,
{
    reveal(begin_asking);
}

/// The beginning of a command leaves less to do.
proof fn lemma_begin_lighter(w: World, args: Seq<Text>)
    ensures
        begin(w, args).1 matches Begun::Enter(c, inner) ==> 2 * inner.len() + 1 + coat_weight(c)
            < 2 * args.len() + 1,
        begin(w, args).1 matches Begun::Again(inner) ==> inner.len() < args.len(),
{
    if args.len() > 0 {
        let a = args.skip(1);
        lemma_asking_inner(w, args[0], a);
        lemma_group_lighter(ChainMode::Chain, a);
        lemma_group_lighter(ChainMode::And, a);
        lemma_group_lighter(ChainMode::Or, a);
    }
}

/// Every step leaves less to do.
pub proof fn lemma_step_lighter(w: World, t: Turn, stack: Seq<Coat>)
    ensures
        step(w, t, stack) matches Step::Next(_, next, rest) ==> turn_weight(next) + stack_weight(
            rest,
        ) < turn_weight(t) + stack_weight(stack),
{
    match t {
        Turn::Run(args) => {
            lemma_begin_lighter(w, args);
            if begin(w, args).1 is Enter {
                assert(stack.push(begin(w, args).1->Enter_0).drop_last() =~= stack);
            }
        },
        Turn::Back(said) => {
            if stack.len() > 0 {
                let (c, next) = passed_on(stack.last(), said);
                if c is Some {
                    lemma_first_weight(stack.last()->left);
                    assert(stack.drop_last().push(c->0).drop_last() =~= stack.drop_last());
                }
            }
        },
    }
}

/// What a command comes to.
pub open spec fn dispatched(w: World, args: Seq<Text>) -> (World, Course) {
    settled(w, Turn::Run(args), Seq::empty())
}

// --- carrying commands out ----------------------------------------------------------------

/// What comes of the beginning of a command.
#[derive(Debug)]
pub enum Begin {
    Reply(String),
    Ask(Request),
    Enter(Shell, Vec<String>),
    Again(Vec<String>),
}

impl View for Begin {
    type V = Begun;

    open spec fn view(&self) -> Begun {
        match self {
            Begin::Reply(t) => Begun::Reply(t@),
            Begin::Ask(q) => Begun::Ask(q@),
            Begin::Enter(l, a) => Begun::Enter(l.deep_view(), a.deep_view()),
            Begin::Again(a) => Begun::Again(a.deep_view()),
        }
    }
}

/// The groups that hold a word.
fn kept_groups(gs: &Vec<Vec<String>>) -> (r: Vec<Vec<String>>)
    ensures
        r.deep_view() == kept(gs.deep_view()),
{
    let ghost all = gs.deep_view();
    let mut r: Vec<Vec<String>> = Vec::new();
    let mut i: usize = 0;
    assert(all.take(0) =~= Seq::<Seq<Text>>::empty());
    assert(r.deep_view() =~= Seq::<Seq<Text>>::empty());
    while i < gs.len()
        invariant
            i <= gs@.len(),
            all == gs.deep_view(),
            r.deep_view() == kept(all.take(i as int)),
        decreases gs@.len() - i,
    {
        let ghost before = r.deep_view();
        assert(all.take(i + 1).drop_last() =~= all.take(i as int));
        assert(all.take(i + 1).last() == gs@[i as int].deep_view());
        if gs[i].len() > 0 {
            r.push(gs[i].clone());
            assert(r.deep_view() =~= before.push(gs@[i as int].deep_view()));
        }
        i += 1;
    }
    assert(all.take(i as int) =~= all);
    r
}

/// Begins a group of commands.
fn open_group(mode: ChainMode, a: &[String]) -> (r: Begin)
    ensures
        r@ == begin_group(mode, a.deep_view()),
{
    if a.len() == 0 {
        return Begin::Reply(err("chain: expected a separator token"));
    }
    assert(a.deep_view()[0] == a@[0]@);
    let said: String = if mode == ChainMode::Chain {
        String::new()
    } else {
        ok()
    };
    assert(said@ =~= said_first(mode));
    let words = vstd::slice::slice_subrange(a, 1, a.len());
    assert(words.deep_view() =~= a.deep_view().skip(1));
    let mut left = kept_groups(&split_groups(words, a[0].as_str()));
    if left.len() == 0 {
        return Begin::Reply(said);
    }
    let ghost gs = left.deep_view();
    let first = left.remove(0);
    assert(left.deep_view() =~= gs.skip(1));
    Begin::Enter(Shell::Group { mode, said, left }, first)
}

/// Begins a command that stands for another one with values put in.
fn open_filled(state: &State, name: &str, a: &[String]) -> (r: Begin)
    requires
        state@.wf(),
    ensures
        r@ == begin_filled(state@, name@, a.deep_view()),
{
    assert(a@.len() > 0 ==> a.deep_view()[0] == a@[0]@);
    assert(a@.len() > 1 ==> a.deep_view()[1] == a@[1]@);
    if same(name, "substitute") {
        if a.len() < 3 {
            return Begin::Reply(err("substitute: expected <ident> <attr> <command...>"));
        }
        return match get(state, a[1].as_str()) {
            Err(e) => Begin::Reply(err(e.as_str())),
            Ok(v) => Begin::Again(fill_in(a, 2, a[0].as_str(), v.as_str())),
        };
    }
    if a.len() < 2 {
        return Begin::Reply(err("sprintf: expected <ident> <format> [attrs...] <command...>"));
    }
    let n: usize = count_marks(a[1].as_str());
    if a.len() - 2 <= n {
        return Begin::Reply(err("sprintf: not enough arguments for the format"));
    }
    let text = format_marks(state, a, n);
    Begin::Again(fill_in(a, 2 + n, a[0].as_str(), text.as_str()))
}

/// Begins a command that holds another.
fn open_outer(state: &State, name: &str, a: &[String]) -> (r: Option<Begin>)
    requires
        state@.wf(),
    ensures
        match begin_outer(state@, name@, a.deep_view()) {
            Some(b) => r is Some && r->0@ == b,
            None => r is None,
        },
{
    if same(name, "chain") {
        Some(open_group(ChainMode::Chain, a))
    } else if same(name, "and") {
        Some(open_group(ChainMode::And, a))
    } else if same(name, "or") {
        Some(open_group(ChainMode::Or, a))
    } else if same(name, "!") || same(name, "negate") {
        if a.len() == 0 {
            Some(Begin::Reply(err("negate: expected a command")))
        } else {
            Some(Begin::Enter(Shell::Negate, whole(a)))
        }
    } else if same(name, "try") {
        Some(Begin::Enter(Shell::Try, whole(a)))
    } else if same(name, "silent") {
        Some(Begin::Enter(Shell::Silent, whole(a)))
    } else if same(name, "substitute") || same(name, "sprintf") {
        Some(open_filled(state, name, a))
    } else {
        None
    }
}

/// The words of a command, all of them.
fn whole(a: &[String]) -> (r: Vec<String>)
    ensures
        r.deep_view() == a.deep_view(),
        r@.len() == a@.len(),
{
    let r = args_from(a, 0);
    assert(a.deep_view().skip(0) =~= a.deep_view());
    r
}

/// Begins `keybind`.
fn open_keybind(state: &mut State, a: &[String]) -> (r: Begin)
    requires
        old(state)@.wf(),
    ensures
        (final(state)@, r@) == begin_keybind(old(state)@, a.deep_view()),
        r@ matches Begun::Ask(q) ==> can_ask(q),
        final(state)@.wf(),
{
    if a.len() < 2 {
        return Begin::Reply(err("keybind: expected <mods+key> <command...>"));
    }
    assert(a.deep_view()[0] == a@[0]@);
    match parse_key_words(a[0].as_str()) {
        Err(e) => Begin::Reply(err(two("keybind: ", e.as_str()).as_str())),
        Ok((mods, name)) => {
            if holds_zero(name.as_str()) {
                let bound = bind_key(mods, name.as_str(), 0);
                Begin::Reply(keybind_known(state, bound, a))
            } else {
                Begin::Ask(Request::Keysym { mods, name, args: whole(a) })
            }
        },
    }
}

/// Begins a command that may need something from outside.
fn open_asking(state: &mut State, name: &str, a: &[String]) -> (r: Option<Begin>)
    requires
        old(state)@.wf(),
    ensures
        match begin_asking(old(state)@, name@, a.deep_view()) {
            Some((v, b)) => r is Some && r->0@ == b && final(state)@ == v,
            None => r is None && final(state)@ == old(state)@,
        },
        r is Some ==> (r->0@ matches Begun::Ask(q) ==> can_ask(q)),
        final(state)@.wf(),
{
    reveal(begin_asking);
    if same(name, "spawn") {
        if a.len() == 0 {
            return Some(Begin::Reply(err("spawn: expected a command")));
        }
        Some(Begin::Ask(Request::Spawn(whole(a))))
    } else if same(name, "getenv") {
        if a.len() == 0 {
            return Some(Begin::Reply(err("getenv: expected a variable name")));
        }
        assert(a.deep_view()[0] == a@[0]@);
        Some(Begin::Ask(Request::Getenv(a[0].clone())))
    } else if same(name, "keybind") {
        Some(open_keybind(state, a))
    } else if same(name, "wallpaper") {
        match cmd_wallpaper(state, a) {
            WallStep::Done(t) => Some(Begin::Reply(t)),
            WallStep::File { mons, path, mode } => Some(
                Begin::Ask(Request::File { mons, path, mode }),
            ),
        }
    } else if same(name, "tray") {
        match cmd_tray(state, a) {
            TrayStep::Reply(t) => Some(Begin::Reply(t)),
            TrayStep::Tell(v, k) => Some(Begin::Ask(Request::Tray(v, k))),
        }
    } else if same(name, "launcher") {
        if state.launcher.is_some() {
            state.close_launcher();
            Some(Begin::Reply(ok()))
        } else if state.apps.len() == 0 {
            Some(Begin::Ask(Request::Apps))
        } else {
            state.open_apps();
            Some(Begin::Reply(ok()))
        }
    } else if same(name, "quit") {
        Some(Begin::Ask(Request::Quit))
    } else {
        None
    }
}

/// Begins a command.
fn open_command(state: &mut State, args: &[String]) -> (r: Begin)
    requires
        old(state)@.wf(),
    ensures
        (final(state)@, r@) == begin(old(state)@, args.deep_view()),
        r@ matches Begun::Ask(q) ==> can_ask(q),
        final(state)@.wf(),
{
    if args.len() == 0 {
        return Begin::Reply(err("empty command"));
    }
    let name = args[0].as_str();
    assert(args.deep_view()[0] == args@[0]@);
    let a = vstd::slice::slice_subrange(args, 1, args.len());
    assert(a.deep_view() =~= args.deep_view().skip(1));
    if let Some(b) = open_outer(state, name, a) {
        proof {
            lemma_outer_inner(state@, name@, a.deep_view());
        }
        return b;
    }
    if let Some(b) = open_asking(state, name, a) {
        return b;
    }
    match run_at_once(state, name, a) {
        Some(t) => Begin::Reply(t),
        None => Begin::Reply(err(two("unknown command: ", name).as_str())),
    }
}

/// A command that holds another asks nothing itself.
proof fn lemma_outer_inner(w: World, name: Text, a: Seq<Text>)
    ensures
        begin_outer(w, name, a) matches Some(b) ==> !(b is Ask),
{
}

/// What is next.
#[derive(Debug)]
pub enum Next {
    Run(Vec<String>),
    Back(String),
}

impl View for Next {
    type V = Turn;

    open spec fn view(&self) -> Turn {
        match self {
            Next::Run(a) => Turn::Run(a.deep_view()),
            Next::Back(t) => Turn::Back(t@),
        }
    }
}

/// Hands on what a command said to the one that waits for it.
fn pass_on(l: Shell, said: String) -> (r: (Option<Shell>, Next))
    ensures
        (r.0.deep_view(), r.1@) == passed_on(l.deep_view(), said@),
{
    match l {
        Shell::Negate => (
            None,
            Next::Back(
                if failed(said.as_str()) {
                    ok()
                } else {
                    err("negate: command succeeded")
                },
            ),
        ),
        Shell::Try => (
            None,
            Next::Back(
                if failed(said.as_str()) {
                    ok()
                } else {
                    said
                },
            ),
        ),
        Shell::Silent => {
            let r: String = if failed(said.as_str()) {
                err("(silenced)")
            } else {
                String::new()
            };
            assert(!is_failure(said@) ==> r@ =~= Seq::<char>::empty());
            (None, Next::Back(r))
        },
        Shell::Group { mode, said: before, left } => {
            let mut left = left;
            let bad: bool = failed(said.as_str());
            let now: String = if mode == ChainMode::Chain {
                two(before.as_str(), said.as_str())
            } else {
                said
            };
            if left.len() == 0 || (mode == ChainMode::And && bad) || (mode == ChainMode::Or && !bad) {
                (None, Next::Back(now))
            } else {
                let ghost gs = left.deep_view();
                let first = left.remove(0);
                assert(left.deep_view() =~= gs.skip(1));
                (Some(Shell::Group { mode, said: now, left }), Next::Run(first))
            }
        },
    }
}

/// A question to the outside, with the commands that wait for the answer.
#[derive(Debug)]
pub struct Suspended {
    pub request: Request,
    pub stack: Vec<Shell>,
}

impl Suspended {
    /// The question is one that a command can ask.
    pub open spec fn wf(self) -> bool {
        can_ask(self.request@)
    }
}

/// What commands come to.
#[derive(Debug)]
pub enum Outcome {
    Reply(String),
    Ask(Suspended),
}

impl View for Outcome {
    type V = Course;

    open spec fn view(&self) -> Course {
        match self {
            Outcome::Reply(t) => Course::Reply(t@),
            Outcome::Ask(s) => Course::Ask(s.request@, s.stack.deep_view()),
        }
    }
}

/// Goes on until there is a reply or a question.
fn settle(state: &mut State, first: Next, waiting: Vec<Shell>) -> (r: Outcome)
    requires
        old(state)@.wf(),
    ensures
        (final(state)@, r@) == settled(old(state)@, first@, waiting.deep_view()),
        r matches Outcome::Ask(s) ==> s.wf(),
        final(state)@.wf(),
{
    let mut next = first;
    let mut stack = waiting;
    loop
        invariant
            state@.wf(),
            settled(old(state)@, first@, waiting.deep_view()) == settled(state@, next@, stack.deep_view()),
        decreases turn_weight(next@) + stack_weight(stack.deep_view()),
    {
        let ghost w0 = state@;
        let ghost t0 = next@;
        let ghost s0 = stack.deep_view();
        proof {
            reveal_with_fuel(settled, 1);
            lemma_step_lighter(w0, t0, s0);
        }
        match next {
            Next::Run(args) => {
                match open_command(state, args.as_slice()) {
                    Begin::Reply(t) => {
                        next = Next::Back(t);
                    },
                    Begin::Ask(request) => {
                        return Outcome::Ask(Suspended { request, stack });
                    },
                    Begin::Enter(l, inner) => {
                        stack.push(l);
                        next = Next::Run(inner);
                        assert(stack.deep_view() =~= s0.push(l.deep_view()));
                    },
                    Begin::Again(inner) => {
                        next = Next::Run(inner);
                    },
                }
            },
            Next::Back(said) => {
                match stack.pop() {
                    None => {
                        return Outcome::Reply(said);
                    },
                    Some(l) => {
                        assert(stack.deep_view() =~= s0.drop_last());
                        assert(s0.last() == l.deep_view());
                        let (c, n) = pass_on(l, said);
                        next = n;
                        if let Some(c) = c {
                            stack.push(c);
                            assert(stack.deep_view() =~= s0.drop_last().push(c.deep_view()));
                        }
                    },
                }
            },
        }
    }
}

/// Carries a command out, up to its reply or to what it needs from outside.
pub fn dispatch(state: &mut State, args: Vec<String>) -> (r: Outcome)
    requires
        old(state)@.wf(),
    ensures
        (final(state)@, r@) == dispatched(old(state)@, args.deep_view()),
        r matches Outcome::Ask(s) ==> s.wf(),
        final(state)@.wf(),
{
    let stack: Vec<Shell> = Vec::new();
    assert(stack.deep_view() =~= Seq::<Coat>::empty());
    settle(state, Next::Run(args), stack)
}

/// What follows once the outside has answered.
pub open spec fn resumed(w: World, ask: Ask, stack: Seq<Coat>, told: Told) -> (World, Course) {
    let (v, said) = answered(w, ask, told);
    settled(v, Turn::Back(said), stack)
}

/// Goes on with a command once the outside has answered.
pub fn resume(state: &mut State, s: Suspended, answer: Answer) -> (r: Outcome)
    requires
        old(state)@.wf(),
        s.wf(),
    ensures
        (final(state)@, r@) == resumed(old(state)@, s.request@, s.stack.deep_view(), answer@),
        r matches Outcome::Ask(q) ==> q.wf(),
        final(state)@.wf(),
{
    let said = settle_answer(state, s.request, answer);
    settle(state, Next::Back(said), s.stack)
}

} // verus!
