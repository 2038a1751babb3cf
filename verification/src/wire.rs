//! How commands get from the client to the window manager, and replies back.

use vstd::prelude::*;
use vstd::utf8::{decode_utf8, encode_utf8, valid_utf8};
use crate::path::{below, join_path};
use crate::reply::two;
use crate::text::{lines, same, split_lines, strip_end, strip_prefix, Class, Text};

verus! {

// --- requests -----------------------------------------------------------------------------

/// Arguments as they are sent: as UTF-8, with a zero byte between each two.
pub open spec fn framed(args: Seq<Text>) -> Seq<u8>
    decreases args.len(),
{
    if args.len() == 0 {
        Seq::empty()
    } else if args.len() == 1 {
        encode_utf8(args[0])
    } else {
        framed(args.drop_last()).push(0u8) + encode_utf8(args.last())
    }
}

/// The parts that bytes fall into between zeros.
pub open spec fn parts(buf: Seq<u8>) -> Seq<Seq<u8>>
    decreases buf.len(),
{
    if buf.len() == 0 {
        seq![Seq::empty()]
    } else {
        let before = parts(buf.drop_last());
        if buf.last() == 0 {
            before.push(Seq::empty())
        } else {
            before.update(before.len() - 1, before.last().push(buf.last()))
        }
    }
}

/// The text that is read for bytes that are not UTF-8.
pub uninterp spec fn lossy(bytes: Seq<u8>) -> Seq<char>;

/// The text that bytes stand for.
pub open spec fn text_of(bytes: Seq<u8>) -> Text {
    if valid_utf8(bytes) {
        decode_utf8(bytes)
    } else {
        lossy(bytes)
    }
}

/// Reads bytes as text: `String::from_utf8_lossy`. Bytes that are UTF-8 are read as such.
/// What is read for others depends on them alone; it is named, not described.
#[verifier::external_body]
pub(crate) fn read_lossy(bytes: &Vec<u8>) -> (r: String)
    ensures
        valid_utf8(bytes@) ==> r@ == decode_utf8(bytes@),
        !valid_utf8(bytes@) ==> r@ == lossy(bytes@),
{
    String::from_utf8_lossy(bytes).into_owned()
}

/// The texts of the parts that hold a byte.
pub open spec fn texts(ps: Seq<Seq<u8>>) -> Seq<Text>
    decreases ps.len(),
{
    if ps.len() == 0 {
        Seq::empty()
    } else if ps.last().len() == 0 {
        texts(ps.drop_last())
    } else {
        texts(ps.drop_last()).push(text_of(ps.last()))
    }
}

/// The arguments of a request.
pub open spec fn arguments(buf: Seq<u8>) -> Seq<Text> {
    texts(parts(buf))
}

/// Puts arguments as they are sent.
pub fn payload(args: &Vec<String>) -> (r: Vec<u8>)
    ensures
        r@ == framed(args.deep_view()),
{
    let ghost all = args.deep_view();
    let mut r: Vec<u8> = Vec::new();
    let mut i: usize = 0;
    assert(all.take(0) =~= Seq::<Text>::empty());
    while i < args.len()
        invariant
            i <= args@.len() == all.len(),
            all == args.deep_view(),
            r@ == framed(all.take(i as int)),
        decreases args@.len() - i,
    {
        assert(all.take(i + 1).drop_last() =~= all.take(i as int));
        assert(all.take(i + 1).last() == args@[i as int]@);
        let ghost before = r@;
        if i > 0 {
            r.push(0);
        }
        let bytes = args[i].as_str().as_bytes();
        let ghost head = r@;
        let mut k: usize = 0;
        while k < bytes.len()
            invariant
                k <= bytes@.len(),
                r@ == head + bytes@.take(k as int),
            decreases bytes@.len() - k,
        {
            r.push(bytes[k]);
            k += 1;
            assert(r@ =~= head + bytes@.take(k as int));
        }
        assert(bytes@.take(k as int) =~= bytes@);
        if i == 0 {
            assert(r@ =~= bytes@);
        }
        i += 1;
    }
    assert(all.take(i as int) =~= all);
    r
}

/// There is at least one part.
proof fn lemma_parts_some(buf: Seq<u8>)
    ensures
        parts(buf).len() > 0,
    decreases buf.len(),
{
    if buf.len() > 0 {
        lemma_parts_some(buf.drop_last());
    }
}

/// Reads the arguments of a request.
pub fn split_request(buf: &Vec<u8>) -> (r: Vec<String>)
    ensures
        r.deep_view() == arguments(buf@),
{
    let mut done: Vec<String> = Vec::new();
    let mut cur: Vec<u8> = Vec::new();
    let ghost mut front: Seq<Seq<u8>> = Seq::empty();
    let mut i: usize = 0;
    assert(buf@.take(0) =~= Seq::<u8>::empty());
    assert(done.deep_view() =~= Seq::<Text>::empty());
    assert(parts(buf@.take(0)) =~= front.push(cur@));
    while i < buf.len()
        invariant
            i <= buf@.len(),
            parts(buf@.take(i as int)) == front.push(cur@),
            done.deep_view() == texts(front),
        decreases buf@.len() - i,
    {
        let ghost before = front.push(cur@);
        assert(buf@.take(i + 1).drop_last() =~= buf@.take(i as int));
        assert(buf@.take(i + 1).last() == buf@[i as int]);
        if buf[i] == 0 {
            let ghost d0 = done.deep_view();
            assert(before.drop_last() =~= front);
            if cur.len() > 0 {
                let s = read_lossy(&cur);
                done.push(s);
                assert(done.deep_view() =~= d0.push(s@));
            }
            proof {
                front = before;
            }
            cur = Vec::new();
            assert(parts(buf@.take(i + 1)) =~= front.push(cur@));
        } else {
            cur.push(buf[i]);
            assert(before.update(before.len() - 1, cur@) =~= front.push(cur@));
        }
        i += 1;
    }
    assert(buf@.take(i as int) =~= buf@);
    let ghost all = front.push(cur@);
    assert(all.drop_last() =~= front);
    let ghost d0 = done.deep_view();
    if cur.len() > 0 {
        let s = read_lossy(&cur);
        done.push(s);
        assert(done.deep_view() =~= d0.push(s@));
    }
    done
}

/// What a connection is for.
#[derive(Debug)]
pub enum Call {
    /// To be sent what happens.
    Idle,
    /// To pick one of some lines.
    Menu(Vec<String>),
    /// To have a command carried out.
    Command(Vec<String>),
}

/// What a connection is for, by its arguments.
pub open spec fn call_of(c: Call, args: Seq<Text>) -> bool {
    if args.len() > 0 && (args[0] == "--idle"@ || args[0] == "-i"@) {
        c is Idle
    } else if args.len() > 0 && args[0] == "menu"@ {
        c matches Call::Menu(items) && items.deep_view() == args.skip(1)
    } else {
        c matches Call::Command(a) && a.deep_view() == args
    }
}

/// Tells what a connection is for.
pub fn take_call(args: Vec<String>) -> (r: Call)
    ensures
        call_of(r, args.deep_view()),
{
    if args.len() == 0 {
        return Call::Command(args);
    }
    assert(args.deep_view()[0] == args@[0]@);
    if same(args[0].as_str(), "--idle") || same(args[0].as_str(), "-i") {
        return Call::Idle;
    }
    if same(args[0].as_str(), "menu") {
        return Call::Menu(crate::keys::args_from(args.as_slice(), 1));
    }
    Call::Command(args)
}

// --- the client ---------------------------------------------------------------------------

/// What the client does with its arguments.
#[derive(Clone, Copy, Debug, PartialEq, Eq, Structural)]
pub enum ClientStep {
    /// It says what commands there are.
    Help,
    /// It says so, for it was given none.
    Usage,
    /// It sends them with the lines that it is given, and waits for the one that is picked.
    Menu,
    /// It sends them, and passes on what happens.
    Idle,
    /// It sends them, and waits for the reply.
    Send,
}

/// What the client does with its arguments.
pub open spec fn client_step(args: Seq<Text>) -> ClientStep {
    if args.len() == 0 {
        ClientStep::Usage
    } else if args[0] == "help"@ || args[0] == "-h"@ || args[0] == "--help"@ {
        ClientStep::Help
    } else if args[0] == "menu"@ {
        ClientStep::Menu
    } else if args[0] == "--idle"@ || args[0] == "-i"@ {
        ClientStep::Idle
    } else {
        ClientStep::Send
    }
}

/// Tells what the client does with its arguments.
pub fn plan_client(args: &Vec<String>) -> (r: ClientStep)
    ensures
        r == client_step(args.deep_view()),
{
    if args.len() == 0 {
        return ClientStep::Usage;
    }
    assert(args.deep_view()[0] == args@[0]@);
    let a = args[0].as_str();
    if same(a, "help") || same(a, "-h") || same(a, "--help") {
        ClientStep::Help
    } else if same(a, "menu") {
        ClientStep::Menu
    } else if same(a, "--idle") || same(a, "-i") {
        ClientStep::Idle
    } else {
        ClientStep::Send
    }
}

/// The lines that hold a character.
pub open spec fn full_lines(ls: Seq<Text>) -> Seq<Text>
    decreases ls.len(),
{
    if ls.len() == 0 {
        Seq::empty()
    } else if ls.last().len() == 0 {
        full_lines(ls.drop_last())
    } else {
        full_lines(ls.drop_last()).push(ls.last())
    }
}

/// Adds the lines of a text to the arguments, but for those that are empty.
pub fn append_lines(args: &mut Vec<String>, input: &str)
    ensures
        final(args).deep_view() == old(args).deep_view() + full_lines(lines(input@)),
{
    let ls = split_lines(input);
    let ghost start = args.deep_view();
    let ghost all = ls.deep_view();
    let mut i: usize = 0;
    assert(all.take(0) =~= Seq::<Text>::empty());
    assert(args.deep_view() =~= start + full_lines(all.take(0)));
    while i < ls.len()
        invariant
            i <= ls@.len() == all.len(),
            all == ls.deep_view(),
            args.deep_view() == start + full_lines(all.take(i as int)),
        decreases ls@.len() - i,
    {
        assert(all.take(i + 1).drop_last() =~= all.take(i as int));
        assert(all.take(i + 1).last() == ls@[i as int]@);
        let ghost before = args.deep_view();
        if !ls[i].as_str().is_empty() {
            args.push(ls[i].clone());
            assert(args.deep_view() =~= before.push(ls@[i as int]@));
        }
        i += 1;
        assert(args.deep_view() =~= start + full_lines(all.take(i as int)));
    }
    assert(all.take(i as int) =~= all);
}

/// What the client does with a reply.
#[derive(Debug)]
pub enum Verdict {
    /// It passes the reply on.
    Print,
    /// It says nothing, and that it failed.
    Fail,
    /// It complains of this, and says that it failed.
    Complain(String),
}

/// Whether a text holds nothing but line ends.
pub open spec fn only_newlines(s: Text) -> bool {
    forall|i: int| 0 <= i < s.len() ==> #[trigger] s[i] == '\n'
}

/// What the client does with a reply: a line that was picked is passed on, where there
/// is one; a failure is complained of; any other reply is passed on.
pub open spec fn verdict_of(v: Verdict, menu: bool, reply: Text) -> bool {
    if menu {
        if only_newlines(reply) {
            v is Fail
        } else {
            v is Print
        }
    } else {
        match crate::text::after(reply, "error:"@) {
            Some(rest) => v matches Verdict::Complain(s) && s@ == "sc: error:"@ + crate::text::trim_end(
                rest,
                Class::White,
            ),
            None => v is Print,
        }
    }
}

/// Tells what the client does with a reply.
pub fn judge_reply(menu: bool, reply: &str) -> (r: Verdict)
    ensures
        verdict_of(r, menu, reply@),
{
    if menu {
        let v = crate::text::chars_of(reply);
        let mut i: usize = 0;
        while i < v.len()
            invariant
                menu,
                i <= v@.len(),
                v@ == reply@,
                forall|j: int| 0 <= j < i ==> v@[j] == '\n',
            decreases v@.len() - i,
        {
            if v[i] != '\n' {
                assert(reply@[i as int] != '\n');
                return Verdict::Print;
            }
            i += 1;
        }
        return Verdict::Fail;
    }
    match strip_prefix(reply, "error:") {
        Some(rest) => Verdict::Complain(two(
            "sc: error:",
            strip_end(rest.as_str(), Class::White).as_str(),
        )),
        None => Verdict::Print,
    }
}

// --- the socket ---------------------------------------------------------------------------

/// The socket: the one that is named, or one for the display in the directory of the
/// session.
pub open spec fn socket_place(named: Option<Text>, dir: Option<Text>, display: Option<Text>) -> Text {
    match named {
        Some(p) => p,
        None => below(
            match dir {
                Some(d) => d,
                None => "/tmp"@,
            },
            "sfwm-"@ + (match display {
                Some(d) => d,
                None => "wayland-0"@,
            }) + ".sock"@,
        ),
    }
}

/// Tells where the socket is, by what the environment names.
pub fn socket_path(named: Option<String>, dir: Option<String>, display: Option<String>) -> (r: String)
    ensures
        r@ == socket_place(named.deep_view(), dir.deep_view(), display.deep_view()),
{
    if let Some(p) = named {
        return p;
    }
    let d: String = match dir {
        Some(d) => d,
        None => "/tmp".to_owned(),
    };
    let show: String = match display {
        Some(s) => s,
        None => "wayland-0".to_owned(),
    };
    let name = crate::reply::three("sfwm-", show.as_str(), ".sock");
    join_path(d.as_str(), name.as_str())
}

/// The start script: the one that is named, or the one in the user's configuration.
pub open spec fn script_place(named: Option<Text>, config: Option<Text>, home: Option<Text>) -> Text {
    match named {
        Some(p) => p,
        None => below(
            below(
                match config {
                    Some(c) => c,
                    None => below(
                        match home {
                            Some(h) => h,
                            None => Seq::empty(),
                        },
                        ".config"@,
                    ),
                },
                "sommerflusswm"@,
            ),
            "autostart"@,
        ),
    }
}

/// Tells where the start script is, by what the environment names.
pub fn autostart_path(named: Option<String>, config: Option<String>, home: Option<String>) -> (r: String)
    ensures
        r@ == script_place(named.deep_view(), config.deep_view(), home.deep_view()),
{
    if let Some(p) = named {
        return p;
    }
    let c: String = match config {
        Some(c) => c,
        None => {
            let h: String = match home {
                Some(h) => h,
                None => String::new(),
            };
            assert(home is None ==> h@ =~= Seq::<char>::empty());
            join_path(h.as_str(), ".config")
        },
    };
    join_path(join_path(c.as_str(), "sommerflusswm").as_str(), "autostart")
}

/// The start script that is installed with the program.
pub const PACKAGED: &'static str = "/usr/share/sommerflusswm/autostart";

/// Tells which start script runs: that of the user, or else the one that is installed.
pub fn pick_script(own: &str, own_there: bool, packaged_there: bool) -> (r: Option<String>)
    ensures
        r.deep_view() == (if own_there {
            Some(own@)
        } else if packaged_there {
            Some(PACKAGED@)
        } else {
            None
        }),
{
    if own_there {
        Some(own.to_owned())
    } else if packaged_there {
        Some(PACKAGED.to_owned())
    } else {
        None
    }
}

// --- laws ---------------------------------------------------------------------------------

/// Whether an argument survives being sent: it is not empty, and holds no zero.
pub open spec fn sendable(a: Text) -> bool {
    a.len() > 0 && !a.contains('\0')
}

/// Every byte of a character but the zero is another one than zero.
proof fn lemma_scalar_bytes(c: char)
    requires
        c != '\0',
    ensures
        vstd::utf8::encode_scalar(c as u32).len() > 0,
        forall|i: int|
            0 <= i < vstd::utf8::encode_scalar(c as u32).len() ==> (#[trigger] vstd::utf8::encode_scalar(
                c as u32,
            )[i]) != 0,
{
    let s = c as u32;
    vstd::utf8::char_is_scalar(c);
    assert(s != 0);
    lemma_bytes_of(s);
}

proof fn lemma_bytes_of(s: u32)
    requires
        s != 0,
        s <= 0x10ffff,
    ensures
        s <= 0x7f ==> vstd::utf8::leading_byte_width_1(s) != 0,
        vstd::utf8::leading_byte_width_2(s) != 0,
        vstd::utf8::leading_byte_width_3(s) != 0,
        vstd::utf8::leading_byte_width_4(s) != 0,
        vstd::utf8::last_continuation_byte(s) != 0,
        vstd::utf8::second_last_continuation_byte(s) != 0,
        vstd::utf8::third_last_continuation_byte(s) != 0,
{
    assert(s <= 0x7f && s != 0 ==> vstd::utf8::leading_byte_width_1(s) != 0) by (bit_vector);
    assert(vstd::utf8::leading_byte_width_2(s) != 0) by (bit_vector);
    assert(vstd::utf8::leading_byte_width_3(s) != 0) by (bit_vector);
    assert(vstd::utf8::leading_byte_width_4(s) != 0) by (bit_vector);
    assert(vstd::utf8::last_continuation_byte(s) != 0) by (bit_vector);
    assert(vstd::utf8::second_last_continuation_byte(s) != 0) by (bit_vector);
    assert(vstd::utf8::third_last_continuation_byte(s) != 0) by (bit_vector);
}

/// The bytes of a text without zeros hold none.
proof fn lemma_text_bytes(t: Text)
    requires
        !t.contains('\0'),
    ensures
        !encode_utf8(t).contains(0u8),
        t.len() > 0 ==> encode_utf8(t).len() > 0,
    decreases t.len(),
{
    if t.len() > 0 {
        let rest = t.drop_first();
        assert(t[0] != '\0') by {
            assert(t.contains(t[0]));
        }
        assert(!rest.contains('\0')) by {
            if rest.contains('\0') {
                let i = choose|i: int| 0 <= i < rest.len() && rest[i] == '\0';
                assert(t[i + 1] == '\0');
            }
        }
        lemma_text_bytes(rest);
        lemma_scalar_bytes(t[0]);
        let a = vstd::utf8::encode_scalar(t[0] as u32);
        let b = encode_utf8(rest);
        assert(encode_utf8(t) == a + b);
        if (a + b).contains(0u8) {
            let i = choose|i: int| 0 <= i < (a + b).len() && (a + b)[i] == 0u8;
            if i >= a.len() {
                assert(b[i - a.len()] == 0u8);
            }
        }
    }
}

/// Bytes without zeros go to the last part.
proof fn lemma_parts_append(buf: Seq<u8>, more: Seq<u8>)
    requires
        !more.contains(0u8),
    ensures
        parts(buf + more) == parts(buf).update(parts(buf).len() - 1, parts(buf).last() + more),
    decreases more.len(),
{
    lemma_parts_some(buf);
    let ps = parts(buf);
    if more.len() == 0 {
        assert(buf + more =~= buf);
        assert(ps.last() + more =~= ps.last());
        assert(ps.update(ps.len() - 1, ps.last()) =~= ps);
    } else {
        let front = more.drop_last();
        assert(!front.contains(0u8)) by {
            if front.contains(0u8) {
                let i = choose|i: int| 0 <= i < front.len() && front[i] == 0u8;
                assert(more[i] == 0u8);
            }
        }
        lemma_parts_append(buf, front);
        assert((buf + more).drop_last() =~= buf + front);
        assert((buf + more).last() == more.last());
        assert(more.last() != 0u8) by {
            assert(more.contains(more.last()));
        }
        let before = ps.update(ps.len() - 1, ps.last() + front);
        assert((ps.last() + front).push(more.last()) =~= ps.last() + more);
        assert(before.update(before.len() - 1, ps.last() + more) =~= ps.update(
            ps.len() - 1,
            ps.last() + more,
        ));
    }
}

/// The bytes of arguments.
pub open spec fn encoded(args: Seq<Text>) -> Seq<Seq<u8>> {
    args.map_values(|a: Text| encode_utf8(a))
}

/// Sent arguments fall apart into the bytes of each.
proof fn lemma_parts_framed(args: Seq<Text>)
    requires
        args.len() > 0,
        forall|i: int| 0 <= i < args.len() ==> sendable(#[trigger] args[i]),
    ensures
        parts(framed(args)) == encoded(args),
    decreases args.len(),
{
    assert(sendable(args[args.len() - 1]));
    lemma_text_bytes(args.last());
    let b = encode_utf8(args.last());
    if args.len() == 1 {
        let none = Seq::<u8>::empty();
        lemma_parts_append(none, b);
        assert(none + b =~= b);
        assert(parts(none) =~= seq![none]);
        assert(parts(b) =~= seq![b]);
        assert(encoded(args) =~= seq![b]);
    } else {
        let front = args.drop_last();
        assert forall|i: int| 0 <= i < front.len() implies sendable(#[trigger] front[i]) by {
            assert(front[i] == args[i]);
        }
        lemma_parts_framed(front);
        let head = framed(front).push(0u8);
        assert(head.drop_last() =~= framed(front));
        assert(parts(head) == encoded(front).push(Seq::empty()));
        lemma_parts_append(head, b);
        assert(Seq::<u8>::empty() + b =~= b);
        assert(parts(framed(args)) =~= encoded(front).push(b));
        assert(encoded(args) =~= encoded(front).push(b));
    }
}

/// What the client sends, the window manager reads as the same arguments, but for those
/// that are empty or hold a zero.
pub proof fn law_sent_arguments(args: Seq<Text>)
    requires
        args.len() > 0,
        forall|i: int| 0 <= i < args.len() ==> sendable(#[trigger] args[i]),
    ensures
        arguments(framed(args)) == args,
{
    lemma_parts_framed(args);
    lemma_texts(args, args.len() as int);
    assert(args.take(args.len() as int) =~= args);
}

proof fn lemma_texts(args: Seq<Text>, n: int)
    requires
        0 <= n <= args.len(),
        forall|i: int| 0 <= i < args.len() ==> sendable(#[trigger] args[i]),
    ensures
        texts(encoded(args.take(n))) == args.take(n),
    decreases n,
{
    if n > 0 {
        lemma_texts(args, n - 1);
        let some = encoded(args.take(n));
        assert(some.drop_last() =~= encoded(args.take(n - 1)));
        let t = args[n - 1];
        assert(sendable(t));
        lemma_text_bytes(t);
        assert(some.last() == encode_utf8(t));
        vstd::utf8::encode_utf8_valid_utf8(t);
        vstd::utf8::encode_utf8_decode_utf8(t);
        assert(args.take(n) =~= args.take(n - 1).push(t));
    } else {
        assert(args.take(0) =~= Seq::<Text>::empty());
        assert(encoded(args.take(0)) =~= Seq::<Seq<u8>>::empty());
    }
}

} // verus!
