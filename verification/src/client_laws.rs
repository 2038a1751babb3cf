//! What the client asks for, what it makes of a reply, and which files are meant.

use vstd::prelude::*;
use crate::path::{below, extension_of, label_of, last_dot, law_name_below, named_image, named_svg};
use crate::text::{lower, trim_end, Class, Text};
use crate::wire::{call_of, client_step, full_lines, script_place, socket_place, verdict_of, Call, ClientStep, Verdict};

verus! {

proof fn lemma_words()
    ensures
        "--idle"@.len() == 6 && "--idle"@[2] == 'i',
        "-i"@.len() == 2 && "-i"@[1] == 'i',
        "menu"@.len() == 4 && "menu"@[0] == 'm',
        "help"@.len() == 4 && "help"@[0] == 'h',
        "-h"@.len() == 2 && "-h"@[1] == 'h',
        "--help"@.len() == 6 && "--help"@[2] == 'h',
{
    reveal_strlit("--idle");
    reveal_strlit("-i");
    reveal_strlit("menu");
    reveal_strlit("help");
    reveal_strlit("-h");
    reveal_strlit("--help");
}

// --- calls ------------------------------------------------------------------------------

/// Who asks for what happens, by either word, is sent what happens, whatever follows.
pub proof fn law_listens(c: Call, rest: Seq<Text>)
    ensures
        call_of(c, seq!["--idle"@] + rest) ==> c is Idle,
        call_of(c, seq!["-i"@] + rest) ==> c is Idle,
        client_step(seq!["--idle"@] + rest) == ClientStep::Idle,
        client_step(seq!["-i"@] + rest) == ClientStep::Idle,
{
    lemma_words();
    assert((seq!["--idle"@] + rest)[0] == "--idle"@);
    assert((seq!["-i"@] + rest)[0] == "-i"@);
}

/// Who asks for a menu is offered the lines that follow.
pub proof fn law_offers(c: Call, lines: Seq<Text>)
    requires
        call_of(c, seq!["menu"@] + lines),
    ensures
        c matches Call::Menu(items) && items.deep_view() == lines,
        client_step(seq!["menu"@] + lines) == ClientStep::Menu,
{
    lemma_words();
    let args = seq!["menu"@] + lines;
    assert(args[0] == "menu"@);
    assert(args.skip(1) =~= lines);
}

/// Anything else is a command, with all of its words.
pub proof fn law_commands(c: Call, args: Seq<Text>)
    requires
        args.len() > 0,
        args[0] != "--idle"@,
        args[0] != "-i"@,
        args[0] != "menu"@,
        call_of(c, args),
    ensures
        c matches Call::Command(a) && a.deep_view() == args,
        args[0] != "help"@ && args[0] != "-h"@ && args[0] != "--help"@ ==> client_step(args) == ClientStep::Send,
        args[0] == "help"@ || args[0] == "-h"@ || args[0] == "--help"@ ==> client_step(args) == ClientStep::Help,
{
}

/// Without words there is nothing to ask for.
pub proof fn law_no_words(c: Call)
    requires
        call_of(c, Seq::empty()),
    ensures
        c matches Call::Command(a) && a.deep_view().len() == 0,
        client_step(Seq::empty()) == ClientStep::Usage,
{
}

// --- lines and replies ------------------------------------------------------------------

/// The lines that are offered are those that hold a character, in the order they came in.
pub proof fn law_full_lines(before: Seq<Text>, line: Text, behind: Seq<Text>)
    ensures
        full_lines(before + behind) == full_lines(before) + full_lines(behind),
        line.len() > 0 ==> full_lines(seq![line]) == seq![line],
        line.len() == 0 ==> full_lines(seq![line]).len() == 0,
        full_lines(Seq::empty()).len() == 0,
    decreases behind.len(),
{
    assert(seq![line].drop_last() =~= Seq::<Text>::empty());
    assert(full_lines(seq![line].drop_last()) =~= Seq::<Text>::empty());
    assert(full_lines(seq![line]) =~= if line.len() == 0 {
        Seq::<Text>::empty()
    } else {
        seq![line]
    });
    if behind.len() == 0 {
        assert(before + behind =~= before);
        assert(full_lines(before) + full_lines(behind) =~= full_lines(before));
    } else {
        law_full_lines(before, line, behind.drop_last());
        assert((before + behind).drop_last() =~= before + behind.drop_last());
        assert((before + behind).last() == behind.last());
        assert(full_lines(before + behind) =~= full_lines(before) + full_lines(behind));
    }
}

proof fn lemma_trim_end(s: Text, k: Class)
    ensures
        trim_end(s, k).len() <= s.len(),
        trim_end(s, k) == s.take(trim_end(s, k).len() as int),
        trim_end(s, k).len() > 0 ==> !k.has(trim_end(s, k).last()),
        forall|i: int| trim_end(s, k).len() <= i < s.len() ==> k.has(#[trigger] s[i]),
    decreases s.len(),
{
    if s.len() > 0 && k.has(s.last()) {
        lemma_trim_end(s.drop_last(), k);
        let t = trim_end(s, k);
        assert(s.drop_last().take(t.len() as int) =~= s.take(t.len() as int));
        assert forall|i: int| t.len() <= i < s.len() implies k.has(#[trigger] s[i]) by {
            if i < s.len() - 1 {
                assert(s.drop_last()[i] == s[i]);
            }
        }
    } else {
        assert(s.take(s.len() as int) =~= s);
    }
}

/// A failure is complained of in its own words, without the line end; a pick that is empty
/// is a failure of which nothing is said; every other reply is passed on.
pub proof fn law_reply(v: Verdict, menu: bool, reply: Text)
    requires
        verdict_of(v, menu, reply),
    ensures
        menu ==> (v is Fail <==> forall|i: int| 0 <= i < reply.len() ==> #[trigger] reply[i] == '\n'),
        menu ==> v is Fail || v is Print,
        !menu ==> (v is Complain <==> reply.len() >= 6 && reply.take(6) == "error:"@),
        !menu ==> v is Complain || v is Print,
        v is Complain ==> ({
            let said = v->Complain_0@;
            &&& 4 <= said.len() <= reply.len() + 4
            &&& said.take(4) == "sc: "@
            &&& said.skip(4) == reply.take(said.len() - 4)
            &&& forall|i: int| said.len() - 4 <= i < reply.len() ==> crate::text::is_white(#[trigger] reply[i])
            &&& said.len() > 10 ==> !crate::text::is_white(said.last())
        }),
{
    reveal_strlit("error:");
    reveal_strlit("sc: error:");
    reveal_strlit("sc: ");
    if v is Complain {
        let rest = reply.skip(6);
        lemma_trim_end(rest, Class::White);
        let kept = trim_end(rest, Class::White);
        let said = v->Complain_0@;
        assert(said == "sc: error:"@ + kept);
        assert(reply.take(6) =~= "error:"@);
        assert(said.take(4) =~= "sc: "@);
        assert(said.skip(4) =~= reply.take(said.len() - 4)) by {
            assert forall|i: int| 0 <= i < said.len() - 4 implies said.skip(4)[i] == reply.take(said.len() - 4)[i] by {
                if i < 6 {
                    assert(reply.take(6)[i] == "error:"@[i]);
                } else {
                    assert(kept[i - 6] == rest.take(kept.len() as int)[i - 6]);
                }
            }
        }
        assert forall|i: int| said.len() - 4 <= i < reply.len() implies crate::text::is_white(#[trigger] reply[i]) by {
            assert(rest[i - 6] == reply[i]);
            assert(Class::White.has(rest[i - 6]));
        }
        if said.len() > 10 {
            assert(said.last() == kept.last());
            assert(!Class::White.has(kept.last()));
        }
    }
}

// --- places -----------------------------------------------------------------------------

/// A socket that is named is the one; otherwise each display has its own, below the
/// directory of the session.
pub proof fn law_socket(p: Text, dir: Text, display: Text)
    requires
        dir.len() > 0,
        dir.last() != '/',
    ensures
        socket_place(Some(p), Some(dir), Some(display)) == p,
        socket_place(None, Some(dir), Some(display)) == dir + "/sfwm-"@ + display + ".sock"@,
        socket_place(None, None, Some(display)) == "/tmp/sfwm-"@ + display + ".sock"@,
        socket_place(None, Some(dir), None) == dir + "/sfwm-wayland-0.sock"@,
{
    reveal_strlit("sfwm-");
    reveal_strlit("/sfwm-");
    reveal_strlit("/tmp");
    reveal_strlit("/tmp/sfwm-");
    reveal_strlit(".sock");
    reveal_strlit("wayland-0");
    reveal_strlit("/sfwm-wayland-0.sock");
    assert(("sfwm-"@ + display + ".sock"@)[0] == 's');
    assert(("sfwm-"@ + "wayland-0"@ + ".sock"@)[0] == 's');
    assert(dir.push('/') + ("sfwm-"@ + display + ".sock"@) =~= dir + "/sfwm-"@ + display + ".sock"@);
    assert("/tmp"@.push('/') + ("sfwm-"@ + display + ".sock"@) =~= "/tmp/sfwm-"@ + display + ".sock"@);
    assert(dir.push('/') + ("sfwm-"@ + "wayland-0"@ + ".sock"@) =~= dir + "/sfwm-wayland-0.sock"@);
}

/// A start script that is named is the one; otherwise it stands below the configuration,
/// or below the home.
pub proof fn law_script(p: Text, config: Text, home: Text)
    requires
        config.len() > 0,
        config.last() != '/',
        home.len() > 0,
        home.last() != '/',
    ensures
        script_place(Some(p), Some(config), Some(home)) == p,
        script_place(None, Some(config), Some(home)) == config + "/sommerflusswm/autostart"@,
        script_place(None, None, Some(home)) == home + "/.config/sommerflusswm/autostart"@,
{
    reveal_strlit("sommerflusswm");
    reveal_strlit("autostart");
    reveal_strlit(".config");
    reveal_strlit("/sommerflusswm/autostart");
    reveal_strlit("/.config/sommerflusswm/autostart");
    let a = config.push('/') + "sommerflusswm"@;
    assert(a.last() == 'm');
    assert(below(config, "sommerflusswm"@) == a);
    assert(below(a, "autostart"@) == a.push('/') + "autostart"@);
    assert(a.push('/') + "autostart"@ =~= config + "/sommerflusswm/autostart"@);
    let c = home.push('/') + ".config"@;
    assert(c.last() == 'g');
    let b = c.push('/') + "sommerflusswm"@;
    assert(b.last() == 'm');
    assert(below(home, ".config"@) == c);
    assert(below(c, "sommerflusswm"@) == b);
    assert(below(b, "autostart"@) == b.push('/') + "autostart"@);
    assert(b.push('/') + "autostart"@ =~= home + "/.config/sommerflusswm/autostart"@);
}

proof fn lemma_last_dot(stem: Text, ext: Text)
    requires
        !ext.contains('.'),
    ensures
        last_dot(stem.push('.') + ext) == stem.len(),
    decreases ext.len(),
{
    let name = stem.push('.') + ext;
    if ext.len() == 0 {
        assert(name =~= stem.push('.'));
    } else {
        assert(name.last() == ext.last());
        assert(ext[ext.len() - 1] != '.');
        assert(name.drop_last() =~= stem.push('.') + ext.drop_last());
        assert forall|i: int| 0 <= i < ext.drop_last().len() implies ext.drop_last()[i] != '.' by {
            assert(ext.drop_last()[i] == ext[i]);
        }
        lemma_last_dot(stem, ext.drop_last());
    }
}

/// What stands behind the last dot of a name is its extension, wherever the file is; by it
/// alone is a file an image, in either case of letters. A file is shown by its name.
pub proof fn law_extension(dir: Text, stem: Text, ext: Text)
    requires
        stem.len() > 0,
        !stem.contains('/'),
        !ext.contains('/'),
        !ext.contains('.'),
        stem.push('.') + ext != ".."@,
    ensures
        ({
            let path = below(dir, stem.push('.') + ext);
            &&& extension_of(path) == Some(ext)
            &&& label_of(path) == stem.push('.') + ext
            &&& named_svg(path) <==> lower(ext) == "svg"@
            &&& named_image(path) <==> lower(ext) == "png"@ || lower(ext) == "jpg"@ || lower(ext) == "jpeg"@ || lower(ext)
                == "webp"@ || lower(ext) == "bmp"@ || lower(ext) == "gif"@
        }),
{
    let name = stem.push('.') + ext;
    reveal_strlit(".");
    assert(name.len() >= 2);
    assert(name != "."@);
    assert(!name.contains('/')) by {
        if name.contains('/') {
            let i = choose|i: int| 0 <= i < name.len() && name[i] == '/';
            if i < stem.len() {
                assert(stem[i] == '/');
            } else {
                assert(ext[i - stem.len() - 1] == '/');
            }
        }
    }
    law_name_below(dir, name);
    lemma_last_dot(stem, ext);
    assert(name.skip(stem.len() as int + 1) =~= ext);
}

} // verus!
