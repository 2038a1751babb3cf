//! What is said to other programs, and what they say.

use vstd::prelude::*;
use crate::bar::ExecMode;
use crate::config::{Config, Kept, Prefs, Saved};
use crate::number::{show, u64_text};
use crate::path::{extension, extension_of, has_image_ext, named_image};
use crate::order::{key_order, order_by_keys};
use crate::reply::two;
use crate::text::{
    fields, lines, lower, lowered, nonempty, same, split_lines, split_nonempty, strip_end, trim,
    trim_end, trimmed, Class, Text,
};
use crate::tray_icon::{add_once, with_text};
use crate::wire::{read_lossy, text_of};

verus! {

// --- commands of the bar ------------------------------------------------------------------

/// What a module of the bar shows of what its command said.
pub fn executor_text(out: &Vec<u8>) -> (r: String)
    ensures
        r@ == trim_end(text_of(out@), Class::White),
{
    strip_end(read_lossy(out).as_str(), Class::White)
}

/// How many seconds pass before a command is run again; none where it is not.
pub fn pause_of(mode: ExecMode) -> (r: Option<u64>)
    ensures
        r == match mode {
            ExecMode::Interval(secs) => if secs == 0 {
                None
            } else {
                Some(secs)
            },
            ExecMode::Continuous => None,
        },
{
    match mode {
        ExecMode::Interval(secs) => if secs == 0 {
            None
        } else {
            Some(secs)
        },
        ExecMode::Continuous => None,
    }
}

// --- applications -------------------------------------------------------------------------

/// The directories of applications below those for data.
pub open spec fn app_places(dirs: Seq<Text>) -> Seq<Text> {
    dirs.map_values(|d: Text| d + "/applications"@)
}

/// The directories in which applications are described, those that count first in front:
/// that of the user, and those of the system.
pub open spec fn app_dirs_of(
    home: Option<Text>,
    data_home: Option<Text>,
    data_dirs: Option<Text>,
) -> Seq<Text> {
    (match home {
        Some(h) => seq![
            (match data_home {
                Some(d) => d,
                None => h + "/.local/share"@,
            }) + "/applications"@,
        ],
        None => Seq::empty(),
    }) + app_places(
        nonempty(
            fields(
                match data_dirs {
                    Some(d) => d,
                    None => "/usr/local/share:/usr/share"@,
                },
                Class::Is(':'),
            ),
        ),
    )
}

/// Lists the directories in which applications are described.
pub fn app_dirs(home: Option<String>, data_home: Option<String>, data_dirs: Option<String>) -> (r: Vec<
    String,
>)
    ensures
        r.deep_view() == app_dirs_of(
            home.deep_view(),
            data_home.deep_view(),
            data_dirs.deep_view(),
        ),
{
    let ghost whole = app_dirs_of(home.deep_view(), data_home.deep_view(), data_dirs.deep_view());
    let mut r: Vec<String> = Vec::new();
    if let Some(h) = &home {
        let base: String = match data_home {
            Some(d) => d,
            None => two(h.as_str(), "/.local/share"),
        };
        r.push(two(base.as_str(), "/applications"));
    }
    let ghost own = r.deep_view();
    let list: String = match data_dirs {
        Some(d) => d,
        None => "/usr/local/share:/usr/share".to_owned(),
    };
    let dirs = split_nonempty(list.as_str(), Class::Is(':'));
    let ghost all = dirs.deep_view();
    let mut i: usize = 0;
    assert(r.deep_view() =~= own + app_places(all.take(0)));
    while i < dirs.len()
        invariant
            i <= dirs@.len(),
            all == dirs.deep_view(),
            r.deep_view() == own + app_places(all.take(i as int)),
        decreases dirs@.len() - i,
    {
        let ghost before = r.deep_view();
        let p = two(dirs[i].as_str(), "/applications");
        r.push(p);
        assert(r.deep_view() =~= before.push(p@));
        assert(all[i as int] == dirs@[i as int]@);
        i += 1;
        assert(r.deep_view() =~= own + app_places(all.take(i as int)));
    }
    assert(all.take(i as int) =~= all);
    assert(r.deep_view() =~= whole);
    r
}

/// Tells whether a file describes an application, by its name.
pub fn is_desktop_file(path: &str) -> (r: bool)
    ensures
        r == (extension_of(path@) == Some("desktop"@)),
{
    match extension(path) {
        Some(e) => same(e.as_str(), "desktop"),
        None => false,
    }
}

// --- the client ---------------------------------------------------------------------------

/// What is said of a client that failed: what it said itself, where it said something.
pub open spec fn client_complaint(out: Seq<u8>, complaint: Seq<u8>, status: Text) -> Text {
    let said = trimmed(text_of(out));
    let wrong = trimmed(text_of(complaint));
    if said.len() > 0 {
        said
    } else if wrong.len() > 0 {
        wrong
    } else {
        "sc exited with status "@ + status
    }
}

/// Tells what is said of a client that failed.
pub fn sc_failure(out: &Vec<u8>, complaint: &Vec<u8>, status: &str) -> (r: String)
    ensures
        r@ == client_complaint(out@, complaint@, status@),
{
    let said = trim(read_lossy(out).as_str());
    if !said.as_str().is_empty() {
        return said;
    }
    let wrong = trim(read_lossy(complaint).as_str());
    if !wrong.as_str().is_empty() {
        return wrong;
    }
    two("sc exited with status ", status)
}

/// How many lines hold something.
pub open spec fn full_count(ls: Seq<Text>) -> nat
    decreases ls.len(),
{
    if ls.len() == 0 {
        0
    } else if trimmed(ls.last()).len() > 0 {
        full_count(ls.drop_last()) + 1
    } else {
        full_count(ls.drop_last())
    }
}

/// The monitors that can be chosen: all of them, and each of `n` by its number.
pub open spec fn choices(n: nat) -> Seq<Text> {
    seq!["all"@] + Seq::new(n, |i: int| show(i as nat))
}

/// The monitors that can be chosen, by what the list of monitors says; the first one where
/// there is no list.
pub open spec fn monitor_choices(said: Option<Seq<u8>>) -> Seq<Text> {
    let n = match said {
        Some(s) => full_count(lines(text_of(s))),
        None => 0,
    };
    if n == 0 {
        choices(1)
    } else {
        choices(n)
    }
}

/// Tells the monitors that can be chosen.
pub fn query_monitors(said: Option<Vec<u8>>) -> (r: Vec<String>)
    ensures
        r.deep_view() == monitor_choices(
            match said {
                Some(s) => Some(s@),
                None => None,
            },
        ),
{
    let mut count: usize = 0;
    if let Some(s) = &said {
        let ls = split_lines(read_lossy(s).as_str());
        let ghost all = ls.deep_view();
        let mut i: usize = 0;
        assert(all.take(0) =~= Seq::<Text>::empty());
        while i < ls.len()
            invariant
                i <= ls@.len() == ls.len(),
                all == ls.deep_view(),
                count == full_count(all.take(i as int)),
                count <= i,
            decreases ls@.len() - i,
        {
            assert(all.take(i + 1).drop_last() =~= all.take(i as int));
            assert(all.take(i + 1).last() == ls@[i as int]@);
            if !trim(ls[i].as_str()).as_str().is_empty() {
                count += 1;
            }
            i += 1;
        }
        assert(all.take(i as int) =~= all);
    }
    if count == 0 {
        count = 1;
    }
    let mut r: Vec<String> = Vec::new();
    r.push("all".to_owned());
    let mut k: usize = 0;
    assert(r.deep_view() =~= choices(0));
    while k < count
        invariant
            k <= count,
            r.deep_view() == choices(k as nat),
        decreases count - k,
    {
        let ghost before = r.deep_view();
        let number = u64_text(k as u64);
        r.push(number);
        assert(r.deep_view() =~= before.push(number@));
        k += 1;
        assert(r.deep_view() =~= choices(k as nat));
    }
    r
}

/// The arguments that give a monitor its wallpaper.
pub open spec fn wallpaper_call(monitor: Text, k: Kept) -> Seq<Text> {
    match k {
        Kept::Image { mode, path } => seq![
            "wallpaper"@,
            path,
            "mode="@ + mode,
            "monitor="@ + monitor,
        ],
        Kept::Color { color } => seq!["wallpaper"@, "color"@, color, "monitor="@ + monitor],
    }
}

/// Makes the arguments that give a monitor its wallpaper.
pub fn make_call(monitor: &str, k: &Saved) -> (r: Vec<String>)
    ensures
        r.deep_view() == wallpaper_call(monitor@, k.deep_view()),
{
    let mut r: Vec<String> = Vec::new();
    r.push("wallpaper".to_owned());
    match k {
        Saved::Image { mode, path } => {
            r.push(path.clone());
            r.push(two("mode=", mode.as_str()));
        },
        Saved::Color { color } => {
            r.push("color".to_owned());
            r.push(color.clone());
        },
    }
    r.push(two("monitor=", monitor));
    assert(r.deep_view() =~= wallpaper_call(monitor@, k.deep_view()));
    r
}

/// Makes the arguments that take a monitor's wallpaper away.
pub fn clear_call(monitor: &str) -> (r: Vec<String>)
    ensures
        r.deep_view() == seq!["wallpaper"@, "off"@, "monitor="@ + monitor@],
{
    let mut r: Vec<String> = Vec::new();
    r.push("wallpaper".to_owned());
    r.push("off".to_owned());
    r.push(two("monitor=", monitor));
    assert(r.deep_view() =~= seq!["wallpaper"@, "off"@, "monitor="@ + monitor@]);
    r
}

/// The arguments that set the cursor.
pub open spec fn cursor_args(theme: Text, size: u32) -> Seq<Text> {
    seq!["cursor_theme"@, theme, show(size as nat)]
}

/// Makes the arguments that set the cursor.
pub fn cursor_call(theme: &str, size: u32) -> (r: Vec<String>)
    ensures
        r.deep_view() == cursor_args(theme@, size),
{
    let mut r: Vec<String> = Vec::new();
    r.push("cursor_theme".to_owned());
    r.push(theme.to_owned());
    r.push(u64_text(size as u64));
    assert(r.deep_view() =~= cursor_args(theme@, size));
    r
}

/// What is done to restore the chosen look: what it is called where it fails, and the
/// arguments.
pub type Restoring = (Text, Seq<Text>);

/// The wallpapers of the monitors that are, or are not, all of them.
pub open spec fn restored(saved: Seq<(Text, Kept)>, all: bool) -> Seq<Restoring>
    decreases saved.len(),
{
    if saved.len() == 0 {
        Seq::empty()
    } else {
        let front = restored(saved.drop_last(), all);
        let e = saved.last();
        if (e.0 == "all"@) == all {
            front.push(("restoring monitor "@ + e.0, wallpaper_call(e.0, e.1)))
        } else {
            front
        }
    }
}

/// All that is done to restore the chosen look: the wallpaper for all monitors first, so
/// that those of single ones go over it.
pub open spec fn restoring(p: Prefs) -> Seq<Restoring> {
    restored(p.saved, true) + restored(p.saved, false) + (match p.cursor_theme {
        Some(t) => seq![
            (
                "restoring cursor theme"@,
                cursor_args(
                    t,
                    match p.cursor_size {
                        Some(n) => n,
                        None => 24u32,
                    },
                ),
            ),
        ],
        None => Seq::empty(),
    })
}

/// Adds the wallpapers of the monitors that are, or are not, all of them.
fn add_restored(out: &mut Vec<(String, Vec<String>)>, saved: &Vec<(String, Saved)>, all: bool)
    ensures
        final(out).deep_view() == old(out).deep_view() + restored(saved.deep_view(), all),
{
    let ghost start = out.deep_view();
    let ghost es = saved.deep_view();
    let mut i: usize = 0;
    assert(es.take(0) =~= Seq::<(Text, Kept)>::empty());
    assert(out.deep_view() =~= start + restored(es.take(0), all));
    while i < saved.len()
        invariant
            i <= saved@.len(),
            es == saved.deep_view(),
            out.deep_view() == start + restored(es.take(i as int), all),
        decreases saved@.len() - i,
    {
        let ghost before = out.deep_view();
        assert(es.take(i + 1).drop_last() =~= es.take(i as int));
        assert(es.take(i + 1).last() == saved@[i as int].deep_view());
        let e = &saved[i];
        if same(e.0.as_str(), "all") == all {
            let call = (two("restoring monitor ", e.0.as_str()), make_call(e.0.as_str(), &e.1));
            let ghost c = call.deep_view();
            out.push(call);
            assert(out.deep_view() =~= before.push(c));
        }
        i += 1;
        assert(out.deep_view() =~= start + restored(es.take(i as int), all));
    }
    assert(es.take(i as int) =~= es);
}

/// Tells what is done to restore the chosen look.
pub fn restore_calls(cfg: &Config) -> (r: Vec<(String, Vec<String>)>)
    ensures
        r.deep_view() == restoring(cfg@),
{
    let mut r: Vec<(String, Vec<String>)> = Vec::new();
    assert(r.deep_view() =~= Seq::<Restoring>::empty());
    add_restored(&mut r, &cfg.saved, true);
    add_restored(&mut r, &cfg.saved, false);
    let ghost before = r.deep_view();
    assert(before =~= restored(cfg@.saved, true) + restored(cfg@.saved, false));
    if let Some(t) = &cfg.cursor_theme {
        let size: u32 = match cfg.cursor_size {
            Some(n) => n,
            None => 24,
        };
        let call = ("restoring cursor theme".to_owned(), cursor_call(t.as_str(), size));
        let ghost c = call.deep_view();
        r.push(call);
        assert(r.deep_view() =~= before.push(c));
    }
    assert(r.deep_view() =~= restoring(cfg@));
    r
}

/// The wallpaper for all monitors is restored before those of single ones.
pub proof fn law_all_first(saved: Seq<(Text, Kept)>)
    ensures
        forall|i: int|
            0 <= i < restored(saved, true).len() ==> (#[trigger] restored(saved, true)[i]).0
                == "restoring monitor "@ + "all"@,
        restored(saved, true).len() + restored(saved, false).len() == saved.len(),
    decreases saved.len(),
{
    if saved.len() > 0 {
        law_all_first(saved.drop_last());
    }
}

// --- files that can be chosen -------------------------------------------------------------

/// What files go by: their names in lower case.
pub open spec fn name_keys(names: Seq<Text>) -> Seq<(Text, Text)> {
    names.map_values(|n: Text| (lower(n), Seq::<char>::empty()))
}

/// The numbers of the names that are of images, among some numbers.
pub open spec fn image_numbers(names: Seq<Text>, order: Seq<usize>) -> Seq<usize>
    decreases order.len(),
{
    if order.len() == 0 {
        order
    } else {
        let front = image_numbers(names, order.drop_last());
        if named_image(names[order.last() as int]) {
            front.push(order.last())
        } else {
            front
        }
    }
}

/// Orders names by their lower case.
fn order_names(names: &Vec<String>) -> (r: Vec<usize>)
    ensures
        r@ == key_order(name_keys(names.deep_view()), names@.len()),
        forall|k: int| 0 <= k < r@.len() ==> #[trigger] r@[k] < names@.len(),
{
    let ghost all = names.deep_view();
    let mut keys: Vec<(String, String)> = Vec::new();
    let mut i: usize = 0;
    assert(keys.deep_view() =~= name_keys(all).take(0));
    while i < names.len()
        invariant
            i <= names@.len() == all.len(),
            all == names.deep_view(),
            keys.deep_view() == name_keys(all).take(i as int),
        decreases names@.len() - i,
    {
        let ghost before = keys.deep_view();
        assert(all[i as int] == names@[i as int]@);
        let none = String::new();
        assert(none@ =~= Seq::<char>::empty());
        let key = (lowered(names[i].as_str()), none);
        assert(name_keys(all)[i as int] == key.deep_view());
        keys.push(key);
        assert(keys.deep_view() =~= before.push(key.deep_view()));
        i += 1;
        assert(keys.deep_view() =~= name_keys(all).take(i as int));
    }
    assert(name_keys(all).take(i as int) =~= name_keys(all));
    assert(keys@.len() == keys.deep_view().len());
    order_by_keys(&keys)
}

/// The numbers of the files that are images, by their names, in the order of the names.
pub fn list_images(names: &Vec<String>) -> (r: Vec<usize>)
    ensures
        r@ == image_numbers(
            names.deep_view(),
            key_order(name_keys(names.deep_view()), names@.len()),
        ),
{
    let order = order_names(names);
    let ghost all = names.deep_view();
    let mut r: Vec<usize> = Vec::new();
    let mut i: usize = 0;
    assert(order@.take(0) =~= Seq::<usize>::empty());
    while i < order.len()
        invariant
            i <= order@.len(),
            all == names.deep_view(),
            forall|k: int| 0 <= k < order@.len() ==> #[trigger] order@[k] < names@.len(),
            r@ == image_numbers(all, order@.take(i as int)),
        decreases order@.len() - i,
    {
        assert(order@.take(i + 1).drop_last() =~= order@.take(i as int));
        assert(order@.take(i + 1).last() == order@[i as int]);
        assert(all[order@[i as int] as int] == names@[order@[i as int] as int]@);
        if has_image_ext(names[order[i]].as_str()) {
            r.push(order[i]);
        }
        i += 1;
    }
    assert(order@.take(i as int) =~= order@);
    r
}

/// The themes of cursors among directories, each once, as they are found.
pub open spec fn cursor_names(dirs: Seq<(Text, bool)>) -> Seq<Text>
    decreases dirs.len(),
{
    if dirs.len() == 0 {
        Seq::empty()
    } else {
        let front = cursor_names(dirs.drop_last());
        if dirs.last().1 {
            with_text(front, dirs.last().0)
        } else {
            front
        }
    }
}

/// Texts in the order of their lower case.
pub open spec fn sorted_lower(names: Seq<Text>) -> Seq<Text> {
    key_order(name_keys(names), names.len()).map_values(|i: usize| names[i as int])
}

/// Finds the themes of cursors among directories, each of which has cursors or not.
pub fn find_cursor_themes(dirs: &Vec<(String, bool)>) -> (r: Vec<String>)
    ensures
        r.deep_view() == sorted_lower(cursor_names(dirs.deep_view())),
{
    let ghost all = dirs.deep_view();
    let mut names: Vec<String> = Vec::new();
    let mut i: usize = 0;
    assert(all.take(0) =~= Seq::<(Text, bool)>::empty());
    assert(names.deep_view() =~= Seq::<Text>::empty());
    while i < dirs.len()
        invariant
            i <= dirs@.len(),
            all == dirs.deep_view(),
            names.deep_view() == cursor_names(all.take(i as int)),
        decreases dirs@.len() - i,
    {
        assert(all.take(i + 1).drop_last() =~= all.take(i as int));
        assert(all.take(i + 1).last() == dirs@[i as int].deep_view());
        if dirs[i].1 {
            add_once(&mut names, dirs[i].0.clone());
        }
        i += 1;
    }
    assert(all.take(i as int) =~= all);
    let order = order_names(&names);
    let ghost ns = names.deep_view();
    let ghost target = sorted_lower(ns);
    assert(names@.len() == ns.len());
    let mut r: Vec<String> = Vec::new();
    let mut k: usize = 0;
    assert(r.deep_view() =~= target.take(0));
    while k < order.len()
        invariant
            k <= order@.len() == target.len(),
            ns == names.deep_view(),
            target == sorted_lower(ns),
            order@ == key_order(name_keys(ns), ns.len()),
            forall|j: int| 0 <= j < order@.len() ==> #[trigger] order@[j] < names@.len(),
            r.deep_view() == target.take(k as int),
        decreases order@.len() - k,
    {
        let ghost before = r.deep_view();
        assert(ns[order@[k as int] as int] == names@[order@[k as int] as int]@);
        assert(target[k as int] == ns[order@[k as int] as int]);
        r.push(names[order[k]].clone());
        assert(r.deep_view() =~= before.push(target[k as int]));
        k += 1;
        assert(r.deep_view() =~= target.take(k as int));
    }
    assert(target.take(k as int) =~= target);
    r
}

/// The places where the themes of cursors are.
pub fn cursor_places(home: &str) -> (r: Vec<String>)
    ensures
        r.deep_view() == seq![
            home@ + "/.icons"@,
            home@ + "/.local/share/icons"@,
            "/usr/share/icons"@,
        ],
{
    let mut r: Vec<String> = Vec::new();
    r.push(two(home, "/.icons"));
    r.push(two(home, "/.local/share/icons"));
    r.push("/usr/share/icons".to_owned());
    assert(r.deep_view() =~= seq![
        home@ + "/.icons"@,
        home@ + "/.local/share/icons"@,
        "/usr/share/icons"@,
    ]);
    r
}

} // verus!
