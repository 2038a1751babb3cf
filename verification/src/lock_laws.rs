//! A monitor that is locked to a tag shows that tag, whatever is done.

use vstd::prelude::*;
use crate::attr::set_monitor;
use crate::cmd_bar::{add_executor, bar, bar_add, bar_cleared, bar_create, bar_destroyed};
use crate::cmd_layout::load;
use crate::cmd_monitor::{
    add_monitor, cycle_monitor, focus_monitor, lock_tag, move_monitor, pad, raise_monitor, remove_monitor,
    rename_monitor, set_monitors, unlock_tag,
};
use crate::cmd_wallpaper::{set_backdrops, wallpaper, without_backdrops, Wall};
use crate::cmd_window::{adopt, focus_win, merge_tag, switch_to};
use crate::events::{pointer_entered, window_titled};
use crate::frame::WinId;
use crate::gestures::{gesturebind, gestureunbind};
use crate::ipc::{
    answered, begin, begin_asking, begin_keybind, begin_outer, dispatched, lemma_step_lighter, resumed,
    stack_weight, step, turn_weight, Ask, Coat, Step, Told, Turn,
};
use crate::keys::mousebind;
use crate::launching::{apps_opened, launcher_closed};
use crate::layout::RenderItem;
use crate::manage::{first_half, items_told, managed, ops_started};
use crate::monitor::{find_screen, selector_text, Desk, Screen, TagId};
use crate::outputs::{detect_monitors, follow_outputs};
use crate::route::{
    at_once, attr_command, desk_command, frame_command, list_command, other_command, window_command,
};
use crate::rules::{reapply_rules, rule, verdict};
use crate::start::fresh_world;
use crate::state::{Globals, Window, World};
use crate::text::Text;
use crate::wallpaper::Backdrop;

verus! {

/// Whether a monitor shows the tag that it is locked to, where it is locked.
pub open spec fn lock_kept(m: Screen) -> bool {
    m.locked_tag matches Some(tag) ==> m.tag == tag
}

/// Whether every monitor that is locked to a tag shows that tag.
pub open spec fn locks_kept(d: Desk) -> bool {
    forall|i: int| 0 <= i < d.list.len() ==> lock_kept(#[trigger] d.list[i])
}

// --- what is done to monitors ---------------------------------------------------------------

/// A monitor replaced by one that shows the tag that it is locked to.
proof fn lemma_screen(d: Desk, i: int, m: Screen)
    requires
        locks_kept(d),
        lock_kept(m),
        0 <= i < d.list.len(),
    ensures
        locks_kept(d.with_screen(i, m)),
{
}

/// A tag shown on the focused monitor.
proof fn lemma_show(d: Desk, tag: TagId)
    requires
        locks_kept(d),
    ensures
        locks_kept(d.show(tag)),
{
}

/// A monitor taken away.
proof fn lemma_without(d: Desk, i: int)
    requires
        locks_kept(d),
        0 <= i < d.list.len(),
    ensures
        locks_kept(d.without(i)),
{
    assert forall|k: int| 0 <= k < d.without(i).list.len() implies lock_kept(
        #[trigger] d.without(i).list[k],
    ) by {
        assert(d.without(i).list[k] == d.list[if k < i { k } else { k + 1 }]);
    }
}

/// A monitor that is found is in the list.
proof fn lemma_found(w: World, t: Text)
    ensures
        find_screen(w.desk.list, selector_text(t)) matches Some(i) ==> 0 <= i < w.desk.list.len(),
{
    if let crate::monitor::Selector::Name(n) = selector_text(t) {
        lemma_named(w.desk.list, n);
    }
}

proof fn lemma_named(list: Seq<Screen>, name: Text)
    ensures
        0 <= crate::monitor::named_place(list, name) <= list.len(),
    decreases list.len(),
{
    if list.len() > 0 {
        lemma_named(list.drop_first(), name);
    }
}

// --- commands -------------------------------------------------------------------------------

/// Commands that change one monitor.
proof fn lemma_one_monitor(w: World, a: Seq<Text>)
    requires
        locks_kept(w.desk),
    ensures
        locks_kept(raise_monitor(w, a).0.desk),
        locks_kept(lock_tag(w, a).0.desk),
        locks_kept(pad(w, a).0.desk),
        locks_kept(unlock_tag(w, a).0.desk),
        locks_kept(move_monitor(w, a).0.desk),
        locks_kept(rename_monitor(w, a).0.desk),
{
    assert forall|i: int, m: Screen| lock_kept(m) && 0 <= i < w.desk.list.len() implies locks_kept(
        #[trigger] w.desk.with_screen(i, m),
    ) by {
        lemma_screen(w.desk, i, m);
    }
    if a.len() > 0 {
        lemma_found(w, a[0]);
    }
    if a.len() > 1 {
        lemma_found(w, a[1]);
    }
}

/// Commands on monitors.
proof fn lemma_desk_command(w: World, name: Text, a: Seq<Text>)
    requires
        locks_kept(w.desk),
        desk_command(w, name, a) is Some,
    ensures
        locks_kept(desk_command(w, name, a)->Some_0.0.desk),
{
    reveal(desk_command);
    lemma_one_monitor(w, a);
    assert(locks_kept(set_monitors(w, a).0.desk));
    assert(locks_kept(add_monitor(w, a).0.desk));
    assert(locks_kept(focus_monitor(w, a).0.desk));
    assert(locks_kept(cycle_monitor(w, a).0.desk));
    assert(locks_kept(detect_monitors(w).0.desk));
    assert(locks_kept(remove_monitor(w, a).0.desk)) by {
        if a.len() > 0 {
            lemma_found(w, a[0]);
            if let Some(i) = find_screen(w.desk.list, selector_text(a[0])) {
                lemma_without(w.desk, i);
            }
        }
    }
}

/// Windows put on a tag change no monitor.
proof fn lemma_adopted(w: World, ids: Seq<WinId>, tag: TagId)
    ensures
        adopt(w, ids, tag).desk == w.desk,
    decreases ids.len(),
{
    if ids.len() > 0 {
        lemma_adopted(w, ids.drop_last(), tag);
    }
}

/// Commands on tags and windows.
proof fn lemma_window_command(w: World, name: Text, a: Seq<Text>)
    requires
        locks_kept(w.desk),
        window_command(w, name, a) is Some,
    ensures
        locks_kept(window_command(w, name, a)->Some_0.0.desk),
{
    reveal(window_command);
    assert forall|v: World, tag: TagId| locks_kept(v.desk) implies locks_kept(
        (#[trigger] switch_to(v, tag)).desk,
    ) by {
        lemma_show(v.desk, tag);
    }
    assert(merge_tag(w, a).0.desk == w.desk) by {
        assert forall|v: World, ids: Seq<WinId>, tag: TagId| (#[trigger] adopt(v, ids, tag)).desk
            == v.desk by {
            lemma_adopted(v, ids, tag);
        }
    }
}

/// Commands on frames change no monitor.
proof fn lemma_frame_command(w: World, name: Text, a: Seq<Text>)
    requires
        frame_command(w, name, a) is Some,
    ensures
        frame_command(w, name, a)->Some_0.0.desk == w.desk,
{
    reveal(frame_command);
    assert(load(w, a).0.desk == w.desk);
}

/// Commands on attributes.
proof fn lemma_attr_command(w: World, name: Text, a: Seq<Text>)
    requires
        locks_kept(w.desk),
        attr_command(w, name, a) is Some,
    ensures
        locks_kept(attr_command(w, name, a)->Some_0.0.desk),
{
    reveal(attr_command);
    assert forall|i: int, key: Text, v: Text| 0 <= i && (#[trigger] set_monitor(w, i, key, v)) is Ok implies locks_kept(
        set_monitor(w, i, key, v)->Ok_0.desk,
    ) by {
        assert forall|m: Screen| lock_kept(m) implies locks_kept(#[trigger] w.desk.with_screen(i, m)) by {
            lemma_screen(w.desk, i, m);
        }
        assert(lock_kept(w.desk.list[i]));
    }
}

/// Backgrounds change no monitor.
proof fn lemma_backdrops(w: World, mons: Seq<usize>, c: Backdrop)
    ensures
        set_backdrops(w, mons, c).desk == w.desk,
        without_backdrops(w, mons).desk == w.desk,
    decreases mons.len(),
{
    if mons.len() > 0 {
        lemma_backdrops(w, mons.drop_last(), c);
    }
}

/// `set` changes no monitor.
proof fn lemma_set(w: World, a: Seq<Text>)
    ensures
        crate::cmd_set::set(w, a).0.desk == w.desk,
{
}

/// `bar` changes no monitor.
proof fn lemma_bar(w: World, a: Seq<Text>)
    ensures
        bar(w, a).0.desk == w.desk,
{
    assert(bar_cleared(w).desk == w.desk);
    assert(bar_destroyed(w).desk == w.desk);
    let b = a.skip(1);
    assert(bar_create(w, b).0.desk == w.desk);
    assert(add_executor(w, b.skip(1)).0.desk == w.desk);
    assert(bar_add(w, b).0.desk == w.desk);
}

/// Commands on the rest change no monitor.
proof fn lemma_other_command(w: World, name: Text, a: Seq<Text>)
    requires
        other_command(w, name, a) is Some,
    ensures
        other_command(w, name, a)->Some_0.0.desk == w.desk,
{
    reveal(other_command);
    lemma_set(w, a);
    lemma_bar(w, a);
    assert(rule(w, a).0.desk == w.desk);
    assert(mousebind(w, a).0.desk == w.desk);
    assert(gesturebind(w, a).0.desk == w.desk);
    assert(gestureunbind(w, a).0.desk == w.desk);
}

/// A command that is carried out at once breaks no lock.
proof fn lemma_at_once(w: World, name: Text, a: Seq<Text>)
    requires
        locks_kept(w.desk),
        at_once(w, name, a) is Some,
    ensures
        locks_kept(at_once(w, name, a)->Some_0.0.desk),
{
    reveal(at_once);
    if desk_command(w, name, a) is Some {
        lemma_desk_command(w, name, a);
    } else if window_command(w, name, a) is Some {
        lemma_window_command(w, name, a);
    } else if frame_command(w, name, a) is Some {
        lemma_frame_command(w, name, a);
    } else if list_command(w, name, a) is Some {
    } else if attr_command(w, name, a) is Some {
        lemma_attr_command(w, name, a);
    } else {
        lemma_other_command(w, name, a);
    }
}

/// Asking for backgrounds changes no monitor.
proof fn lemma_wallpaper(w: World, a: Seq<Text>)
    ensures
        wallpaper(w, a) matches Wall::Done(v, _) ==> v.desk == w.desk,
{
    assert forall|mons: Seq<usize>, c: Backdrop| (#[trigger] set_backdrops(w, mons, c)).desk == w.desk by {
        lemma_backdrops(w, mons, c);
    }
    assert forall|mons: Seq<usize>| (#[trigger] without_backdrops(w, mons)).desk == w.desk by {
        lemma_backdrops(w, mons, Backdrop::Color((0, 0, 0, 0)));
    }
}

/// The beginning of a command that may ask something changes no monitor.
proof fn lemma_asking(w: World, name: Text, a: Seq<Text>)
    requires
        begin_asking(w, name, a) is Some,
    ensures
        begin_asking(w, name, a)->Some_0.0.desk == w.desk,
{
    lemma_wallpaper(w, a);
    assert(begin_keybind(w, a).0.desk == w.desk);
    assert(launcher_closed(w).desk == w.desk);
    assert(apps_opened(w).desk == w.desk);
    reveal(begin_asking);
}

/// The beginning of a command breaks no lock.
proof fn lemma_begun(w: World, args: Seq<Text>)
    requires
        locks_kept(w.desk),
    ensures
        locks_kept(begin(w, args).0.desk),
{
    if args.len() > 0 {
        let name = args[0];
        let a = args.skip(1);
        if begin_outer(w, name, a) is None {
            if begin_asking(w, name, a) is Some {
                lemma_asking(w, name, a);
            } else if at_once(w, name, a) is Some {
                lemma_at_once(w, name, a);
            }
        }
    }
}

/// All that follows breaks no lock.
proof fn lemma_settled(w: World, t: Turn, stack: Seq<Coat>)
    requires
        locks_kept(w.desk),
    ensures
        locks_kept(crate::ipc::settled(w, t, stack).0.desk),
    decreases turn_weight(t) + stack_weight(stack),
{
    reveal_with_fuel(crate::ipc::settled, 1);
    lemma_step_lighter(w, t, stack);
    if let Turn::Run(args) = t {
        lemma_begun(w, args);
    }
    if let Step::Next(v, next, rest) = step(w, t, stack) {
        lemma_settled(v, next, rest);
    }
}

/// Windows that start to be moved with the pointer, or are told where they are, change no
/// monitor.
proof fn lemma_passes(w: World, starts: Seq<(usize, bool)>, items: Seq<RenderItem>)
    ensures
        ops_started(w, starts).0.desk == w.desk,
        items_told(w, items).0.desk == w.desk,
    decreases starts.len() + items.len(),
{
    if starts.len() > 0 {
        lemma_passes(w, starts.drop_last(), items);
    }
    if items.len() > 0 {
        lemma_passes(w, starts, items.drop_last());
    }
}

// --- laws ---------------------------------------------------------------------------------

/// At the start no lock is broken: there is none.
pub proof fn law_no_lock_at_start(globals: Globals)
    ensures
        locks_kept(fresh_world(globals).desk),
{
}

/// No command breaks a lock: where every monitor that is locked to a tag shows it, it
/// does so after any command, with all the commands inside it.
pub proof fn law_commands_break_no_lock(w: World, args: Seq<Text>)
    requires
        locks_kept(w.desk),
    ensures
        locks_kept(dispatched(w, args).0.desk),
{
    lemma_settled(w, Turn::Run(args), Seq::empty());
}

/// A command that goes on with an answer from outside breaks no lock, whatever the answer
/// is.
pub proof fn law_answers_break_no_lock(w: World, ask: Ask, stack: Seq<Coat>, told: Told)
    requires
        locks_kept(w.desk),
    ensures
        locks_kept(resumed(w, ask, stack, told).0.desk),
{
    assert forall|mons: Seq<usize>, c: Backdrop| (#[trigger] set_backdrops(w, mons, c)).desk == w.desk by {
        lemma_backdrops(w, mons, c);
    }
    let (v, said) = answered(w, ask, told);
    assert(v.desk == w.desk);
    lemma_settled(v, Turn::Back(said), stack);
}

/// Nothing that windows do breaks a lock: neither rules that lead to a tag nor the focus.
pub proof fn law_windows_break_no_lock(w: World, id: WinId, title: Option<String>)
    requires
        locks_kept(w.desk),
    ensures
        locks_kept(reapply_rules(w, id).desk),
        locks_kept(window_titled(w, id, title).desk),
        locks_kept(focus_win(w, id).desk),
        locks_kept(pointer_entered(w, Some(id)).desk),
{
    lemma_ruled(w, id);
    let v = w.with_win(id, Window { title, ..w.win(id) });
    assert forall|u: World| u.desk == w.desk implies locks_kept((#[trigger] reapply_rules(u, id)).desk) by {
        lemma_ruled(u, id);
    }
}

/// Rules that are applied to a window.
proof fn lemma_ruled(w: World, id: WinId)
    requires
        locks_kept(w.desk),
    ensures
        locks_kept(reapply_rules(w, id).desk),
{
    let o = verdict(w, w.win(id));
    lemma_show(w.desk, o.tag);
}

/// Neither outputs that come and go nor managing windows breaks a lock.
pub proof fn law_passes_break_no_lock(before: nat, w: World)
    requires
        locks_kept(w.desk),
    ensures
        locks_kept(follow_outputs(before, w).desk),
        locks_kept(managed(w).0.desk),
{
    let v = first_half(w).0;
    assert forall|u: World, starts: Seq<(usize, bool)>| (#[trigger] ops_started(u, starts)).0.desk
        == u.desk by {
        lemma_passes(u, starts, Seq::empty());
    }
    assert(v.desk == w.desk);
    assert forall|u: World, items: Seq<RenderItem>| (#[trigger] items_told(u, items)).0.desk
        == u.desk by {
        lemma_passes(u, Seq::empty(), items);
    }
}

} // verus!
