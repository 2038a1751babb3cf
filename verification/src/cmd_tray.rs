//! The command on the tray.

use vstd::prelude::*;
use crate::bar::BarModule;
use crate::number::{push_u64, show};
use crate::reply::{err, err_text};
use crate::rules::{quote, quoted};
use crate::state::{State, World};
use crate::text::{same, Text};
use crate::tray::{TrayEntry, TrayItem};

verus! {

/// What an item of the tray is told to do.
#[derive(Clone, Copy, Debug, PartialEq, Eq, Structural)]
pub enum TrayVerb {
    Activate,
    Secondary,
    Menu,
}

/// The verb of a name.
pub open spec fn verb_named(s: Text) -> Option<TrayVerb> {
    if s == "activate"@ {
        Some(TrayVerb::Activate)
    } else if s == "secondary"@ {
        Some(TrayVerb::Secondary)
    } else if s == "menu"@ {
        Some(TrayVerb::Menu)
    } else {
        None
    }
}

/// The item that is meant: the one that is named, or the only one that there is.
pub open spec fn tray_key(w: World, a: Seq<Text>) -> Option<Text> {
    if a.len() > 1 {
        Some(a[1])
    } else if w.tray_items.len() == 1 {
        Some(w.tray_items[0].key)
    } else {
        None
    }
}

/// Whether the bar shows the tray.
pub open spec fn bar_has_tray(w: World) -> bool {
    w.bar is Some && exists|i: int|
        0 <= i < w.bar->0.parts.len() && (#[trigger] w.bar->0.parts[i]) is Tray
}

/// The line of an item, its title put as `title`.
pub open spec fn item_line(e: TrayEntry, title: Text) -> Text {
    "  "@ + e.key + " status="@ + e.status + " icon="@ + (if e.icon is Some {
        "yes"@
    } else {
        "no(placeholder)"@
    }) + " title="@ + title + "\n"@
}

/// The lines of items.
pub open spec fn item_lines(items: Seq<TrayEntry>) -> Text
    decreases items.len(),
{
    if items.len() == 0 {
        Seq::empty()
    } else {
        item_lines(items.drop_last()) + item_line(items.last(), quoted(items.last().title))
    }
}

/// What there is in the tray.
pub open spec fn tray_report(w: World) -> Text {
    "tray: "@ + show(w.tray_items.len()) + " item(s); bar tray module: "@ + (if bar_has_tray(w) {
        "present"@
    } else {
        "MISSING (run `sc bar add tray`)"@
    }) + "\n"@ + (if w.tray_items.len() == 0 {
        "  (no SNI item registered — is a tray app running in SNI mode, e.g. `nm-applet --indicator`?)\n"@
    } else {
        ""@
    }) + item_lines(w.tray_items)
}

/// What `tray` comes to: a reply, or something for an item to do.
pub ghost enum TrayPlan {
    Reply(Text),
    Tell(TrayVerb, Text),
}

/// `tray [activate|secondary|menu [item]]`.
pub open spec fn tray(w: World, a: Seq<Text>) -> TrayPlan {
    if a.len() > 0 && verb_named(a[0]) is Some {
        match tray_key(w, a) {
            None => TrayPlan::Reply(err_text("tray: expected <key> (see `sc tray` for keys)"@)),
            Some(k) => if !w.globals.tray {
                TrayPlan::Reply(err_text("tray: no tray thread"@))
            } else {
                TrayPlan::Tell(verb_named(a[0])->0, k)
            },
        }
    } else {
        TrayPlan::Reply(tray_report(w))
    }
}

/// The verb of a name.
fn parse_verb(s: &str) -> (r: Option<TrayVerb>)
    ensures
        r == verb_named(s@),
{
    if same(s, "activate") {
        Some(TrayVerb::Activate)
    } else if same(s, "secondary") {
        Some(TrayVerb::Secondary)
    } else if same(s, "menu") {
        Some(TrayVerb::Menu)
    } else {
        None
    }
}

/// Whether the bar shows the tray.
fn shows_tray(state: &State) -> (r: bool)
    ensures
        r == bar_has_tray(state@),
{
    match &state.bar {
        None => false,
        Some(bar) => {
            let ghost parts = state@.bar->0.parts;
            let mut i: usize = 0;
            while i < bar.modules.len()
                invariant
                    i <= bar.modules@.len() == parts.len(),
                    state@.bar is Some,
                    parts == state@.bar->0.parts,
                    parts == bar.modules.deep_view(),
                    forall|j: int| 0 <= j < i ==> !((#[trigger] parts[j]) is Tray),
                decreases bar.modules@.len() - i,
            {
                assert(parts[i as int] == bar.modules@[i as int].deep_view());
                if let BarModule::Tray { .. } = &bar.modules[i] {
                    assert(state@.bar->0.parts[i as int] is Tray);
                    return true;
                }
                i += 1;
            }
            false
        },
    }
}

/// Writes the line of an item, its title put as `title`.
pub fn write_item(e: &TrayItem, title: &str) -> (r: String)
    ensures
        r@ == item_line(e.deep_view(), title@),
{
    let mut r = "  ".to_owned();
    r.append(e.key.as_str());
    r.append(" status=");
    r.append(e.status.as_str());
    r.append(" icon=");
    r.append(
        if e.icon.is_some() {
            "yes"
        } else {
            "no(placeholder)"
        },
    );
    r.append(" title=");
    r.append(title);
    r.append("\n");
    r
}

/// Writes what there is in the tray.
fn report_tray(state: &State) -> (r: String)
    ensures
        r@ == tray_report(state@),
{
    let mut out = "tray: ".to_owned();
    push_u64(&mut out, state.tray_items.len() as u64);
    out.append(" item(s); bar tray module: ");
    out.append(
        if shows_tray(state) {
            "present"
        } else {
            "MISSING (run `sc bar add tray`)"
        },
    );
    out.append("\n");
    out.append(
        if state.tray_items.len() == 0 {
            "  (no SNI item registered — is a tray app running in SNI mode, e.g. `nm-applet --indicator`?)\n"
        } else {
            ""
        },
    );
    let ghost head = out@;
    let ghost all = state@.tray_items;
    let mut i: usize = 0;
    assert(all.take(0) =~= Seq::<TrayEntry>::empty());
    assert(out@ =~= head + item_lines(all.take(0)));
    while i < state.tray_items.len()
        invariant
            i <= state.tray_items@.len() == all.len(),
            all == state@.tray_items,
            out@ == head + item_lines(all.take(i as int)),
        decreases state.tray_items@.len() - i,
    {
        assert(all.take(i + 1).drop_last() =~= all.take(i as int));
        assert(all.take(i + 1).last() == state.tray_items@[i as int].deep_view());
        let title = quote(state.tray_items[i].title.as_str());
        let line = write_item(&state.tray_items[i], title.as_str());
        out.append(line.as_str());
        i += 1;
        assert(out@ =~= head + item_lines(all.take(i as int)));
    }
    assert(all.take(i as int) =~= all);
    out
}

/// What `tray` comes to.
pub enum TrayStep {
    Reply(String),
    Tell(TrayVerb, String),
}

pub fn cmd_tray(state: &State, a: &[String]) -> (r: TrayStep)
    ensures
        match tray(state@, a.deep_view()) {
            TrayPlan::Reply(t) => r matches TrayStep::Reply(s) && s@ == t,
            TrayPlan::Tell(v, k) => r matches TrayStep::Tell(u, s) && u == v && s@ == k,
        },
{
    assert(a@.len() > 0 ==> a.deep_view()[0] == a@[0]@);
    assert(a@.len() > 1 ==> a.deep_view()[1] == a@[1]@);
    let verb: Option<TrayVerb> = if a.len() > 0 {
        parse_verb(a[0].as_str())
    } else {
        None
    };
    match verb {
        None => TrayStep::Reply(report_tray(state)),
        Some(v) => {
            let key: String = if a.len() > 1 {
                a[1].clone()
            } else if state.tray_items.len() == 1 {
                assert(state@.tray_items[0] == state.tray_items@[0].deep_view());
                state.tray_items[0].key.clone()
            } else {
                return TrayStep::Reply(err("tray: expected <key> (see `sc tray` for keys)"));
            };
            if !state.globals.tray {
                return TrayStep::Reply(err("tray: no tray thread"));
            }
            TrayStep::Tell(v, key)
        },
    }
}

} // verus!
