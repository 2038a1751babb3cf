//! The items that registered themselves with the tray.

use vstd::prelude::*;
use crate::path::starts_at_root;
use crate::table::{drop_key, find_name, put, put_name, remove_name, value_of};
use crate::text::{same, Text};
use crate::tray::{Errand, TrayCmd};
use crate::tray_icon::{add_once, with_text};

verus! {

/// Where an item is: the name on the bus, and the path of the object, by what it
/// registered as and who sent that. A path alone is one of the sender; it is nowhere
/// where nobody sent it.
pub open spec fn item_place(service: Text, sender: Option<Text>) -> Option<(Text, Text)> {
    if crate::path::from_root(service) {
        match sender {
            Some(s) => Some((s, service)),
            None => None,
        }
    } else {
        Some((service, "/StatusNotifierItem"@))
    }
}

/// Tells where an item is.
pub fn locate_item(service: &str, sender: Option<String>) -> (r: Option<(String, String)>)
    ensures
        r.deep_view() == item_place(service@, sender.deep_view()),
{
    if starts_at_root(service) {
        match sender {
            Some(s) => Some((s, service.to_owned())),
            None => None,
        }
    } else {
        Some((service.to_owned(), "/StatusNotifierItem".to_owned()))
    }
}

/// Whether a name on the bus is one that others can take over, and not that of one
/// connection alone.
pub open spec fn well_known(bus: Text) -> bool {
    !(bus.len() > 0 && bus[0] == ':')
}

/// The key of an item: the connection that has its name, where it is known.
pub open spec fn item_key(bus: Text, owner: Option<Text>) -> Text {
    match owner {
        Some(o) => if well_known(bus) {
            o
        } else {
            bus
        },
        None => bus,
    }
}

/// Tells whether the connection that has a name is to be asked for.
pub fn needs_owner(bus: &str) -> (r: bool)
    ensures
        r == well_known(bus@),
{
    let v = crate::text::chars_of(bus);
    !(v.len() > 0 && v[0] == ':')
}

/// Tells the key of an item.
pub fn key_of(bus: String, owner: Option<String>) -> (r: String)
    ensures
        r@ == item_key(bus@, owner.deep_view()),
{
    if needs_owner(bus.as_str()) {
        match owner {
            Some(o) => o,
            None => bus,
        }
    } else {
        bus
    }
}

/// The items that registered themselves.
#[derive(Debug)]
pub struct Registry {
    /// Where each item is, by its key.
    pub items: Vec<(String, (String, String))>,
    /// What the items registered as.
    pub services: Vec<String>,
}

/// The items that registered themselves, their strings as texts.
#[verifier::ext_equal]
pub ghost struct Roll {
    pub items: Seq<(Text, (Text, Text))>,
    pub services: Seq<Text>,
}

impl View for Registry {
    type V = Roll;

    open spec fn view(&self) -> Roll {
        Roll { items: self.items.deep_view(), services: self.services.deep_view() }
    }
}

/// An item registers. Only one that is new is listed; where it is counts either way.
pub open spec fn registered(r: Roll, key: Text, path: Text, service: Text) -> (Roll, bool) {
    let known = value_of(r.items, key) is Some;
    (
        Roll {
            items: put(r.items, key, (key, path)),
            services: if known {
                r.services
            } else {
                with_text(r.services, service)
            },
        },
        !known,
    )
}

/// The texts but for those that are the one.
pub open spec fn without_text(ts: Seq<Text>, t: Text) -> Seq<Text>
    decreases ts.len(),
{
    if ts.len() == 0 {
        ts
    } else if ts.last() == t {
        without_text(ts.drop_last(), t)
    } else {
        without_text(ts.drop_last(), t).push(ts.last())
    }
}

impl Registry {
    /// Nobody has registered yet.
    pub fn new() -> (r: Registry)
        ensures
            r@ == (Roll { items: Seq::empty(), services: Seq::empty() }),
    {
        let r = Registry { items: Vec::new(), services: Vec::new() };
        assert(r@ =~= Roll { items: Seq::empty(), services: Seq::empty() });
        r
    }

    /// An item registers; says whether it is new.
    pub fn register(&mut self, key: &str, path: &str, service: &str) -> (r: bool)
        ensures
            (final(self)@, r) == registered(old(self)@, key@, path@, service@),
    {
        let known = find_name(&self.items, key) < self.items.len();
        proof {
            crate::table::lemma_key_place(self.items.deep_view(), key@);
        }
        let place = (key.to_owned(), path.to_owned());
        put_name(&mut self.items, key.to_owned(), place);
        if !known {
            add_once(&mut self.services, service.to_owned());
        }
        !known
    }

    /// An item cannot be spoken to.
    pub fn forget(&mut self, key: &str)
        ensures
            final(self)@ == (Roll { items: drop_key(old(self)@.items, key@), ..old(self)@ }),
    {
        let _ = remove_name(&mut self.items, key);
    }

    /// An item is gone.
    pub fn unregister(&mut self, key: &str, service: &str)
        ensures
            final(self)@ == (Roll {
                items: drop_key(old(self)@.items, key@),
                services: without_text(old(self)@.services, service@),
            }),
    {
        self.forget(key);
        let ghost all = self.services.deep_view();
        let mut left: Vec<String> = Vec::new();
        let mut i: usize = 0;
        assert(all.take(0) =~= Seq::<Text>::empty());
        assert(left.deep_view() =~= Seq::<Text>::empty());
        while i < self.services.len()
            invariant
                i <= self.services@.len(),
                all == self.services.deep_view(),
                left.deep_view() == without_text(all.take(i as int), service@),
            decreases self.services@.len() - i,
        {
            let ghost before = left.deep_view();
            assert(all.take(i + 1).drop_last() =~= all.take(i as int));
            assert(all.take(i + 1).last() == self.services@[i as int]@);
            if !same(self.services[i].as_str(), service) {
                left.push(self.services[i].clone());
                assert(left.deep_view() =~= before.push(self.services@[i as int]@));
            }
            i += 1;
        }
        assert(all.take(i as int) =~= all);
        self.services = left;
    }

    /// Tells where an item is.
    pub fn lookup(&self, key: &str) -> (r: Option<(String, String)>)
        ensures
            r.deep_view() == value_of(self@.items, key@),
    {
        let i: usize = find_name(&self.items, key);
        proof {
            crate::table::lemma_key_place(self.items.deep_view(), key@);
        }
        if i < self.items.len() {
            assert(self.items.deep_view()[i as int].1 == self.items@[i as int].1.deep_view());
            Some((self.items[i].1.0.clone(), self.items[i].1.1.clone()))
        } else {
            None
        }
    }
}

/// The item that an errand is for.
pub open spec fn errand_key(e: Errand) -> Text {
    match e {
        Errand::Activate { key, .. } => key,
        Errand::SecondaryActivate { key, .. } => key,
        Errand::OpenMenu { key, .. } => key,
        Errand::MenuClicked { key, .. } => key,
        Errand::Scroll { key, .. } => key,
    }
}

/// Tells the item that it is for.
pub fn command_key(cmd: &TrayCmd) -> (r: String)
    ensures
        r@ == errand_key(cmd@),
{
    match cmd {
        TrayCmd::Activate { key, .. } => key.clone(),
        TrayCmd::SecondaryActivate { key, .. } => key.clone(),
        TrayCmd::OpenMenu { key, .. } => key.clone(),
        TrayCmd::MenuClicked { key, .. } => key.clone(),
        TrayCmd::Scroll { key, .. } => key.clone(),
    }
}

/// The way that was scrolled, as items know it.
pub fn scroll_orientation(horizontal: bool) -> (r: String)
    ensures
        r@ == if horizontal {
            "horizontal"@
        } else {
            "vertical"@
        },
{
    if horizontal {
        "horizontal".to_owned()
    } else {
        "vertical".to_owned()
    }
}

/// Where the menu of an item is: the root stands for none.
pub open spec fn menu_place(path: Option<Text>) -> Option<Text> {
    if path == Some("/"@) {
        None
    } else {
        path
    }
}

/// Tells where the menu of an item is.
pub fn menu_path(path: Option<String>) -> (r: Option<String>)
    ensures
        r.deep_view() == menu_place(path.deep_view()),
{
    match path {
        Some(p) => if same(p.as_str(), "/") {
            None
        } else {
            Some(p)
        },
        None => None,
    }
}

/// The state of an item that does not say.
pub fn status_or_default(status: Option<String>) -> (r: String)
    ensures
        r@ == match status {
            Some(s) => s@,
            None => "Active"@,
        },
{
    match status {
        Some(s) => s,
        None => "Active".to_owned(),
    }
}

/// An item that registered can be found, where it said it was, until it is gone; what
/// others said stays.
pub proof fn law_registered_found(r: Roll, key: Text, path: Text, service: Text, other: Text)
    requires
        crate::table::keys_differ(r.items),
    ensures
        value_of(registered(r, key, path, service).0.items, key) == Some((key, path)),
        other != key ==> value_of(registered(r, key, path, service).0.items, other) == value_of(
            r.items,
            other,
        ),
        value_of(drop_key(r.items, key), key) is None,
        crate::table::keys_differ(registered(r, key, path, service).0.items),
{
    crate::table::law_put(r.items, key, (key, path), key);
    crate::table::law_put(r.items, key, (key, path), other);
    crate::table::law_drop_key(r.items, key, key);
}

} // verus!
