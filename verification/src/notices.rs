//! Notifications.

use vstd::prelude::*;
use crate::text::Text;

verus! {

/// A notification that is shown.
#[derive(Debug)]
pub struct Notification {
    pub id: u32,
    pub summary: String,
    pub body: String,
    /// How urgent it is: low (0), usual (1) or critical (2).
    pub urgency: u8,
    /// How high it was drawn; zero before it is.
    pub height: i32,
    /// Whether it was drawn.
    pub drawn: bool,
}

/// A notification, its strings as texts.
#[verifier::ext_equal]
pub ghost struct Notice {
    pub id: u32,
    pub summary: Text,
    pub body: Text,
    pub urgency: u8,
    pub height: i32,
    pub drawn: bool,
}

impl DeepView for Notification {
    type V = Notice;

    open spec fn deep_view(&self) -> Notice {
        Notice {
            id: self.id,
            summary: self.summary@,
            body: self.body@,
            urgency: self.urgency,
            height: self.height,
            drawn: self.drawn,
        }
    }
}

/// Something that the service for notifications was told.
#[derive(Debug)]
pub enum NotifEvent {
    Show {
        id: u32,
        summary: String,
        body: String,
        urgency: u8,
        /// How long it stays, in milliseconds: for good where this is zero, as long as is
        /// usual where it is negative.
        expire_timeout: i32,
    },
    Close(u32),
}

/// The number that a notification gets: that of the one that it replaces, or the next.
pub open spec fn notice_number(replaces: u32, next: u32) -> u32 {
    if replaces != 0 {
        replaces
    } else {
        next
    }
}

/// The number that the next notification gets after one.
pub open spec fn number_after_notice(replaces: u32, next: u32) -> u32 {
    if replaces != 0 {
        next
    } else if next == u32::MAX {
        0
    } else {
        (next + 1) as u32
    }
}

/// Takes a notification in: gives it its number, and the usual urgency where it names none.
pub fn notify(
    next: &mut u32,
    replaces_id: u32,
    summary: String,
    body: String,
    urgency: Option<u8>,
    expire_timeout: i32,
) -> (r: NotifEvent)
    ensures
        *final(next) == number_after_notice(replaces_id, *old(next)),
        r matches NotifEvent::Show { id, summary: s, body: b, urgency: u, expire_timeout: e } && id
            == notice_number(replaces_id, *old(next)) && s@ == summary@ && b@ == body@ && u == (match urgency {
            Some(v) => v,
            None => 1,
        }) && e == expire_timeout,
{
    let id: u32 = if replaces_id != 0 {
        replaces_id
    } else {
        let n: u32 = *next;
        *next = if n == u32::MAX {
            0
        } else {
            n + 1
        };
        n
    };
    let level: u8 = match urgency {
        Some(v) => v,
        None => 1,
    };
    NotifEvent::Show { id, summary, body, urgency: level, expire_timeout }
}

} // verus!
