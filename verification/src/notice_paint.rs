//! Showing, closing and painting notifications.

use vstd::prelude::*;
use crate::launcher_paint::front_screen;
use crate::monitor::{clip, clip_to, Rect};
use crate::notices::{Notice, NotifEvent, Notification};
use crate::paint::{add_paint, FontSize, Ink, Paint, Points};
use crate::rules::DockAnchor;
use crate::state::{Deed, Effect, State, World};
use crate::text::Text;
use crate::theme::NotifTheme;

verus! {

/// The place of a notification; their number where it is not there.
pub open spec fn notice_place(ns: Seq<Notice>, id: u32) -> int
    decreases ns.len(),
{
    if ns.len() == 0 || ns[0].id == id {
        0
    } else {
        1 + notice_place(ns.drop_first(), id)
    }
}

/// A notification taken away, where it is there.
pub open spec fn notice_closed(w: World, id: u32) -> World {
    let p = notice_place(w.notifications, id);
    if p < w.notifications.len() {
        (World { notifications: w.notifications.remove(p), ..w }).then_do(Deed::HideNotice(id)).manage()
    } else {
        w
    }
}

/// The oldest notifications taken away until there are no more than five.
pub open spec fn notices_held(w: World) -> World
    decreases w.notifications.len(),
{
    if w.notifications.len() > 5 {
        notices_held(
            (World { notifications: w.notifications.remove(0), ..w }).then_do(
                Deed::HideNotice(w.notifications[0].id),
            ),
        )
    } else {
        w
    }
}

/// How long a notification stays, in milliseconds; for good where this is zero.
pub open spec fn stay_ms(asked: i32, usual: i32) -> u64 {
    if asked >= 0 {
        asked as u64
    } else if usual > 0 {
        usual as u64
    } else {
        0
    }
}

/// A notification shown, in place of any of its number.
pub open spec fn notice_shown(
    w: World,
    id: u32,
    summary: Text,
    body: Text,
    urgency: u8,
    expire: i32,
) -> World {
    let v = notice_closed(w, id);
    if !w.globals.compositor || !w.globals.wm {
        v
    } else {
        let n = Notice { id, summary, body, urgency, height: 0, drawn: false };
        let u = notices_held(
            (World { notifications: v.notifications.push(n), ..v }).then_do(Deed::ShowNotice(id)),
        );
        let ms = stay_ms(expire, w.settings.notif_theme.timeout_ms);
        if ms > 0 {
            u.then_do(Deed::ExpireNotice { notice: id, ms }).manage()
        } else {
            u.manage()
        }
    }
}

impl State {
    /// Takes a notification away.
    pub fn close_notification(&mut self, id: u32)
        requires
            old(self)@.wf(),
        ensures
            final(self)@ == notice_closed(old(self)@, id),
            final(self)@.wf(),
    {
        let ghost all = self@.notifications;
        let mut i: usize = 0;
        assert(all.skip(0) =~= all);
        while i < self.notifications.len()
            invariant
                i <= self.notifications@.len() == all.len(),
                self@ == old(self)@,
                self@.wf(),
                all == self@.notifications,
                notice_place(all, id) == i + notice_place(all.skip(i as int), id),
            decreases all.len() - i,
        {
            assert(all.skip(i as int)[0] == self.notifications@[i as int].deep_view());
            assert(all.skip(i as int).drop_first() =~= all.skip(i + 1));
            if self.notifications[i].id == id {
                self.notifications.remove(i);
                assert(self.notifications.deep_view() =~= all.remove(i as int));
                self.perform(Effect::HideNotice(id));
                self.request_manage();
                return;
            }
            i += 1;
        }
    }

    /// Takes the oldest notifications away until there are no more than five.
    fn hold_notices(&mut self)
        requires
            old(self)@.wf(),
        ensures
            final(self)@ == notices_held(old(self)@),
            final(self)@.wf(),
    {
        while self.notifications.len() > 5
            invariant
                self@.wf(),
                notices_held(self@) == notices_held(old(self)@),
            decreases self.notifications@.len(),
        {
            let ghost all = self@.notifications;
            assert(all[0] == self.notifications@[0].deep_view());
            let n = self.notifications.remove(0);
            assert(self.notifications.deep_view() =~= all.remove(0));
            self.perform(Effect::HideNotice(n.id));
        }
    }

    /// Does what the service for notifications was told.
    pub fn handle_notif_event(&mut self, ev: NotifEvent)
        requires
            old(self)@.wf(),
        ensures
            final(self)@ == (match ev {
                NotifEvent::Show { id, summary, body, urgency, expire_timeout } => notice_shown(
                    old(self)@,
                    id,
                    summary@,
                    body@,
                    urgency,
                    expire_timeout,
                ),
                NotifEvent::Close(id) => notice_closed(old(self)@, id),
            }),
            final(self)@.wf(),
    {
        match ev {
            NotifEvent::Close(id) => {
                self.close_notification(id);
            },
            NotifEvent::Show { id, summary, body, urgency, expire_timeout } => {
                self.close_notification(id);
                if !self.globals.compositor || !self.globals.wm {
                    return;
                }
                let ghost all = self@.notifications;
                let n = Notification { id, summary, body, urgency, height: 0, drawn: false };
                self.notifications.push(n);
                assert(self.notifications.deep_view() =~= all.push(n.deep_view()));
                self.perform(Effect::ShowNotice(id));
                proof {
                    lemma_held_keeps(self@);
                }
                self.hold_notices();
                let usual: i32 = self.settings.notif_theme.timeout_ms;
                let ms: u64 = if expire_timeout >= 0 {
                    expire_timeout as u64
                } else if usual > 0 {
                    usual as u64
                } else {
                    0
                };
                if ms > 0 {
                    self.perform(Effect::ExpireNotice { notice: id, ms });
                }
                self.request_manage();
            },
        }
    }
}

/// Taking notifications away leaves the settings alone.
proof fn lemma_held_keeps(w: World)
    ensures
        notices_held(w).settings == w.settings,
    decreases w.notifications.len(),
{
    if w.notifications.len() > 5 {
        lemma_held_keeps(
            (World { notifications: w.notifications.remove(0), ..w }).then_do(
                Deed::HideNotice(w.notifications[0].id),
            ),
        );
    }
}

/// There are never more than five notifications after one is shown, and the last is the
/// one that was shown.
pub proof fn law_five_notices(w: World, id: u32, summary: Text, body: Text, urgency: u8, expire: i32)
    requires
        w.globals.compositor,
        w.globals.wm,
    ensures
        notice_shown(w, id, summary, body, urgency, expire).notifications.len() <= 5,
        notice_shown(w, id, summary, body, urgency, expire).notifications.len() > 0,
        notice_shown(w, id, summary, body, urgency, expire).notifications.last().id == id,
        notice_shown(w, id, summary, body, urgency, expire).notifications.last().summary == summary,
        notice_shown(w, id, summary, body, urgency, expire).notifications.last().body == body,
{
    let v = notice_closed(w, id);
    let n = Notice { id, summary, body, urgency, height: 0, drawn: false };
    lemma_held_last(
        (World { notifications: v.notifications.push(n), ..v }).then_do(Deed::ShowNotice(id)),
    );
}

proof fn lemma_held_last(w: World)
    requires
        w.notifications.len() > 0,
    ensures
        0 < notices_held(w).notifications.len() <= 5,
        notices_held(w).notifications.last() == w.notifications.last(),
    decreases w.notifications.len(),
{
    if w.notifications.len() > 5 {
        let v = (World { notifications: w.notifications.remove(0), ..w }).then_do(
            Deed::HideNotice(w.notifications[0].id),
        );
        assert(v.notifications.last() == w.notifications.last());
        lemma_held_last(v);
    }
}

// --- painting -----------------------------------------------------------------------------

/// The width of a notification.
pub open spec fn notice_width(t: NotifTheme) -> i32 {
    if t.width > 120 {
        t.width
    } else {
        120
    }
}

/// The width that a notification's text has.
pub open spec fn notice_text_width(t: NotifTheme) -> i32 {
    (notice_width(t) - 28) as i32
}

/// The width of a notification.
fn full_width(t: &NotifTheme) -> (r: i32)
    ensures
        r == notice_width(*t),
{
    if t.width > 120 {
        t.width
    } else {
        120
    }
}

/// The width that a notification's text has: the one to measure its height by.
pub fn text_width(t: &NotifTheme) -> (r: i32)
    ensures
        r == notice_text_width(*t),
{
    full_width(t) - 28
}

/// The height of a notification; `body` is that of its text.
pub open spec fn notice_height(n: Notice, body: i32) -> i32 {
    let h = 45 + (if n.body.len() == 0 {
        0
    } else {
        6 + body
    });
    if h > 40 {
        clip(h)
    } else {
        40
    }
}

/// A notification as it is painted: its background, a strip at its side, its summary and
/// its text.
pub open spec fn notice_inks(t: NotifTheme, n: Notice, body: i32) -> Seq<Ink> {
    let w = notice_width(t);
    let h = notice_height(n, body);
    let head = seq![
        Ink::Fill { x: 0, y: 0, w, h, color: t.bg },
        Ink::Fill {
            x: 0,
            y: 0,
            w: 4,
            h,
            color: if n.urgency == 2 {
                t.accent_critical
            } else {
                t.accent
            },
        },
        Ink::Text { x: 16, y: 12, text: n.summary, font: Points::Px(15), color: t.fg, family: None },
    ];
    if n.body.len() == 0 {
        head
    } else {
        head.push(
            Ink::Wrapped {
                x: 16,
                y: 39,
                width: notice_text_width(t),
                text: n.body,
                font: Points::Px(13),
                color: t.body_fg,
            },
        )
    }
}

/// A notification as it is painted.
#[derive(Debug)]
pub struct NoticeFrame {
    pub w: i32,
    pub h: i32,
    pub paints: Vec<Paint>,
}

/// Paints a notification; `body` is the height of its text.
pub fn paint_notice(t: &NotifTheme, n: &Notification, body: i32) -> (r: NoticeFrame)
    ensures
        r.w == notice_width(*t),
        r.h == notice_height(n.deep_view(), body),
        r.paints.deep_view() == notice_inks(*t, n.deep_view(), body),
{
    let w: i32 = full_width(t);
    let bare: bool = n.body.as_str().is_empty();
    let high: i128 = if bare {
        45
    } else {
        51 + body as i128
    };
    let h: i32 = if high > 40 {
        clip_to(high)
    } else {
        40
    };
    let mut paints: Vec<Paint> = Vec::new();
    add_paint(&mut paints, Paint::Fill { x: 0, y: 0, w, h, color: t.bg });
    let accent = if n.urgency == 2 {
        t.accent_critical
    } else {
        t.accent
    };
    add_paint(&mut paints, Paint::Fill { x: 0, y: 0, w: 4, h, color: accent });
    add_paint(
        &mut paints,
        Paint::Text {
            x: 16,
            y: 12,
            text: n.summary.clone(),
            font: FontSize::Px(15),
            color: t.fg,
            family: None,
        },
    );
    if !bare {
        add_paint(
            &mut paints,
            Paint::Wrapped {
                x: 16,
                y: 39,
                width: text_width(t),
                text: n.body.clone(),
                font: FontSize::Px(13),
                color: t.body_fg,
            },
        );
    }
    assert(paints.deep_view() =~= notice_inks(*t, n.deep_view(), body));
    NoticeFrame { w, h, paints }
}

/// A notification as it is painted: its sides, and what is painted.
pub open spec fn frame_of(f: NoticeFrame) -> (i32, i32, Seq<Ink>) {
    (f.w, f.h, f.paints.deep_view())
}

/// The notifications that were not drawn yet, by their places, as they are painted;
/// `bodies` are the heights of their texts.
pub open spec fn undrawn(t: NotifTheme, ns: Seq<Notice>, bodies: Seq<i32>) -> Seq<
    (usize, (i32, i32, Seq<Ink>)),
>
    decreases ns.len(),
{
    if ns.len() == 0 {
        Seq::empty()
    } else {
        let before = undrawn(t, ns.drop_last(), bodies);
        let n = ns.last();
        let i = ns.len() - 1;
        if n.drawn {
            before
        } else {
            before.push(
                (
                    i as usize,
                    (notice_width(t), notice_height(n, bodies[i]), notice_inks(t, n, bodies[i])),
                ),
            )
        }
    }
}

/// Frames by their places, as they are painted.
pub open spec fn frames_of(r: Seq<(usize, NoticeFrame)>) -> Seq<(usize, (i32, i32, Seq<Ink>))> {
    r.map_values(|p: (usize, NoticeFrame)| (p.0, frame_of(p.1)))
}

/// Where a notification is.
#[derive(Clone, Copy, Debug, PartialEq, Eq, Structural)]
pub struct NoticeSpot {
    pub id: u32,
    pub x: i32,
    pub y: i32,
}

/// Where the first notification is, below a bar at the upper edge.
pub open spec fn notice_top(w: World, r: Rect) -> i32 {
    match w.bar {
        Some(b) => if b.anchor == DockAnchor::Top {
            clip(r.y + 12 + 2 * b.margin_y + b.height)
        } else {
            clip(r.y + 12)
        },
        None => clip(r.y + 12),
    }
}

/// Where notifications are, one below the other, and where the next would be.
pub open spec fn notice_spots(ns: Seq<Notice>, x: i32, top: i32) -> (Seq<NoticeSpot>, i32)
    decreases ns.len(),
{
    if ns.len() == 0 {
        (Seq::empty(), top)
    } else {
        let (before, y) = notice_spots(ns.drop_last(), x, top);
        (
            before.push(NoticeSpot { id: ns.last().id, x, y }),
            clip(y + ns.last().height + 8),
        )
    }
}

impl State {
    /// Paints the notifications that were not drawn yet, where there is a monitor to show
    /// them on; `bodies` are the heights of their texts.
    pub fn render_notifications(&self, bodies: &Vec<i32>) -> (r: Vec<(usize, NoticeFrame)>)
        requires
            self@.wf(),
            bodies@.len() == self@.notifications.len(),
        ensures
            frames_of(r@) == (if self@.globals.shm && front_screen(self@) is Some {
                undrawn(self@.settings.notif_theme, self@.notifications, bodies@)
            } else {
                Seq::empty()
            }),
    {
        let mut r: Vec<(usize, NoticeFrame)> = Vec::new();
        if !self.globals.shm || self.find_front_screen().is_none() {
            assert(frames_of(r@) =~= Seq::empty());
            return r;
        }
        let ghost t = self.settings.notif_theme;
        let ghost all = self@.notifications;
        let mut i: usize = 0;
        assert(all.take(0) =~= Seq::<Notice>::empty());
        assert(frames_of(r@) =~= Seq::empty());
        while i < self.notifications.len()
            invariant
                i <= self.notifications@.len() == all.len(),
                bodies@.len() == all.len(),
                all == self@.notifications,
                t == self.settings.notif_theme,
                frames_of(r@) == undrawn(t, all.take(i as int), bodies@),
            decreases all.len() - i,
        {
            assert(all.take(i + 1).drop_last() =~= all.take(i as int));
            assert(all.take(i + 1).last() == self.notifications@[i as int].deep_view());
            if !self.notifications[i].drawn {
                let ghost before = r@;
                let f = paint_notice(&self.settings.notif_theme, &self.notifications[i], bodies[i]);
                r.push((i, f));
                assert(frames_of(r@) =~= frames_of(before).push((i, frame_of(f))));
            }
            i += 1;
        }
        assert(all.take(i as int) =~= all);
        r
    }

    /// Notes that a notification was drawn.
    pub fn notice_drawn(&mut self, i: usize, h: i32)
        requires
            old(self)@.wf(),
            i < old(self)@.notifications.len(),
        ensures
            final(self)@ == (World {
                notifications: old(self)@.notifications.update(
                    i as int,
                    (Notice { height: h, drawn: true, ..old(self)@.notifications[i as int] }),
                ),
                ..old(self)@
            }),
            final(self)@.wf(),
    {
        let ghost all = self@.notifications;
        self.notifications[i].height = h;
        self.notifications[i].drawn = true;
        assert(self.notifications.deep_view() =~= all.update(
            i as int,
            (Notice { height: h, drawn: true, ..all[i as int] }),
        ));
    }

    /// Where the notifications are: in the upper right corner of the focused monitor.
    pub fn place_notices(&self) -> (r: Vec<NoticeSpot>)
        requires
            self@.wf(),
        ensures
            r@ == (match front_screen(self@) {
                Some(s) if self@.globals.shm => notice_spots(
                    self@.notifications,
                    clip(s.x + s.w - notice_width(self@.settings.notif_theme) - 12),
                    notice_top(self@, s),
                ).0,
                _ => Seq::empty(),
            }),
            forall|i: int|
                0 <= i < r@.len() && front_screen(self@) is Some ==> ({
                    let s = front_screen(self@)->0;
                    let w = notice_width(self@.settings.notif_theme);
                    i32::MIN <= s.x + s.w - w - 12 <= i32::MAX ==> (#[trigger] r@[i]).x + w + 12 == s.x + s.w
                }),
    {
        let mut r: Vec<NoticeSpot> = Vec::new();
        if !self.globals.shm {
            return r;
        }
        let s = match self.find_front_screen() {
            None => {
                return r;
            },
            Some(s) => s,
        };
        let w: i32 = if self.settings.notif_theme.width > 120 {
            self.settings.notif_theme.width
        } else {
            120
        };
        let x: i32 = clip_to(s.x as i128 + s.w as i128 - w as i128 - 12);
        let mut y: i32 = match &self.bar {
            Some(b) => if b.anchor == DockAnchor::Top {
                clip_to(s.y as i128 + 12 + 2 * b.margin_y as i128 + b.height as i128)
            } else {
                clip_to(s.y as i128 + 12)
            },
            None => clip_to(s.y as i128 + 12),
        };
        let ghost top = y;
        let ghost all = self@.notifications;
        let mut i: usize = 0;
        assert(all.take(0) =~= Seq::<Notice>::empty());
        while i < self.notifications.len()
            invariant
                i <= self.notifications@.len() == all.len(),
                all == self@.notifications,
                (r@, y) == notice_spots(all.take(i as int), x, top),
                forall|k: int| 0 <= k < r@.len() ==> (#[trigger] r@[k]).x == x,
            decreases all.len() - i,
        {
            assert(all.take(i + 1).drop_last() =~= all.take(i as int));
            assert(all.take(i + 1).last() == self.notifications@[i as int].deep_view());
            r.push(NoticeSpot { id: self.notifications[i].id, x, y });
            y = clip_to(y as i128 + self.notifications[i].height as i128 + 8);
            i += 1;
        }
        assert(all.take(i as int) =~= all);
        r
    }
}

} // verus!
