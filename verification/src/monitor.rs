//! Virtual monitors: rectangles of the global layout, each showing one tag. They may
//! overlap; a monitor of a higher `z` covers the others.

use vstd::prelude::*;
use crate::number::{
    all_digits, decimal, is_digit, law_show_reads_back, parse_i32, push_i64, read_magnitude,
    show, show_int, signed32,
};
use crate::text::{chars_of, find_from, lemma_position_is, position, string_of, Class, Text};

verus! {

/// A tag's number.
pub type TagId = u32;

/// A monitor's number, which stays its own while others come and go.
#[derive(Clone, Copy, Debug, PartialEq, Eq, Hash, Structural)]
pub struct MonitorId(pub u32);

/// A rectangle in the global layout; its corner may lie left of or above zero.
#[derive(Clone, Copy, Debug, PartialEq, Eq, Structural)]
pub struct Rect {
    pub x: i32,
    pub y: i32,
    pub w: i32,
    pub h: i32,
}

/// A coordinate held within the range of an `i32`.
pub open spec fn clip(v: int) -> i32 {
    if v > i32::MAX {
        i32::MAX
    } else if v < i32::MIN {
        i32::MIN
    } else {
        v as i32
    }
}

/// Holds a coordinate within the range of an `i32`.
pub fn clip_to(v: i128) -> (r: i32)
    ensures
        r == clip(v as int),
{
    if v > 0x7fff_ffff {
        i32::MAX
    } else if v < -0x8000_0000 {
        i32::MIN
    } else {
        v as i32
    }
}

/// A quotient without its fraction.
pub open spec fn quotient(a: int, b: int) -> int {
    if a >= 0 {
        a / b
    } else {
        -((-a) / b)
    }
}

/// Divides and drops the fraction.
pub fn divide(a: i128, b: i128) -> (r: i128)
    requires
        b > 0,
        a > i128::MIN,
    ensures
        r == quotient(a as int, b as int),
        a >= 0 ==> 0 <= r <= a,
        a < 0 ==> a <= r <= 0,
{
    if a >= 0 {
        assert(0 <= a / b <= a) by (nonlinear_arith)
            requires
                a >= 0,
                b > 0,
        ;
        a / b
    } else {
        let n: i128 = -a;
        assert(0 <= n / b <= n) by (nonlinear_arith)
            requires
                n >= 0,
                b > 0,
        ;
        -(n / b)
    }
}

/// The place `delta` steps on from `cur` in a ring of `n`.
pub fn step_round(cur: usize, delta: i32, n: usize) -> (r: usize)
    requires
        n > 0,
    ensures
        r == (cur + delta) % (n as int),
        r < n,
{
    let sum: i128 = cur as i128 + delta as i128;
    let m: i128 = n as i128;
    if sum >= 0 {
        (sum % m) as usize
    } else {
        let back: i128 = (-sum) % m;
        proof {
            let k = (-sum) / (m as int);
            assert(-sum == k * m + back) by (nonlinear_arith)
                requires
                    back == (-sum) % (m as int),
                    k == (-sum) / (m as int),
                    m > 0,
            ;
            if back == 0 {
                assert(sum == (-k) * m + 0) by (nonlinear_arith)
                    requires
                        -sum == k * m,
                ;
                vstd::arithmetic::div_mod::lemma_fundamental_div_mod_converse(sum as int, m as int, -k, 0);
            } else {
                assert(sum == (-k - 1) * m + (m - back)) by (nonlinear_arith)
                    requires
                        -sum == k * m + back,
                ;
                vstd::arithmetic::div_mod::lemma_fundamental_div_mod_converse(
                    sum as int,
                    m as int,
                    -k - 1,
                    m - back,
                );
            }
        }
        if back == 0 {
            0
        } else {
            (m - back) as usize
        }
    }
}

impl Rect {
    /// The rectangle of the given position and size.
    pub fn new(x: i32, y: i32, w: i32, h: i32) -> (r: Rect)
        ensures
            r == (Rect { x, y, w, h }),
    {
        Rect { x, y, w, h }
    }
}

impl Default for Rect {
    fn default() -> (r: Rect)
        ensures
            r == (Rect { x: 0, y: 0, w: 0, h: 0 }),
    {
        Rect { x: 0, y: 0, w: 0, h: 0 }
    }
}

/// The two numbers of an offset such as `+10-20`.
pub open spec fn offset_text(s: Text) -> Option<(int, int)> {
    let p = 1 + position(s.skip(1), Class::Sign);
    if p >= s.len() || position(s.skip(p + 1), Class::Sign) < s.skip(p + 1).len() {
        None
    } else {
        match (signed32(s.take(p)), signed32(s.skip(p))) {
            (Some(x), Some(y)) => Some((x, y)),
            _ => None,
        }
    }
}

/// The rectangle that a geometry `WxH+X+Y` describes: a width up to the first `x`, a
/// height up to the first sign behind it, then two numbers that start with a sign.
pub open spec fn rect_text(s: Text) -> Option<Rect> {
    let px = position(s, Class::Is('x'));
    let tail = s.skip(px + 1);
    let ps = position(tail, Class::Sign);
    if px >= s.len() || ps >= tail.len() {
        None
    } else {
        match (signed32(s.take(px)), signed32(tail.take(ps)), offset_text(tail.skip(ps))) {
            (Some(w), Some(h), Some((x, y))) => Some(
                Rect { x: x as i32, y: y as i32, w: w as i32, h: h as i32 },
            ),
            _ => None,
        }
    }
}

/// Reads the two numbers of an offset, from the sign at `from` on.
fn parse_offset(v: &Vec<char>, from: usize) -> (r: Option<(i32, i32)>)
    requires
        from < v.len(),
    ensures
        r is Some <==> offset_text(v@.skip(from as int)) is Some,
        r matches Some((x, y)) ==> offset_text(v@.skip(from as int)) == Some((x as int, y as int)),
{
    let ghost off = v@.skip(from as int);
    let p: usize = find_from(v, from + 1, Class::Sign);
    assert(off.skip(1) =~= v@.skip(from + 1));
    if p == v.len() {
        return None;
    }
    assert(off.skip(p - from + 1) =~= v@.skip(p + 1));
    if find_from(v, p + 1, Class::Sign) < v.len() {
        return None;
    }
    let x = parse_i32(string_of(v, from, p).as_str());
    assert(v@.subrange(from as int, p as int) =~= off.take(p - from));
    let y = parse_i32(string_of(v, p, v.len()).as_str());
    assert(v@.subrange(p as int, v@.len() as int) =~= off.skip(p - from));
    match (x, y) {
        (Some(x), Some(y)) => Some((x, y)),
        _ => None,
    }
}

impl Rect {
    /// Reads a geometry `WxH+X+Y`, in which an offset may be negative.
    pub fn parse(s: &str) -> (r: Option<Rect>)
        ensures
            r == rect_text(s@),
    {
        let v = chars_of(s);
        assert(v@.skip(0) =~= v@);
        let px: usize = find_from(&v, 0, Class::Is('x'));
        if px == v.len() {
            return None;
        }
        let ghost tail = v@.skip(px + 1);
        let ps: usize = find_from(&v, px + 1, Class::Sign);
        if ps == v.len() {
            return None;
        }
        let ghost rel = ps - px - 1;
        assert(tail.skip(rel) =~= v@.skip(ps as int));
        let w = parse_i32(string_of(&v, 0, px).as_str());
        assert(v@.subrange(0, px as int) =~= s@.take(px as int));
        let h = parse_i32(string_of(&v, px + 1, ps).as_str());
        assert(v@.subrange(px + 1, ps as int) =~= tail.take(rel));
        match (w, h, parse_offset(&v, ps)) {
            (Some(w), Some(h), Some((x, y))) => Some(Rect { x, y, w, h }),
            _ => None,
        }
    }
}

/// A number with its sign, a plus where it is not negative.
pub open spec fn show_signed(n: int) -> Text {
    if n < 0 {
        show_int(n)
    } else {
        seq!['+'] + show(n as nat)
    }
}

/// A rectangle written as a geometry `WxH+X+Y`.
pub open spec fn show_rect(r: Rect) -> Text {
    show_int(r.w as int) + seq!['x'] + show_int(r.h as int) + show_signed(r.x as int) + show_signed(
        r.y as int,
    )
}

fn push_signed(out: &mut String, n: i32)
    ensures
        final(out)@ == old(out)@ + show_signed(n as int),
{
    if n >= 0 {
        out.push('+');
    }
    push_i64(out, n as i64);
    assert(out@ =~= old(out)@ + show_signed(n as int));
}

/// Writes a rectangle as a geometry.
pub fn push_rect(out: &mut String, r: Rect)
    ensures
        final(out)@ == old(out)@ + show_rect(r),
{
    push_i64(out, r.w as i64);
    out.push('x');
    push_i64(out, r.h as i64);
    push_signed(out, r.x);
    push_signed(out, r.y);
    assert(out@ =~= old(out)@ + show_rect(r));
}

proof fn lemma_no_marks(n: nat)
    ensures
        show(n).len() > 0,
        forall|i: int|
            0 <= i < show(n).len() ==> #[trigger] show(n)[i] != 'x' && !Class::Sign.has(show(n)[i]),
{
    law_show_reads_back(n);
    assert forall|i: int| 0 <= i < show(n).len() implies #[trigger] show(n)[i] != 'x' && !Class::Sign.has(
        show(n)[i],
    ) by {
        assert(is_digit(show(n)[i]));
    }
}

proof fn lemma_signed_reads_back(n: int)
    requires
        i32::MIN <= n <= i32::MAX,
    ensures
        signed32(show_signed(n)) == Some(n),
        show_signed(n).len() > 1,
        Class::Sign.has(show_signed(n)[0]),
        forall|i: int| 1 <= i < show_signed(n).len() ==> !Class::Sign.has(#[trigger] show_signed(n)[i]),
{
    let m = if n < 0 {
        (-n) as nat
    } else {
        n as nat
    };
    let s = show_signed(n);
    law_show_reads_back(m);
    lemma_no_marks(m);
    assert(s.skip(1) =~= show(m));
    assert forall|i: int| 1 <= i < s.len() implies !Class::Sign.has(#[trigger] s[i]) by {
        assert(s[i] == show(m)[i - 1]);
    }
}

/// A geometry reads back as the rectangle that it was written from, where that has no
/// negative height.
pub proof fn law_rect_round_trip(r: Rect)
    requires
        r.h >= 0,
    ensures
        rect_text(show_rect(r)) == Some(r),
{
    let w = show_int(r.w as int);
    let h = show(r.h as nat);
    let x = show_signed(r.x as int);
    let y = show_signed(r.y as int);
    let s = show_rect(r);
    crate::number::law_signed_round_trip(r.w as int, i32::MIN as int, i32::MAX as int);
    crate::number::law_signed_round_trip(r.h as int, i32::MIN as int, i32::MAX as int);
    lemma_no_marks(r.h as nat);
    lemma_signed_reads_back(r.x as int);
    lemma_signed_reads_back(r.y as int);
    let k = w.len() as int;
    lemma_no_marks(
        if r.w < 0 {
            (-r.w) as nat
        } else {
            r.w as nat
        },
    );
    assert forall|i: int| 0 <= i < k implies !Class::Is('x').has(#[trigger] s[i]) by {
        assert(s[i] == w[i]);
        if r.w < 0 && i > 0 {
            assert(w[i] == show((-r.w) as nat)[i - 1]);
        }
    }
    assert(s[k] == 'x');
    lemma_position_is(s, Class::Is('x'), k);
    let tail = s.skip(k + 1);
    assert(tail =~= h + x + y);
    let ps = h.len() as int;
    assert forall|i: int| 0 <= i < ps implies !Class::Sign.has(#[trigger] tail[i]) by {
        assert(tail[i] == h[i]);
    }
    assert(tail[ps] == x[0]);
    lemma_position_is(tail, Class::Sign, ps);
    let off = tail.skip(ps);
    assert(off =~= x + y);
    let p = x.len() as int;
    let inner = off.skip(1);
    assert forall|i: int| 0 <= i < p - 1 implies !Class::Sign.has(#[trigger] inner[i]) by {
        assert(inner[i] == x[i + 1]);
    }
    assert(inner[p - 1] == y[0]);
    lemma_position_is(inner, Class::Sign, p - 1);
    let last = off.skip(p + 1);
    assert forall|i: int| 0 <= i < last.len() implies !Class::Sign.has(#[trigger] last[i]) by {
        assert(last[i] == y[i + 1]);
    }
    lemma_position_is(last, Class::Sign, last.len() as int);
    assert(s.take(k) =~= w);
    assert(tail.take(ps) =~= h);
    assert(off.take(p) =~= x);
    assert(off.skip(p) =~= y);
}

/// Room kept free at the edges of a monitor.
#[derive(Clone, Copy, Debug, PartialEq, Eq, Structural)]
pub struct Insets {
    pub top: i32,
    pub right: i32,
    pub bottom: i32,
    pub left: i32,
}

/// No room kept free.
pub open spec fn no_insets() -> Insets {
    Insets { top: 0, right: 0, bottom: 0, left: 0 }
}

impl Default for Insets {
    fn default() -> (r: Insets)
        ensures
            r == no_insets(),
    {
        Insets { top: 0, right: 0, bottom: 0, left: 0 }
    }
}

/// A monitor.
#[derive(Clone, Debug)]
pub struct Monitor {
    pub id: MonitorId,
    /// A name to select it by.
    pub name: Option<String>,
    pub rect: Rect,
    /// Its height in the stack of monitors.
    pub z: i32,
    pub pad: Insets,
    /// The tag that it shows.
    pub tag: TagId,
    /// The one tag that it may be switched to.
    pub locked_tag: Option<TagId>,
}

/// A monitor, with its name as a text.
#[verifier::ext_equal]
pub ghost struct Screen {
    pub id: MonitorId,
    pub name: Option<Text>,
    pub rect: Rect,
    pub z: i32,
    pub pad: Insets,
    pub tag: TagId,
    pub locked_tag: Option<TagId>,
}

impl DeepView for Monitor {
    type V = Screen;

    open spec fn deep_view(&self) -> Screen {
        Screen {
            id: self.id,
            name: self.name.deep_view(),
            rect: self.rect,
            z: self.z,
            pad: self.pad,
            tag: self.tag,
            locked_tag: self.locked_tag,
        }
    }
}

/// A rectangle without what is kept free at its edges; never of negative size.
pub open spec fn shrink(r: Rect, p: Insets) -> Rect {
    let w = r.w - p.left - p.right;
    let h = r.h - p.top - p.bottom;
    Rect {
        x: clip(r.x + p.left),
        y: clip(r.y + p.top),
        w: clip(
            if w > 0 {
                w
            } else {
                0
            },
        ),
        h: clip(
            if h > 0 {
                h
            } else {
                0
            },
        ),
    }
}

impl Monitor {
    /// The part of the monitor that windows are laid out in.
    pub fn usable(&self) -> (r: Rect)
        ensures
            r == shrink(self.rect, self.pad),
    {
        let r = self.rect;
        let p = self.pad;
        let w: i128 = r.w as i128 - p.left as i128 - p.right as i128;
        let h: i128 = r.h as i128 - p.top as i128 - p.bottom as i128;
        Rect {
            x: clip_to(r.x as i128 + p.left as i128),
            y: clip_to(r.y as i128 + p.top as i128),
            w: clip_to(
                if w > 0 {
                    w
                } else {
                    0
                },
            ),
            h: clip_to(
                if h > 0 {
                    h
                } else {
                    0
                },
            ),
        }
    }
}

/// What selects a monitor: its place in the list, or its name.
#[derive(Clone, Debug)]
pub enum MonitorSel {
    Index(usize),
    Name(String),
}

/// What selects a monitor, a name as a text.
pub ghost enum Selector {
    Index(int),
    Name(Text),
}

impl View for MonitorSel {
    type V = Selector;

    open spec fn view(&self) -> Selector {
        match self {
            MonitorSel::Index(i) => Selector::Index(*i as int),
            MonitorSel::Name(n) => Selector::Name(n@),
        }
    }
}

/// A selector's text: digits give a place, anything else is a name. A place beyond
/// the machine's range is held at its end, where no list reaches.
pub open spec fn selector_text(s: Text) -> Selector {
    if s.len() > 0 && all_digits(s) {
        Selector::Index(
            if decimal(s) <= usize::MAX {
                decimal(s) as int
            } else {
                usize::MAX as int
            },
        )
    } else {
        Selector::Name(s)
    }
}

impl MonitorSel {
    /// Reads a selector.
    pub fn parse(s: &str) -> (r: MonitorSel)
        ensures
            r@ == selector_text(s@),
    {
        let v = chars_of(s);
        assert(v@.skip(0) =~= v@);
        match read_magnitude(&v, 0, usize::MAX as u64) {
            Some(n) => MonitorSel::Index(n as usize),
            None => {
                let mut digits: bool = v.len() > 0;
                let mut i: usize = 0;
                while i < v.len() && digits
                    invariant
                        i <= v@.len(),
                        v@ == s@,
                        digits ==> v@.len() > 0 && (forall|j: int|
                            0 <= j < i ==> crate::number::is_digit(#[trigger] v@[j])),
                        !digits ==> !(v@.len() > 0 && all_digits(v@)),
                    decreases v@.len() - i,
                {
                    let u: u32 = v[i] as u32;
                    digits = 48 <= u && u <= 57;
                    assert(digits == crate::number::is_digit(v@[i as int]));
                    i += 1;
                }
                if digits {
                    MonitorSel::Index(usize::MAX)
                } else {
                    MonitorSel::Name(s.to_owned())
                }
            },
        }
    }
}

/// The monitors, and which of them has the focus.
#[derive(Debug)]
pub struct Monitors {
    pub list: Vec<Monitor>,
    /// The place in the list of the focused monitor.
    pub focus: usize,
    /// The number that the next monitor gets.
    pub next_id: u32,
}

/// The monitors as a mathematical value.
#[verifier::ext_equal]
pub ghost struct Desk {
    pub list: Seq<Screen>,
    pub focus: int,
    pub next_id: u32,
}

impl View for Monitors {
    type V = Desk;

    open spec fn view(&self) -> Desk {
        Desk { list: self.list.deep_view(), focus: self.focus as int, next_id: self.next_id }
    }
}

/// A place held within a list of `n`.
pub open spec fn hold_index(i: int, n: int) -> int {
    if i < n {
        i
    } else if n > 0 {
        n - 1
    } else {
        0
    }
}

/// The number after `id`; after the last comes the first.
pub open spec fn next_number(id: u32) -> u32 {
    if id == u32::MAX {
        0
    } else {
        (id + 1) as u32
    }
}

/// The number `n` places on from `id`.
pub open spec fn number_after(id: u32, n: nat) -> u32
    decreases n,
{
    if n == 0 {
        id
    } else {
        next_number(number_after(id, (n - 1) as nat))
    }
}

/// The tag that the `i`-th of a fresh set of monitors shows.
pub open spec fn fresh_tag(i: int) -> TagId {
    if i < u32::MAX {
        (i + 1) as u32
    } else {
        u32::MAX
    }
}

/// The greatest `z`; zero where there is no monitor.
pub open spec fn top_z(list: Seq<Screen>) -> i32
    decreases list.len(),
{
    if list.len() == 0 {
        0
    } else if list.len() == 1 {
        list[0].z
    } else {
        let z = top_z(list.drop_last());
        if list.last().z > z {
            list.last().z
        } else {
            z
        }
    }
}

/// The first monitor of the name; the length of the list where there is none.
pub open spec fn named_place(list: Seq<Screen>, name: Text) -> int
    decreases list.len(),
{
    if list.len() == 0 || list[0].name == Some(name) {
        0
    } else {
        1 + named_place(list.drop_first(), name)
    }
}

/// The monitor that a selector selects.
pub open spec fn find_screen(list: Seq<Screen>, sel: Selector) -> Option<int> {
    match sel {
        Selector::Index(i) => if 0 <= i < list.len() {
            Some(i)
        } else {
            None
        },
        Selector::Name(n) => if named_place(list, n) < list.len() {
            Some(named_place(list, n))
        } else {
            None
        },
    }
}

/// The tags that are shown.
pub open spec fn shown_tags(list: Seq<Screen>) -> Set<TagId> {
    Set::new(|t: TagId| exists|i: int| 0 <= i < list.len() && (#[trigger] list[i]).tag == t)
}

/// The tags that monitors other than the focused one show.
pub open spec fn shown_elsewhere(desk: Desk) -> Set<TagId> {
    Set::new(
        |t: TagId|
            exists|i: int| 0 <= i < desk.list.len() && i != desk.focus && (#[trigger] desk.list[i]).tag == t,
    )
}

/// The place among `order` where a monitor of height `z` goes: below the first that
/// is higher.
pub open spec fn order_place(list: Seq<Screen>, order: Seq<usize>, z: i32) -> int
    decreases order.len(),
{
    if order.len() == 0 || list[order[0] as int].z > z {
        0
    } else {
        1 + order_place(list, order.drop_first(), z)
    }
}

/// The first `n` monitors from the lowest to the highest, those of one height in the
/// order of the list.
pub open spec fn stack_order(list: Seq<Screen>, n: nat) -> Seq<usize>
    decreases n,
{
    if n == 0 {
        Seq::empty()
    } else {
        let below = stack_order(list, (n - 1) as nat);
        below.insert(order_place(list, below, list[n - 1].z), (n - 1) as usize)
    }
}

impl Desk {
    /// The focus is a place, on the list or past its end.
    pub open spec fn wf(self) -> bool {
        0 <= self.focus
    }

    /// The focus is on a monitor while there are any.
    pub open spec fn in_range(self) -> bool {
        0 <= self.focus && (self.focus < self.list.len() || self.list.len() == 0)
    }

    /// A fresh set of monitors.
    pub open spec fn reset(self, rects: Seq<Rect>) -> Desk {
        Desk {
            list: Seq::new(
                rects.len(),
                |i: int|
                    Screen {
                        id: MonitorId(number_after(self.next_id, i as nat)),
                        name: None,
                        rect: rects[i],
                        z: 0,
                        pad: no_insets(),
                        tag: fresh_tag(i),
                        locked_tag: None,
                    },
            ),
            focus: hold_index(self.focus, rects.len() as int),
            next_id: number_after(self.next_id, rects.len()),
        }
    }

    /// One more monitor, as high as the highest.
    pub open spec fn with_monitor(self, rect: Rect, tag: TagId, name: Option<Text>) -> Desk {
        Desk {
            list: self.list.push(
                Screen {
                    id: MonitorId(self.next_id),
                    name,
                    rect,
                    z: top_z(self.list),
                    pad: no_insets(),
                    tag,
                    locked_tag: None,
                },
            ),
            focus: self.focus,
            next_id: next_number(self.next_id),
        }
    }

    /// One monitor replaced.
    pub open spec fn with_screen(self, i: int, m: Screen) -> Desk {
        Desk { list: self.list.update(i, m), focus: self.focus, next_id: self.next_id }
    }

    /// The focus on another monitor.
    pub open spec fn with_focus(self, i: int) -> Desk {
        Desk { list: self.list, focus: i, next_id: self.next_id }
    }

    /// One monitor less.
    pub open spec fn without(self, i: int) -> Desk {
        Desk {
            list: self.list.remove(i),
            focus: hold_index(self.focus, self.list.len() - 1),
            next_id: self.next_id,
        }
    }

    /// The tag shown on the focused monitor, unless that is locked to another.
    pub open spec fn show(self, tag: TagId) -> Desk {
        if 0 <= self.focus < self.list.len() {
            let m = self.list[self.focus];
            if m.locked_tag is None || m.locked_tag == Some(tag) {
                self.with_screen(self.focus, (Screen { tag, ..m }))
            } else {
                self
            }
        } else {
            self
        }
    }
}

impl Default for Monitors {
    fn default() -> (r: Monitors)
        ensures
            r@ == (Desk { list: Seq::empty(), focus: 0, next_id: 0 }),
            r@.wf(),
    {
        Monitors::new()
    }
}

impl Monitors {
    /// No monitors.
    pub fn new() -> (r: Monitors)
        ensures
            r@ == (Desk { list: Seq::empty(), focus: 0, next_id: 0 }),
            r@.wf(),
    {
        let r = Monitors { list: Vec::new(), focus: 0, next_id: 0 };
        assert(r@.list =~= Seq::empty());
        r
    }

    fn alloc_id(&mut self) -> (r: MonitorId)
        ensures
            r == MonitorId(old(self).next_id),
            final(self).list == old(self).list,
            final(self).focus == old(self).focus,
            final(self).next_id == next_number(old(self).next_id),
    {
        let id: u32 = self.next_id;
        self.next_id = if id == u32::MAX { 0 } else { id + 1 };
        MonitorId(id)
    }

    /// Replaces all monitors by a fresh set, the first showing tag 1, the next tag 2,
    /// and so on.
    pub fn set_monitors(&mut self, rects: &[Rect])
        requires
            old(self)@.wf(),
        ensures
            final(self)@ == old(self)@.reset(rects@),
            final(self)@.wf(),
    {
        self.list.clear();
        let ghost target = old(self)@.reset(rects@).list;
        let mut i: usize = 0;
        assert(self.list.deep_view() =~= target.take(0));
        while i < rects.len()
            invariant
                i <= rects@.len(),
                target == old(self)@.reset(rects@).list,
                self.list.deep_view() == target.take(i as int),
                self.focus == old(self).focus,
                self.next_id == number_after(old(self).next_id, i as nat),
            decreases rects@.len() - i,
        {
            let ghost before = self.list.deep_view();
            let id = self.alloc_id();
            let tag: TagId = if i < 0xffff_ffff { i as u32 + 1 } else { u32::MAX };
            let m = Monitor {
                id,
                name: None,
                rect: rects[i],
                z: 0,
                pad: Insets { top: 0, right: 0, bottom: 0, left: 0 },
                tag,
                locked_tag: None,
            };
            self.list.push(m);
            i += 1;
            assert(self.list.deep_view() =~= before.push(m.deep_view()));
            assert(m.deep_view() == target[i - 1]);
            assert(target.take(i as int) =~= target.take(i - 1).push(target[i - 1]));
        }
        assert(target.take(i as int) =~= target);
        if self.focus >= self.list.len() {
            self.focus = if self.list.len() > 0 { self.list.len() - 1 } else { 0 };
        }
    }

    /// Adds a monitor, as high as the highest.
    pub fn add_monitor(&mut self, rect: Rect, tag: TagId, name: Option<String>) -> (r: MonitorId)
        requires
            old(self)@.wf(),
        ensures
            final(self)@ == old(self)@.with_monitor(rect, tag, name.deep_view()),
            r == MonitorId(old(self)@.next_id),
            final(self)@.wf(),
    {
        let z: i32 = self.max_z();
        let id = self.alloc_id();
        let m = Monitor {
            id,
            name,
            rect,
            z,
            pad: Insets { top: 0, right: 0, bottom: 0, left: 0 },
            tag,
            locked_tag: None,
        };
        self.list.push(m);
        assert(self.list.deep_view() =~= old(self)@.list.push(m.deep_view()));
        id
    }

    fn max_z(&self) -> (r: i32)
        ensures
            r == top_z(self@.list),
    {
        let ghost all = self@.list;
        if self.list.len() == 0 {
            return 0;
        }
        let mut z: i32 = self.list[0].z;
        let mut i: usize = 1;
        assert(all.take(1)[0] == all[0]);
        while i < self.list.len()
            invariant
                1 <= i <= self.list@.len(),
                all == self.list.deep_view(),
                z == top_z(all.take(i as int)),
            decreases self.list@.len() - i,
        {
            assert(all.take(i + 1).drop_last() =~= all.take(i as int));
            assert(all.take(i + 1).last() == self.list@[i as int].deep_view());
            if self.list[i].z > z {
                z = self.list[i].z;
            }
            i += 1;
        }
        assert(all.take(i as int) =~= all);
        z
    }

    /// The place in the list of the monitor that a selector selects.
    pub fn resolve(&self, sel: &MonitorSel) -> (r: Option<usize>)
        ensures
            r is Some <==> find_screen(self@.list, sel@) is Some,
            r is Some ==> r->0 == find_screen(self@.list, sel@)->0,
            r is Some ==> r->0 < self@.list.len(),
    {
        match sel {
            MonitorSel::Index(i) => if *i < self.list.len() {
                Some(*i)
            } else {
                None
            },
            MonitorSel::Name(n) => {
                let ghost all = self@.list;
                let mut i: usize = 0;
                assert(all.skip(0) =~= all);
                while i < self.list.len()
                    invariant
                        i <= self.list@.len(),
                        all == self.list.deep_view(),
                        sel@ == Selector::Name(n@),
                        named_place(all, n@) == i + named_place(all.skip(i as int), n@),
                    decreases self.list@.len() - i,
                {
                    assert(all.skip(i as int)[0] == self.list@[i as int].deep_view());
                    assert(all.skip(i as int).drop_first() =~= all.skip(i + 1));
                    let hit: bool = match &self.list[i].name {
                        Some(m) => crate::text::same(m.as_str(), n.as_str()),
                        None => false,
                    };
                    if hit {
                        return Some(i);
                    }
                    i += 1;
                }
                None
            },
        }
    }

    /// Raises a monitor above all others; says whether it is there.
    pub fn raise_monitor(&mut self, sel: &MonitorSel) -> (r: bool)
        requires
            old(self)@.wf(),
        ensures
            r == (find_screen(old(self)@.list, sel@) is Some),
            r ==> final(self)@ == old(self)@.raised(find_screen(old(self)@.list, sel@)->0),
            !r ==> final(self)@ == old(self)@,
            final(self)@.wf(),
    {
        let top: i32 = self.max_z();
        match self.resolve(sel) {
            Some(i) => {
                self.list[i].z = if top < i32::MAX { top + 1 } else { i32::MAX };
                assert(self@.list =~= old(self)@.raised(i as int).list);
                true
            },
            None => false,
        }
    }

    /// Locks a monitor to a tag and shows the tag there; says whether it is there.
    pub fn lock_tag(&mut self, tag: TagId, sel: &MonitorSel) -> (r: bool)
        requires
            old(self)@.wf(),
        ensures
            r == (find_screen(old(self)@.list, sel@) is Some),
            r ==> final(self)@ == old(self)@.locked(find_screen(old(self)@.list, sel@)->0, tag),
            !r ==> final(self)@ == old(self)@,
            final(self)@.wf(),
    {
        match self.resolve(sel) {
            Some(i) => {
                self.list[i].locked_tag = Some(tag);
                self.list[i].tag = tag;
                assert(self@.list =~= old(self)@.locked(i as int, tag).list);
                true
            },
            None => false,
        }
    }

    /// Sets what is kept free at a monitor's edges; says whether it is there.
    pub fn set_pad(&mut self, sel: &MonitorSel, pad: Insets) -> (r: bool)
        requires
            old(self)@.wf(),
        ensures
            r == (find_screen(old(self)@.list, sel@) is Some),
            r ==> final(self)@ == ({
                let i = find_screen(old(self)@.list, sel@)->0;
                old(self)@.with_screen(i, (Screen { pad, ..old(self)@.list[i] }))
            }),
            !r ==> final(self)@ == old(self)@,
            final(self)@.wf(),
    {
        match self.resolve(sel) {
            Some(i) => {
                self.list[i].pad = pad;
                let ghost target = old(self)@.with_screen(
                    i as int,
                    (Screen { pad, ..old(self)@.list[i as int] }),
                );
                assert(self@.list =~= target.list);
                true
            },
            None => false,
        }
    }

    /// Focuses a monitor; says whether it is there.
    pub fn focus_monitor(&mut self, sel: &MonitorSel) -> (r: bool)
        requires
            old(self)@.wf(),
        ensures
            r == (find_screen(old(self)@.list, sel@) is Some),
            r ==> final(self)@ == old(self)@.with_focus(find_screen(old(self)@.list, sel@)->0),
            !r ==> final(self)@ == old(self)@,
            final(self)@.wf(),
    {
        match self.resolve(sel) {
            Some(i) => {
                self.focus = i;
                true
            },
            None => false,
        }
    }

    /// Moves the focus `delta` monitors on, round the list.
    pub fn cycle_monitor(&mut self, delta: i32)
        requires
            old(self)@.wf(),
        ensures
            final(self)@ == old(self)@.cycled(delta as int),
            final(self)@.wf(),
    {
        if self.list.len() > 0 {
            self.focus = step_round(self.focus, delta, self.list.len());
        }
    }

    /// The focused monitor.
    pub fn focused(&self) -> (r: Option<&Monitor>)
        requires
            self@.wf(),
        ensures
            r is Some <==> self@.focus < self@.list.len(),
            r is Some ==> r->0.deep_view() == self@.list[self@.focus],
            r is Some ==> *r->0 == self.list@[self.focus as int],
    {
        if self.focus < self.list.len() {
            Some(&self.list[self.focus])
        } else {
            None
        }
    }

    /// The focused monitor, to be changed.
    pub fn focused_mut(&mut self) -> (r: Option<&mut Monitor>)
        requires
            old(self)@.wf(),
        ensures
            r is Some <==> old(self)@.focus < old(self)@.list.len(),
            r matches Some(m) ==> {
                &&& *m == old(self).list@[old(self).focus as int]
                &&& final(self).list@ == old(self).list@.update(old(self).focus as int, *final(m))
                &&& final(self).focus == old(self).focus
                &&& final(self).next_id == old(self).next_id
            },
            r is None ==> *final(self) == *old(self),
    {
        if self.focus < self.list.len() {
            let i: usize = self.focus;
            Some(&mut self.list[i])
        } else {
            None
        }
    }

    /// The tags that are shown, each once, from the lowest.
    pub fn visible_tags(&self) -> (r: Vec<TagId>)
        ensures
            r@.to_set() == shown_tags(self@.list),
            forall|i: int, j: int| 0 <= i < j < r@.len() ==> r@[i] < r@[j],
    {
        let mut v: Vec<TagId> = Vec::new();
        let mut i: usize = 0;
        while i < self.list.len()
            invariant
                i <= self.list@.len(),
                forall|a: int, b: int| 0 <= a < b < v@.len() ==> v@[a] < v@[b],
                forall|k: int| 0 <= k < i ==> v@.contains((#[trigger] self@.list[k]).tag),
                forall|a: int|
                    0 <= a < v@.len() ==> exists|k: int|
                        0 <= k < i && (#[trigger] self@.list[k]).tag == #[trigger] v@[a],
            decreases self.list@.len() - i,
        {
            let t: TagId = self.list[i].tag;
            assert(self@.list[i as int].tag == t);
            let mut at: usize = 0;
            while at < v.len() && v[at] < t
                invariant
                    at <= v@.len(),
                    forall|a: int| 0 <= a < at ==> v@[a] < t,
                decreases v@.len() - at,
            {
                at += 1;
            }
            let ghost before = v@;
            if at == v.len() || v[at] != t {
                v.insert(at, t);
                proof {
                    assert(v@[at as int] == t);
                    assert forall|k: int| 0 <= k < i + 1 implies v@.contains(
                        (#[trigger] self@.list[k]).tag,
                    ) by {
                        if k < i {
                            let a = choose|a: int| 0 <= a < before.len() && before[a] == self@.list[k].tag;
                            assert(v@[if a < at { a } else { a + 1 }] == self@.list[k].tag);
                        }
                    }
                    assert forall|a: int| 0 <= a < v@.len() implies exists|k: int|
                        0 <= k < i + 1 && (#[trigger] self@.list[k]).tag == #[trigger] v@[a] by {
                        if a == at {
                            assert(self@.list[i as int].tag == v@[a]);
                        } else {
                            let b = if a < at {
                                a
                            } else {
                                a - 1
                            };
                            assert(before[b] == v@[a]);
                            let k = choose|k: int|
                                0 <= k < i && (#[trigger] self@.list[k]).tag == before[b];
                            assert(self@.list[k].tag == v@[a]);
                        }
                    }
                }
            } else {
                assert(v@.contains(t));
            }
            i += 1;
        }
        proof {
            assert(v@.to_set() =~= shown_tags(self@.list)) by {
                assert forall|t: TagId| v@.to_set().contains(t) <==> shown_tags(self@.list).contains(
                    t,
                ) by {
                    if v@.to_set().contains(t) {
                        let a = choose|a: int| 0 <= a < v@.len() && v@[a] == t;
                        let k = choose|k: int|
                            0 <= k < self@.list.len() && (#[trigger] self@.list[k]).tag == v@[a];
                        assert(self@.list[k].tag == t);
                    }
                    if shown_tags(self@.list).contains(t) {
                        let k = choose|k: int|
                            0 <= k < self@.list.len() && (#[trigger] self@.list[k]).tag == t;
                        assert(v@.contains(self@.list[k].tag));
                    }
                }
            }
        }
        v
    }

    /// Whether some monitor shows the tag.
    pub fn tag_visible(&self, tag: TagId) -> (r: bool)
        ensures
            r == shown_tags(self@.list).contains(tag),
    {
        let mut i: usize = 0;
        while i < self.list.len()
            invariant
                i <= self.list@.len(),
                forall|k: int| 0 <= k < i ==> (#[trigger] self@.list[k]).tag != tag,
            decreases self.list@.len() - i,
        {
            if self.list[i].tag == tag {
                assert(self@.list[i as int].tag == tag);
                return true;
            }
            i += 1;
        }
        false
    }

    /// Whether some monitor other than the focused one shows the tag.
    pub fn tag_elsewhere(&self, tag: TagId) -> (r: bool)
        ensures
            r == shown_elsewhere(self@).contains(tag),
    {
        let mut i: usize = 0;
        while i < self.list.len()
            invariant
                i <= self.list@.len(),
                forall|k: int|
                    0 <= k < i && k != self@.focus ==> (#[trigger] self@.list[k]).tag != tag,
            decreases self.list@.len() - i,
        {
            if i != self.focus && self.list[i].tag == tag {
                assert(self@.list[i as int].tag == tag);
                return true;
            }
            i += 1;
        }
        false
    }

    /// Shows a tag on the focused monitor, unless that is locked to another.
    pub fn show_on_focused(&mut self, tag: TagId)
        requires
            old(self)@.wf(),
        ensures
            final(self)@ == old(self)@.show(tag),
            final(self)@.wf(),
    {
        if self.focus < self.list.len() {
            let i: usize = self.focus;
            let free: bool = match self.list[i].locked_tag {
                None => true,
                Some(t) => t == tag,
            };
            if free {
                self.list[i].tag = tag;
                assert(self@.list =~= old(self)@.show(tag).list);
            }
        }
    }

    /// Takes a monitor away; says whether it was there.
    pub fn remove_monitor(&mut self, sel: &MonitorSel) -> (r: bool)
        requires
            old(self)@.wf(),
        ensures
            r == (find_screen(old(self)@.list, sel@) is Some),
            r ==> final(self)@ == old(self)@.without(find_screen(old(self)@.list, sel@)->0),
            !r ==> final(self)@ == old(self)@,
            final(self)@.wf(),
    {
        match self.resolve(sel) {
            Some(i) => {
                self.list.remove(i);
                if self.focus >= self.list.len() {
                    self.focus = if self.list.len() > 0 { self.list.len() - 1 } else { 0 };
                }
                assert(self@.list =~= old(self)@.list.remove(i as int));
                true
            },
            None => false,
        }
    }

    /// Unlocks a monitor; says whether it is there.
    pub fn unlock_tag(&mut self, sel: &MonitorSel) -> (r: bool)
        requires
            old(self)@.wf(),
        ensures
            r == (find_screen(old(self)@.list, sel@) is Some),
            r ==> final(self)@ == ({
                let i = find_screen(old(self)@.list, sel@)->0;
                old(self)@.with_screen(i, (Screen { locked_tag: None, ..old(self)@.list[i] }))
            }),
            !r ==> final(self)@ == old(self)@,
            final(self)@.wf(),
    {
        match self.resolve(sel) {
            Some(i) => {
                self.list[i].locked_tag = None;
                let ghost target = old(self)@.with_screen(
                    i as int,
                    (Screen { locked_tag: None, ..old(self)@.list[i as int] }),
                );
                assert(self@.list =~= target.list);
                true
            },
            None => false,
        }
    }

    /// Moves a monitor to another rectangle; says whether it is there.
    pub fn move_monitor(&mut self, sel: &MonitorSel, rect: Rect) -> (r: bool)
        requires
            old(self)@.wf(),
        ensures
            r == (find_screen(old(self)@.list, sel@) is Some),
            r ==> final(self)@ == ({
                let i = find_screen(old(self)@.list, sel@)->0;
                old(self)@.with_screen(i, (Screen { rect, ..old(self)@.list[i] }))
            }),
            !r ==> final(self)@ == old(self)@,
            final(self)@.wf(),
    {
        match self.resolve(sel) {
            Some(i) => {
                self.list[i].rect = rect;
                let ghost target = old(self)@.with_screen(
                    i as int,
                    (Screen { rect, ..old(self)@.list[i as int] }),
                );
                assert(self@.list =~= target.list);
                true
            },
            None => false,
        }
    }

    /// Names a monitor, or takes its name away; says whether it is there.
    pub fn rename_monitor(&mut self, sel: &MonitorSel, name: Option<String>) -> (r: bool)
        requires
            old(self)@.wf(),
        ensures
            r == (find_screen(old(self)@.list, sel@) is Some),
            r ==> final(self)@ == ({
                let i = find_screen(old(self)@.list, sel@)->0;
                old(self)@.with_screen(i, (Screen { name: name.deep_view(), ..old(self)@.list[i] }))
            }),
            !r ==> final(self)@ == old(self)@,
            final(self)@.wf(),
    {
        match self.resolve(sel) {
            Some(i) => {
                let ghost target = old(self)@.with_screen(
                    i as int,
                    (Screen { name: name.deep_view(), ..old(self)@.list[i as int] }),
                );
                self.list[i].name = name;
                assert(self@.list =~= target.list);
                true
            },
            None => false,
        }
    }

    /// The tag that a monitor shows.
    pub fn tag_of(&self, sel: &MonitorSel) -> (r: Option<TagId>)
        ensures
            r == (match find_screen(self@.list, sel@) {
                Some(i) => Some(self@.list[i].tag),
                None => None,
            }),
    {
        match self.resolve(sel) {
            Some(i) => Some(self.list[i].tag),
            None => None,
        }
    }

    /// The places of the monitors from the lowest to the highest.
    pub fn render_order(&self) -> (r: Vec<usize>)
        ensures
            r@ == stack_order(self@.list, self@.list.len()),
            forall|k: int| 0 <= k < r@.len() ==> r@[k] < self@.list.len(),
            r@.len() == self@.list.len(),
    {
        let mut order: Vec<usize> = Vec::new();
        let mut i: usize = 0;
        while i < self.list.len()
            invariant
                i <= self.list@.len(),
                order@ == stack_order(self@.list, i as nat),
                order@.len() == i,
                forall|k: int| 0 <= k < order@.len() ==> order@[k] < i,
            decreases self.list@.len() - i,
        {
            let z: i32 = self.list[i].z;
            let mut at: usize = 0;
            assert(order@.skip(0) =~= order@);
            while at < order.len() && self.list[order[at]].z <= z
                invariant
                    at <= order@.len(),
                    i < self.list@.len(),
                    forall|k: int| 0 <= k < order@.len() ==> order@[k] < i,
                    order_place(self@.list, order@, z) == at + order_place(
                        self@.list,
                        order@.skip(at as int),
                        z,
                    ),
                decreases order@.len() - at,
            {
                assert(order@.skip(at as int).drop_first() =~= order@.skip(at + 1));
                at += 1;
            }
            order.insert(at, i);
            i += 1;
        }
        order
    }
}

impl Desk {
    /// A monitor raised above all others.
    pub open spec fn raised(self, i: int) -> Desk {
        self.with_screen(i, (Screen { z: clip(top_z(self.list) + 1), ..self.list[i] }))
    }

    /// A monitor locked to a tag, showing it.
    pub open spec fn locked(self, i: int, tag: TagId) -> Desk {
        self.with_screen(i, (Screen { locked_tag: Some(tag), tag, ..self.list[i] }))
    }

    /// The focus `delta` monitors on, round the list.
    pub open spec fn cycled(self, delta: int) -> Desk {
        if self.list.len() == 0 {
            self
        } else {
            self.with_focus((self.focus + delta) % (self.list.len() as int))
        }
    }
}

} // verus!
