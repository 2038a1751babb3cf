//! Small pictures of images and of icons.

use vstd::prelude::*;
use crate::images::{Image, LONGEST};
use crate::text::Text;

verus! {

/// The longest side of a small picture of an image.
pub const THUMB_MAX: u32 = 200;

/// The longest side of an icon that is shown.
pub const ICON_PX: u32 = 64;

/// The pixels of a picture, each of four samples: red, green, blue and opacity.
#[derive(Debug)]
pub enum Pixels {
    /// Samples of eight bits.
    Plain(Vec<u8>),
    /// Samples of sixteen bits.
    Deep(Vec<u16>),
}

/// A picture as it was read from a file.
#[derive(Debug)]
pub struct Picture {
    pub width: u32,
    pub height: u32,
    /// Whether the file says nothing of opacity.
    pub opaque: bool,
    pub pixels: Pixels,
}

/// How many samples a picture has.
pub open spec fn sample_count(p: Pixels) -> nat {
    match p {
        Pixels::Plain(v) => v@.len(),
        Pixels::Deep(v) => v@.len(),
    }
}

/// How many times the longest side of a small picture the sides of a picture may be: the
/// samples that make up one are summed up in 32 bits.
pub open spec fn most_times(p: Pixels) -> int {
    match p {
        Pixels::Plain(_) => 2000,
        Pixels::Deep(_) => 150,
    }
}

/// Whether a picture of these sides can be made small.
pub open spec fn shrinks(w: int, h: int, side: int, times: int) -> bool {
    &&& 0 < w <= LONGEST
    &&& 0 < h <= LONGEST
    &&& 0 < side <= LONGEST
    &&& w <= times * side
    &&& h <= times * side
    &&& side * side * 4 <= isize::MAX
}

impl Picture {
    /// There are as many samples as the sides ask for, and not too many for a small
    /// picture.
    pub open spec fn can_shrink(self, side: u32) -> bool {
        &&& sample_count(self.pixels) == self.width * self.height * 4
        &&& shrinks(self.width as int, self.height as int, side as int, most_times(self.pixels))
    }
}

/// The sides and the bytes of a picture of eight bits made small.
pub uninterp spec fn thumbnail_of(rgba: Seq<u8>, w: u32, h: u32, side: u32) -> (u32, u32, Seq<u8>);

/// The sides and the bytes of a picture of sixteen bits made small.
pub uninterp spec fn deep_thumbnail_of(rgba: Seq<u16>, w: u32, h: u32, side: u32) -> (u32, u32, Seq<u8>);

/// Makes a picture of eight bits small: `image::DynamicImage::thumbnail` on the picture
/// that `image::ImageBuffer::from_raw` makes of the bytes. What the pixels are depends on
/// the bytes, the sides and the limit alone and is named, not described; no side is empty
/// or longer than the limit, and there are as many bytes as the new sides ask for.
#[verifier::external_body]
fn thumbnail(rgba: &Vec<u8>, w: u32, h: u32, side: u32) -> (r: (u32, u32, Vec<u8>))
    requires
        rgba@.len() == w * h * 4,
        shrinks(w as int, h as int, side as int, 2000),
    ensures
        (r.0, r.1, r.2@) == thumbnail_of(rgba@, w, h, side),
        r.2@.len() == r.0 * r.1 * 4,
        1 <= r.0 <= side,
        1 <= r.1 <= side,
{
    let whole = image::ImageBuffer::from_raw(w, h, rgba.clone()).unwrap();
    let small = image::DynamicImage::ImageRgba8(whole).thumbnail(side, side).to_rgba8();
    (small.width(), small.height(), small.into_raw())
}

/// Makes a picture of sixteen bits small: `image::DynamicImage::thumbnail` on the picture
/// that `image::ImageBuffer::from_raw` makes of the samples, and then
/// `image::DynamicImage::to_rgba8`. What the pixels are depends on the samples, the sides
/// and the limit alone and is named, not described; no side is empty or longer than the
/// limit, and there are as many bytes as the new sides ask for.
#[verifier::external_body]
fn deep_thumbnail(rgba: &Vec<u16>, w: u32, h: u32, side: u32) -> (r: (u32, u32, Vec<u8>))
    requires
        rgba@.len() == w * h * 4,
        shrinks(w as int, h as int, side as int, 150),
    ensures
        (r.0, r.1, r.2@) == deep_thumbnail_of(rgba@, w, h, side),
        r.2@.len() == r.0 * r.1 * 4,
        1 <= r.0 <= side,
        1 <= r.1 <= side,
{
    let whole = image::ImageBuffer::from_raw(w, h, rgba.clone()).unwrap();
    let small = image::DynamicImage::ImageRgba16(whole).thumbnail(side, side).to_rgba8();
    (small.width(), small.height(), small.into_raw())
}

/// Bytes with no pixel seen through.
pub open spec fn opaque_bytes(rgba: Seq<u8>) -> Seq<u8> {
    rgba.map(
        |i: int, b: u8|
            if i % 4 == 3 {
                0xffu8
            } else {
                b
            },
    )
}

/// What is shown of a picture that was made small: one that says nothing of opacity is
/// not seen through.
pub open spec fn shown_small(opaque: bool, small: (u32, u32, Seq<u8>)) -> (u32, u32, Seq<u8>) {
    if opaque {
        (small.0, small.1, opaque_bytes(small.2))
    } else {
        small
    }
}

/// A picture made small.
pub open spec fn small_picture(p: Picture, side: u32) -> (u32, u32, Seq<u8>) {
    shown_small(
        p.opaque,
        match p.pixels {
            Pixels::Plain(v) => thumbnail_of(v@, p.width, p.height, side),
            Pixels::Deep(v) => deep_thumbnail_of(v@, p.width, p.height, side),
        },
    )
}

/// Makes what is shown of a picture that was made small.
pub fn show_small(opaque: bool, width: u32, height: u32, rgba: Vec<u8>) -> (r: Image)
    ensures
        (r.width, r.height, r.rgba@) == shown_small(opaque, (width, height, rgba@)),
{
    let ghost start = rgba@;
    let mut rgba = rgba;
    if opaque {
        let ghost target = opaque_bytes(start);
        let mut i: usize = 0;
        assert(rgba@ =~= target.take(0) + start.skip(0));
        while i < rgba.len()
            invariant
                i <= rgba@.len() == start.len(),
                target == opaque_bytes(start),
                rgba@ == target.take(i as int) + start.skip(i as int),
            decreases start.len() - i,
        {
            assert(rgba@[i as int] == start[i as int]);
            if i % 4 == 3 {
                rgba.set(i, 0xff);
            }
            i += 1;
            assert(rgba@ =~= target.take(i as int) + start.skip(i as int));
        }
        assert(rgba@ =~= target);
    }
    Image { width, height, rgba }
}

/// Whether a picture of these sides can be made small.
fn does_shrink(w: u32, h: u32, side: u32, times: u64) -> (r: bool)
    requires
        times <= 2000,
    ensures
        r == shrinks(w as int, h as int, side as int, times as int),
{
    if w == 0 || w > LONGEST || h == 0 || h > LONGEST || side == 0 || side > LONGEST {
        return false;
    }
    assert(0 <= side * side <= 0x10_0000 * 0x10_0000 && 0 <= times * side <= 2000 * 0x10_0000)
        by (nonlinear_arith)
        requires
            0 < side <= 0x10_0000,
            0 <= times <= 2000,
    ;
    let most: u64 = times * side as u64;
    w as u64 <= most && h as u64 <= most && side as u64 * side as u64 * 4 <= isize::MAX as u64
}

/// Makes a picture small: no side of it is longer than the limit. There is none of a
/// picture that has no pixels or too many.
pub fn shrink(p: &Picture, side: u32) -> (r: Option<Image>)
    ensures
        r is Some <==> p.can_shrink(side),
        r matches Some(i) ==> {
            &&& (i.width, i.height, i.rgba@) == small_picture(*p, side)
            &&& i.wf()
            &&& 1 <= i.width <= side
            &&& 1 <= i.height <= side
        },
{
    assert(0 <= p.width * p.height <= 0xffff_ffff * 0xffff_ffff) by (nonlinear_arith)
        requires
            0 <= p.width <= 0xffff_ffff,
            0 <= p.height <= 0xffff_ffff,
    ;
    let count: u128 = p.width as u128 * p.height as u128 * 4;
    let (w, h, small) = match &p.pixels {
        Pixels::Plain(v) => {
            if v.len() as u128 != count || !does_shrink(p.width, p.height, side, 2000) {
                return None;
            }
            thumbnail(v, p.width, p.height, side)
        },
        Pixels::Deep(v) => {
            if v.len() as u128 != count || !does_shrink(p.width, p.height, side, 150) {
                return None;
            }
            deep_thumbnail(v, p.width, p.height, side)
        },
    };
    Some(show_small(p.opaque, w, h, small))
}

/// The icons that are shown of a theme, each by its names.
pub open spec fn samples() -> Seq<Seq<Text>> {
    seq![
        seq!["folder"@],
        seq!["user-home"@],
        seq!["text-editor"@, "accessories-text-editor"@],
        seq!["web-browser"@, "firefox"@],
        seq!["utilities-terminal"@, "terminal"@],
        seq!["system-file-manager"@],
        seq!["applications-system"@],
    ]
}

/// One name.
fn one(a: &str) -> (r: Vec<String>)
    ensures
        r.deep_view() == seq![a@],
{
    let mut r: Vec<String> = Vec::new();
    r.push(a.to_owned());
    assert(r.deep_view() =~= seq![a@]);
    r
}

/// Two names.
fn either(a: &str, b: &str) -> (r: Vec<String>)
    ensures
        r.deep_view() == seq![a@, b@],
{
    let mut r: Vec<String> = Vec::new();
    r.push(a.to_owned());
    r.push(b.to_owned());
    assert(r.deep_view() =~= seq![a@, b@]);
    r
}

/// The icons that are shown of a theme, each by its names.
pub fn sample_icons() -> (r: Vec<Vec<String>>)
    ensures
        r.deep_view() == samples(),
{
    let mut r: Vec<Vec<String>> = Vec::new();
    r.push(one("folder"));
    r.push(one("user-home"));
    r.push(either("text-editor", "accessories-text-editor"));
    r.push(either("web-browser", "firefox"));
    r.push(either("utilities-terminal", "terminal"));
    r.push(one("system-file-manager"));
    r.push(one("applications-system"));
    assert(r.deep_view() =~= samples());
    r
}

} // verus!
