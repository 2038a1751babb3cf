//! Pictures of wallpapers, and where the pixels of icons and letters go.

use vstd::prelude::*;
use crate::images::{can_resize, draw_image, fitted, resizable, Image};
use crate::pixels::{blank, fill_rect, filled};
use crate::theme::Color;
use crate::wallpaper::{WallMode, WallpaperContent};

verus! {

/// The bytes of a picture that shows nothing.
pub open spec fn nothing(w: int, h: int) -> Seq<u8> {
    Seq::new((w * h * 4) as nat, |i: int| 0u8)
}

/// The bytes of a picture of one colour.
pub open spec fn plain_picture(w: int, h: int, c: Color) -> Seq<u8> {
    filled(nothing(w, h), w, 0, 0, w, h, c)
}

/// The bytes of the picture of a wallpaper: its colour, or its image over black; black
/// alone where the image could not be read. `(nw, nh)` is the size that the image gets
/// where its shape is kept and it is resized.
pub open spec fn wallpaper_picture(
    content: WallpaperContent,
    w: i32,
    h: i32,
    img: Option<Image>,
    nw: u32,
    nh: u32,
) -> Seq<u8> {
    match content {
        WallpaperContent::Color(c) => plain_picture(w as int, h as int, c),
        WallpaperContent::Image { path, mode } => {
            let black = plain_picture(w as int, h as int, (0u8, 0u8, 0u8, 0xffu8));
            match img {
                Some(i) => fitted(black, w, h, i.rgba@, i.width, i.height, mode, nw, nh),
                None => black,
            }
        },
    }
}

/// Whether an image can be fitted to a picture of the size.
pub open spec fn fits(i: Image, mode: WallMode, w: i32, h: i32, nw: u32, nh: u32) -> bool {
    &&& i.wf()
    &&& i.width > 0 && i.height > 0 && mode == WallMode::Stretch ==> resizable(
        i.width as int,
        i.height as int,
        w as int,
        h as int,
    )
    &&& i.width > 0 && i.height > 0 && (mode == WallMode::Fit || mode == WallMode::Fill)
        ==> resizable(i.width as int, i.height as int, nw as int, nh as int)
}

/// Whether an image can be fitted to a picture of the size; `(nw, nh)` is the size that
/// it gets where its shape is kept and it is resized.
pub fn image_fits(i: &Image, mode: WallMode, w: i32, h: i32, nw: u32, nh: u32) -> (r: bool)
    ensures
        r == fits(*i, mode, w, h, nw, nh),
{
    assert(0 <= i.width * i.height <= 0xffff_ffff * 0xffff_ffff) by (nonlinear_arith)
        requires
            0 <= i.width <= 0xffff_ffff,
            0 <= i.height <= 0xffff_ffff,
    ;
    if i.rgba.len() as u128 != i.width as u128 * i.height as u128 * 4 {
        return false;
    }
    if i.width == 0 || i.height == 0 {
        return true;
    }
    match mode {
        WallMode::Stretch => w > 0 && h > 0 && can_resize(i.width, i.height, w as u32, h as u32),
        WallMode::Fit | WallMode::Fill => can_resize(i.width, i.height, nw, nh),
        _ => true,
    }
}

/// Paints the picture of a wallpaper.
pub fn render_wallpaper_pixels(
    content: &WallpaperContent,
    w: i32,
    h: i32,
    img: Option<Image>,
    nw: u32,
    nh: u32,
) -> (r: Vec<u8>)
    requires
        0 < w,
        0 < h,
        w * h * 4 <= usize::MAX,
        (content, img) matches (WallpaperContent::Image { mode, .. }, Some(i)) ==> fits(
            i,
            *mode,
            w,
            h,
            nw,
            nh,
        ),
    ensures
        r@ == wallpaper_picture(*content, w, h, img, nw, nh),
{
    assert(0 <= w * h) by (nonlinear_arith)
        requires
            0 < w,
            0 < h,
    ;
    let mut data = blank(w, h);
    match content {
        WallpaperContent::Color(c) => {
            fill_rect(&mut data, w, h, 0, 0, w, h, *c);
        },
        WallpaperContent::Image { path, mode } => {
            fill_rect(&mut data, w, h, 0, 0, w, h, (0, 0, 0, 0xff));
            if let Some(i) = &img {
                draw_image(&mut data, w, h, i, *mode, nw, nh);
            }
        },
    }
    data
}

/// Where the bytes of a pixel start, where it lies within the picture.
pub open spec fn pixel_start(bw: int, bh: int, x: int, y: int) -> Option<int> {
    if 0 <= x < bw && 0 <= y < bh {
        Some((y * bw + x) * 4)
    } else {
        None
    }
}

/// A pixel within a picture has all of its bytes.
pub proof fn law_pixel_within(bw: int, bh: int, x: int, y: int)
    ensures
        pixel_start(bw, bh, x, y) matches Some(i) ==> 0 <= i && i + 4 <= bw * bh * 4,
{
    if 0 <= x < bw && 0 <= y < bh {
        assert(0 <= y * bw && y * bw + x + 1 <= bw * bh) by (nonlinear_arith)
            requires
                0 <= x < bw,
                0 <= y < bh,
        ;
    }
}

/// Tells where the bytes of a pixel start, in a picture of `len` bytes.
pub fn pixel_at(bw: i32, bh: i32, len: usize, x: i64, y: i64) -> (r: Option<usize>)
    requires
        len == bw * bh * 4,
    ensures
        match r {
            Some(i) => pixel_start(bw as int, bh as int, x as int, y as int) == Some(i as int) && i + 4 <= len,
            None => pixel_start(bw as int, bh as int, x as int, y as int) is None,
        },
{
    if x < 0 || y < 0 || x >= bw as i64 || y >= bh as i64 {
        return None;
    }
    proof {
        law_pixel_within(bw as int, bh as int, x as int, y as int);
        assert(0 <= y * bw <= y * bw + x) by (nonlinear_arith)
            requires
                0 <= x,
                0 <= y,
                0 <= bw,
        ;
    }
    Some((y as usize * bw as usize + x as usize) * 4)
}

/// The pixel of an icon that is seen at a place of a square of the size.
pub open spec fn seen_at(at: int, side: int, size: int) -> int {
    at * side / size
}

/// Which pixel of an icon, by where its bytes start, goes to which pixel of a picture, for
/// the first `n` places of the square that it is drawn in.
pub open spec fn samples(
    dw: int,
    dh: int,
    x: int,
    y: int,
    size: int,
    iw: int,
    ih: int,
    len: int,
    n: nat,
) -> Seq<(usize, usize)>
    decreases n,
{
    if n == 0 {
        Seq::empty()
    } else {
        let before = samples(dw, dh, x, y, size, iw, ih, len, (n - 1) as nat);
        let (ox, oy) = ((n - 1) % size, (n - 1) / size);
        let from = (seen_at(oy, ih, size) * iw + seen_at(ox, iw, size)) * 4;
        match pixel_start(dw, dh, x + ox, y + oy) {
            Some(to) => if from + 3 < len {
                before.push((to as usize, from as usize))
            } else {
                before
            },
            None => before,
        }
    }
}

/// What is seen at a place lies within the icon.
proof fn lemma_seen(at: int, side: int, size: int)
    requires
        0 <= at < size,
        0 < side,
    ensures
        0 <= seen_at(at, side, size) < side,
        0 <= at * side,
{
    assert(0 <= at * side && at * side < side * size) by (nonlinear_arith)
        requires
            0 <= at < size,
            0 < side,
    ;
    assert(0 <= at * side / size < side) by (nonlinear_arith)
        requires
            0 <= at * side < side * size,
            0 < size,
    ;
}

/// Whether an icon of these sides can be drawn in a square of the size.
pub open spec fn drawable(size: i32, iw: u32, ih: u32) -> bool {
    size > 0 && 0 < iw <= i32::MAX && 0 < ih <= i32::MAX
}

/// Tells which pixel of an icon of `len` bytes goes to which pixel of a picture of
/// `total` bytes, for an icon that is drawn in a square.
pub fn icon_samples(
    dw: i32,
    dh: i32,
    total: usize,
    x: i32,
    y: i32,
    size: i32,
    iw: u32,
    ih: u32,
    len: usize,
) -> (r: Vec<(usize, usize)>)
    requires
        total == dw * dh * 4,
    ensures
        !drawable(size, iw, ih) ==> r@.len() == 0,
        drawable(size, iw, ih) ==> r@ == samples(
            dw as int,
            dh as int,
            x as int,
            y as int,
            size as int,
            iw as int,
            ih as int,
            len as int,
            (size * size) as nat,
        ),
{
    let mut r: Vec<(usize, usize)> = Vec::new();
    if size <= 0 || iw == 0 || ih == 0 || iw > 0x7fff_ffff || ih > 0x7fff_ffff {
        return r;
    }
    assert(0 < size * size <= 0x7fff_ffff * 0x7fff_ffff) by (nonlinear_arith)
        requires
            0 < size <= 0x7fff_ffff,
    ;
    let mut oy: i64 = 0;
    let mut ox: i64 = 0;
    let n: i64 = size as i64 * size as i64;
    let mut i: i64 = 0;
    while i < n
        invariant
            0 < size,
            0 < iw <= 0x7fff_ffff,
            0 < ih <= 0x7fff_ffff,
            total == dw * dh * 4,
            0 <= i <= n == size * size,
            0 <= ox < size,
            0 <= oy <= size,
            i == oy * size + ox,
            r@ == samples(
                dw as int,
                dh as int,
                x as int,
                y as int,
                size as int,
                iw as int,
                ih as int,
                len as int,
                i as nat,
            ),
        decreases n - i,
    {
        proof {
            vstd::arithmetic::div_mod::lemma_fundamental_div_mod_converse(
                i as int,
                size as int,
                oy as int,
                ox as int,
            );
            assert(oy < size) by (nonlinear_arith)
                requires
                    i == oy * size + ox,
                    i < size * size,
                    0 <= ox,
                    0 < size,
            ;
            lemma_seen(oy as int, ih as int, size as int);
            lemma_seen(ox as int, iw as int, size as int);
            assert(oy * ih <= 0x7fff_ffff * 0x7fff_ffff && ox * iw <= 0x7fff_ffff * 0x7fff_ffff) by (nonlinear_arith)
                requires
                    0 <= oy < 0x7fff_ffff,
                    0 <= ox < 0x7fff_ffff,
                    0 < ih <= 0x7fff_ffff,
                    0 < iw <= 0x7fff_ffff,
            ;
        }
        let sy: i64 = oy * ih as i64 / size as i64;
        let sx: i64 = ox * iw as i64 / size as i64;
        assert(0 <= sy * iw <= 0x7fff_ffff * 0x7fff_ffff) by (nonlinear_arith)
            requires
                0 <= sy < 0x7fff_ffff,
                0 < iw <= 0x7fff_ffff,
        ;
        let from: i128 = (sy as i128 * iw as i128 + sx as i128) * 4;
        if let Some(to) = pixel_at(dw, dh, total, x as i64 + ox, y as i64 + oy) {
            if from + 3 < len as i128 {
                r.push((to, from as usize));
            }
        }
        i += 1;
        ox += 1;
        if ox == size as i64 {
            ox = 0;
            assert((oy + 1) * size == oy * size + size) by (nonlinear_arith);
            oy += 1;
        }
    }
    r
}

} // verus!
