//! Pictures from files, fitted to a monitor.

use vstd::prelude::*;
use crate::monitor::{divide, quotient};
use crate::pixels::{column_at, lemma_pixel, lemma_within, row_at};
use crate::wallpaper::WallMode;

verus! {

/// A picture: rows of pixels of four bytes each, red, green, blue and opacity.
#[derive(Debug)]
pub struct Image {
    pub width: u32,
    pub height: u32,
    pub rgba: Vec<u8>,
}

/// The longest side that a picture may have to be resized: the places of pixels are worked
/// out in single precision, which cannot tell those of much longer ones apart.
pub const LONGEST: u32 = 0x10_0000;

/// Whether a picture of these sides can be resized to those.
pub open spec fn resizable(w: int, h: int, nw: int, nh: int) -> bool {
    &&& 0 < w <= LONGEST
    &&& 0 < h <= LONGEST
    &&& 0 < nw <= LONGEST
    &&& 0 < nh <= LONGEST
    &&& w * nh * 16 <= isize::MAX
    &&& nw * nh * 4 <= isize::MAX
}

/// Whether a picture of these sides can be resized to those.
pub fn can_resize(w: u32, h: u32, nw: u32, nh: u32) -> (r: bool)
    ensures
        r == resizable(w as int, h as int, nw as int, nh as int),
{
    if w == 0 || w > LONGEST || h == 0 || h > LONGEST || nw == 0 || nw > LONGEST || nh == 0 || nh
        > LONGEST {
        return false;
    }
    assert(0 <= w * nh <= 0x10_0000 * 0x10_0000 && 0 <= nw * nh <= 0x10_0000 * 0x10_0000)
        by (nonlinear_arith)
        requires
            0 < w <= 0x10_0000,
            0 < nw <= 0x10_0000,
            0 < nh <= 0x10_0000,
    ;
    let most: u64 = isize::MAX as u64;
    w as u64 * nh as u64 * 16 <= most && nw as u64 * nh as u64 * 4 <= most
}

impl Image {
    /// There are as many bytes as the sides ask for.
    pub open spec fn wf(self) -> bool {
        self.rgba@.len() == self.width * self.height * 4
    }
}

/// The bytes of a picture resized.
pub uninterp spec fn resized(rgba: Seq<u8>, w: u32, h: u32, nw: u32, nh: u32) -> Seq<u8>;

/// Resizes a picture: `image::imageops::resize` with the triangle filter, on the picture
/// that `image::RgbaImage::from_raw` makes of the bytes. What the pixels are depends on
/// the bytes and the sides alone and is named, not described; there are as many as the
/// new sides ask for.
#[verifier::external_body]
fn resize(rgba: &Vec<u8>, w: u32, h: u32, nw: u32, nh: u32) -> (r: Vec<u8>)
    requires
        rgba@.len() == w * h * 4,
        resizable(w as int, h as int, nw as int, nh as int),
    ensures
        r@ == resized(rgba@, w, h, nw, nh),
        r@.len() == nw * nh * 4,
{
    let img = image::RgbaImage::from_raw(w, h, rgba.clone()).unwrap();
    image::imageops::resize(&img, nw, nh, image::imageops::FilterType::Triangle).into_raw()
}

/// The byte that stands at a place of a pixel here, taken from a pixel of red, green, blue
/// and opacity: nothing is seen through.
pub open spec fn solid(rgba: Seq<u8>, p: int, k: int) -> u8 {
    if k == 3 {
        0xff
    } else {
        rgba[4 * p + 2 - k]
    }
}

/// The bytes of a picture with another one put into it, its corner at `(ox, oy)`.
pub open spec fn blitted(
    data: Seq<u8>,
    dw: int,
    rgba: Seq<u8>,
    iw: int,
    ih: int,
    ox: int,
    oy: int,
) -> Seq<u8> {
    Seq::new(
        data.len(),
        |i: int|
            {
                let x = column_at(i, dw) - ox;
                let y = row_at(i, dw) - oy;
                if 0 <= x < iw && 0 <= y < ih {
                    solid(rgba, y * iw + x, i % 4)
                } else {
                    data[i]
                }
            },
    )
}

/// The bytes of a picture with another one put into it again and again.
pub open spec fn tiled(data: Seq<u8>, dw: int, rgba: Seq<u8>, iw: int, ih: int) -> Seq<u8> {
    Seq::new(
        data.len(),
        |i: int| solid(rgba, (row_at(i, dw) % ih) * iw + column_at(i, dw) % iw, i % 4),
    )
}

/// The bytes of a picture with another one fitted to it; `(nw, nh)` is the size that the
/// other gets where its shape is kept and it is resized.
pub open spec fn fitted(
    data: Seq<u8>,
    dw: i32,
    dh: i32,
    rgba: Seq<u8>,
    w: u32,
    h: u32,
    mode: WallMode,
    nw: u32,
    nh: u32,
) -> Seq<u8> {
    if w == 0 || h == 0 {
        data
    } else {
        match mode {
            WallMode::Stretch => blitted(
                data,
                dw as int,
                resized(rgba, w, h, dw as u32, dh as u32),
                dw as int,
                dh as int,
                0,
                0,
            ),
            WallMode::Fit | WallMode::Fill => blitted(
                data,
                dw as int,
                resized(rgba, w, h, nw, nh),
                nw as int,
                nh as int,
                quotient(dw - nw, 2),
                quotient(dh - nh, 2),
            ),
            WallMode::Center => blitted(
                data,
                dw as int,
                rgba,
                w as int,
                h as int,
                quotient(dw - w, 2),
                quotient(dh - h, 2),
            ),
            WallMode::Tile => tiled(data, dw as int, rgba, w as int, h as int),
        }
    }
}

/// Copies a pixel of red, green, blue and opacity.
fn copy_pixel(data: &mut Vec<u8>, at: usize, rgba: &Vec<u8>, from: usize)
    requires
        4 * at + 3 < old(data).len(),
        4 * from + 3 < rgba.len(),
    ensures
        final(data)@.len() == old(data)@.len(),
        forall|i: int|
            0 <= i < old(data)@.len() ==> (#[trigger] final(data)@[i]) == (if i / 4 == at {
                solid(rgba@, from as int, i % 4)
            } else {
                old(data)@[i]
            }),
{
    let ghost before = data@;
    let (i, j): (usize, usize) = (4 * at, 4 * from);
    data.set(i, rgba[j + 2]);
    data.set(i + 1, rgba[j + 1]);
    data.set(i + 2, rgba[j]);
    data.set(i + 3, 0xff);
    assert forall|k: int| 0 <= k < before.len() implies (#[trigger] data@[k]) == (if k / 4 == at {
        solid(rgba@, from as int, k % 4)
    } else {
        before[k]
    }) by {
        if k / 4 == at {
            assert(k == i || k == i + 1 || k == i + 2 || k == i + 3);
        } else {
            assert(k != i && k != i + 1 && k != i + 2 && k != i + 3);
        }
    }
}

/// Where a row or a column of the one picture is in the other; none where it is not.
fn shifted(v: usize, off: i64, size: u32) -> (r: Option<usize>)
    requires
        v <= i32::MAX,
        -0x1_0000_0000 <= off <= 0x1_0000_0000,
    ensures
        match r {
            Some(k) => k == v - off && 0 <= v - off < size,
            None => !(0 <= v - off < size),
        },
{
    let k: i64 = v as i64 - off;
    if 0 <= k && k < size as i64 {
        Some(k as usize)
    } else {
        None
    }
}

/// Puts a picture into another, its corner at `(ox, oy)`.
pub fn blit(data: &mut Vec<u8>, dw: i32, dh: i32, rgba: &Vec<u8>, iw: u32, ih: u32, ox: i64, oy: i64)
    requires
        0 < dw,
        0 <= dh,
        old(data)@.len() == dw * dh * 4,
        rgba@.len() == iw * ih * 4,
        -0x1_0000_0000 <= ox <= 0x1_0000_0000,
        -0x1_0000_0000 <= oy <= 0x1_0000_0000,
    ensures
        final(data)@ == blitted(
            old(data)@,
            dw as int,
            rgba@,
            iw as int,
            ih as int,
            ox as int,
            oy as int,
        ),
{
    let ghost start = data@;
    let ghost w = dw as int;
    let ghost goal = blitted(start, w, rgba@, iw as int, ih as int, ox as int, oy as int);
    assert(w * dh >= 0) by (nonlinear_arith)
        requires
            0 < w,
            0 <= dh,
    ;
    let n: usize = data.len() / 4;
    let mut p: usize = 0;
    let mut col: usize = 0;
    let mut row: usize = 0;
    while p < n
        invariant
            p <= n,
            n == w * dh,
            data.len() == start.len() == 4 * n,
            0 < dw == w,
            0 <= dh,
            0 <= col < dw,
            0 <= row <= dh,
            p == row * w + col,
            rgba@.len() == iw * ih * 4,
            -0x1_0000_0000 <= ox <= 0x1_0000_0000,
            -0x1_0000_0000 <= oy <= 0x1_0000_0000,
            goal == blitted(start, w, rgba@, iw as int, ih as int, ox as int, oy as int),
            forall|i: int| 0 <= i < 4 * p ==> data@[i] == goal[i],
            forall|i: int| 4 * p <= i < start.len() ==> data@[i] == start[i],
        decreases n - p,
    {
        assert(row < dh) by (nonlinear_arith)
            requires
                p == row * w + col,
                p < w * dh,
                0 <= col,
                0 < w,
        ;
        let ghost before = data@;
        proof {
            lemma_pixel(p as int, w, row as int, col as int);
        }
        if let Some(x) = shifted(col, ox, iw) {
            if let Some(y) = shifted(row, oy, ih) {
                proof {
                    lemma_within(iw as int, ih as int, y as int, x as int);
                    assert(y * iw >= 0) by (nonlinear_arith)
                        requires
                            y >= 0,
                            iw >= 0,
                    ;
                    assert(4 * (y * iw + x) + 3 < rgba.len());
                }
                let from: usize = y * iw as usize + x;
                copy_pixel(data, p, rgba, from);
            }
        }
        assert forall|i: int| 0 <= i < 4 * (p + 1) implies data@[i] == goal[i] by {
            if i >= 4 * p {
                assert(i / 4 == p);
            } else {
                assert(i / 4 != p);
                assert(data@[i] == before[i]);
            }
        }
        assert forall|i: int| 4 * (p + 1) <= i < start.len() implies data@[i] == start[i] by {
            assert(i / 4 != p);
            assert(data@[i] == before[i]);
        }
        p += 1;
        col += 1;
        if col == dw as usize {
            assert((row + 1) * w == row * w + w) by (nonlinear_arith);
            col = 0;
            row += 1;
        }
    }
    assert(data@ =~= goal);
}

/// Puts a picture into another again and again.
fn tile_over(data: &mut Vec<u8>, dw: i32, dh: i32, rgba: &Vec<u8>, iw: u32, ih: u32)
    requires
        0 < dw,
        0 <= dh,
        0 < iw,
        0 < ih,
        old(data)@.len() == dw * dh * 4,
        rgba@.len() == iw * ih * 4,
    ensures
        final(data)@ == tiled(old(data)@, dw as int, rgba@, iw as int, ih as int),
{
    let ghost start = data@;
    let ghost w = dw as int;
    let ghost goal = tiled(start, w, rgba@, iw as int, ih as int);
    assert(w * dh >= 0) by (nonlinear_arith)
        requires
            0 < w,
            0 <= dh,
    ;
    let n: usize = data.len() / 4;
    let mut p: usize = 0;
    let mut col: usize = 0;
    let mut row: usize = 0;
    while p < n
        invariant
            p <= n,
            n == w * dh,
            data.len() == start.len() == 4 * n,
            0 < dw == w,
            0 <= dh,
            0 < iw,
            0 < ih,
            0 <= col < dw,
            0 <= row <= dh,
            p == row * w + col,
            rgba@.len() == iw * ih * 4,
            goal == tiled(start, w, rgba@, iw as int, ih as int),
            forall|i: int| 0 <= i < 4 * p ==> data@[i] == goal[i],
        decreases n - p,
    {
        assert(row < dh) by (nonlinear_arith)
            requires
                p == row * w + col,
                p < w * dh,
                0 <= col,
                0 < w,
        ;
        let ghost before = data@;
        let x: usize = col % iw as usize;
        let y: usize = row % ih as usize;
        proof {
            lemma_pixel(p as int, w, row as int, col as int);
            lemma_within(iw as int, ih as int, y as int, x as int);
            assert(y * iw >= 0) by (nonlinear_arith)
                requires
                    y >= 0,
                    iw >= 0,
            ;
            assert(4 * (y * iw + x) + 3 < rgba.len());
        }
        let from: usize = y * iw as usize + x;
        copy_pixel(data, p, rgba, from);
        assert forall|i: int| 0 <= i < 4 * (p + 1) implies data@[i] == goal[i] by {
            if i >= 4 * p {
                assert(i / 4 == p);
            } else {
                assert(i / 4 != p);
                assert(data@[i] == before[i]);
            }
        }
        p += 1;
        col += 1;
        if col == dw as usize {
            assert((row + 1) * w == row * w + w) by (nonlinear_arith);
            col = 0;
            row += 1;
        }
    }
    assert(data@ =~= goal);
}

/// Fits a picture to another; `(nw, nh)` is the size that it gets where its shape is kept
/// and it is resized.
pub fn draw_image(data: &mut Vec<u8>, dw: i32, dh: i32, src: &Image, mode: WallMode, nw: u32, nh: u32)
    requires
        0 < dw,
        0 < dh,
        old(data)@.len() == dw * dh * 4,
        src.wf(),
        src.width > 0 && src.height > 0 && mode == WallMode::Stretch ==> resizable(
            src.width as int,
            src.height as int,
            dw as int,
            dh as int,
        ),
        src.width > 0 && src.height > 0 && (mode == WallMode::Fit || mode == WallMode::Fill)
            ==> resizable(src.width as int, src.height as int, nw as int, nh as int),
    ensures
        final(data)@ == fitted(
            old(data)@,
            dw,
            dh,
            src.rgba@,
            src.width,
            src.height,
            mode,
            nw,
            nh,
        ),
{
    let (w, h): (u32, u32) = (src.width, src.height);
    if w == 0 || h == 0 {
        return;
    }
    match mode {
        WallMode::Stretch => {
            let r = resize(&src.rgba, w, h, dw as u32, dh as u32);
            blit(data, dw, dh, &r, dw as u32, dh as u32, 0, 0);
        },
        WallMode::Fit | WallMode::Fill => {
            let r = resize(&src.rgba, w, h, nw, nh);
            let ox: i64 = divide(dw as i128 - nw as i128, 2) as i64;
            let oy: i64 = divide(dh as i128 - nh as i128, 2) as i64;
            blit(data, dw, dh, &r, nw, nh, ox, oy);
        },
        WallMode::Center => {
            let ox: i64 = divide(dw as i128 - w as i128, 2) as i64;
            let oy: i64 = divide(dh as i128 - h as i128, 2) as i64;
            blit(data, dw, dh, &src.rgba, w, h, ox, oy);
        },
        WallMode::Tile => {
            tile_over(data, dw, dh, &src.rgba, w, h);
        },
    }
}

} // verus!
