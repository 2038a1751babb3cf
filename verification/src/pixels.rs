//! Pictures in memory: rows of pixels of four bytes each, blue, green, red and opacity.

use vstd::prelude::*;
use crate::theme::Color;

verus! {

/// The byte of a colour at a place of a pixel.
pub open spec fn channel(c: Color, k: int) -> u8 {
    if k == 0 {
        c.2
    } else if k == 1 {
        c.1
    } else if k == 2 {
        c.0
    } else {
        c.3
    }
}

/// The bytes of a picture with one pixel replaced.
pub open spec fn with_pixel(buf: Seq<u8>, p: int, c: Color) -> Seq<u8> {
    Seq::new(
        buf.len(),
        |i: int|
            if i / 4 == p {
                channel(c, i % 4)
            } else {
                buf[i]
            },
    )
}

/// The column of a byte in a picture.
pub open spec fn column_at(i: int, bw: int) -> int {
    (i / 4) % bw
}

/// The row of a byte in a picture.
pub open spec fn row_at(i: int, bw: int) -> int {
    (i / 4) / bw
}

/// The bytes of a picture with a rectangle filled.
pub open spec fn filled(buf: Seq<u8>, bw: int, x: int, y: int, rw: int, rh: int, c: Color) -> Seq<u8> {
    Seq::new(
        buf.len(),
        |i: int|
            if x <= column_at(i, bw) < x + rw && y <= row_at(i, bw) < y + rh {
                channel(c, i % 4)
            } else {
                buf[i]
            },
    )
}

/// A pixel is in its row and its column, and no other is.
pub proof fn lemma_pixel(p: int, bw: int, row: int, col: int)
    requires
        0 <= col < bw,
        0 <= p,
        0 <= row,
    ensures
        (p == row * bw + col) <==> (p % bw == col && p / bw == row),
{
    if p == row * bw + col {
        vstd::arithmetic::div_mod::lemma_fundamental_div_mod_converse(p, bw, row, col);
    }
    if p % bw == col && p / bw == row {
        vstd::arithmetic::div_mod::lemma_fundamental_div_mod(p, bw);
        assert(bw * (p / bw) == row * bw) by (nonlinear_arith)
            requires
                p / bw == row,
        ;
    }
}

/// Rows and columns within a picture make a pixel within it.
pub proof fn lemma_within(bw: int, bh: int, row: int, col: int)
    requires
        0 <= col < bw,
        0 <= row < bh,
    ensures
        0 <= row * bw + col < bw * bh,
{
    assert(row * bw + col < bw * bh) by (nonlinear_arith)
        requires
            0 <= col < bw,
            0 <= row < bh,
    ;
    assert(0 <= row * bw) by (nonlinear_arith)
        requires
            0 <= row,
            0 < bw,
    ;
}

/// Replaces a pixel.
fn put_pixel(buf: &mut Vec<u8>, p: usize, c: Color)
    requires
        4 * p + 3 < old(buf).len(),
    ensures
        final(buf)@ == with_pixel(old(buf)@, p as int, c),
{
    let ghost before = buf@;
    let i: usize = 4 * p;
    buf.set(i, c.2);
    buf.set(i + 1, c.1);
    buf.set(i + 2, c.0);
    buf.set(i + 3, c.3);
    assert forall|k: int| 0 <= k < before.len() implies buf@[k] == with_pixel(before, p as int, c)[k] by {
        if k / 4 == p {
            assert(k == i || k == i + 1 || k == i + 2 || k == i + 3);
        } else {
            assert(k != i && k != i + 1 && k != i + 2 && k != i + 3);
        }
    }
    assert(buf@ =~= with_pixel(before, p as int, c));
}

/// The lesser of a number and a limit, and not below zero.
fn held(v: i64, limit: i32) -> (r: usize)
    requires
        0 <= limit,
    ensures
        r == (if v < 0 {
            0
        } else if v > limit {
            limit as int
        } else {
            v as int
        }),
{
    if v < 0 {
        0
    } else if v > limit as i64 {
        limit as usize
    } else {
        v as usize
    }
}

/// Fills a rectangle of a picture, as far as it lies within.
pub fn fill_rect(buf: &mut Vec<u8>, bw: i32, bh: i32, x: i32, y: i32, rw: i32, rh: i32, c: Color)
    requires
        0 < bw,
        0 <= bh,
        old(buf)@.len() == bw * bh * 4,
    ensures
        final(buf)@ == filled(old(buf)@, bw as int, x as int, y as int, rw as int, rh as int, c),
{
    let ghost start = buf@;
    let ghost w = bw as int;
    let x0: usize = held(x as i64, bw);
    let x1: usize = held(x as i64 + rw as i64, bw);
    let y0: usize = held(y as i64, bh);
    let y1: usize = held(y as i64 + rh as i64, bh);
    let mut row: usize = y0;
    assert(w * bh >= 0) by (nonlinear_arith)
        requires
            0 < w,
            0 <= bh,
    ;
    assert(buf@ =~= partly(start, w, x0 as int, x1 as int, y0 as int, row as int, x0 as int, c));
    while row < y1
        invariant
            0 < bw == w,
            0 <= bh,
            start.len() == w * bh * 4,
            x0 <= bw,
            x1 <= bw,
            y0 <= row,
            y1 <= bh,
            y0 <= y1 ==> row <= y1,
            y0 > y1 ==> row == y0,
            buf@ == partly(start, w, x0 as int, x1 as int, y0 as int, row as int, x0 as int, c),
        decreases y1 - row,
    {
        let mut col: usize = x0;
        while col < x1
            invariant
                0 < bw == w,
                0 <= bh,
                start.len() == w * bh * 4,
                x0 <= col,
                x0 <= x1 ==> col <= x1,
                x0 > x1 ==> col == x0,
                x1 <= bw,
                y0 <= row < bh,
                buf@ == partly(start, w, x0 as int, x1 as int, y0 as int, row as int, col as int, c),
            decreases x1 - col,
        {
            proof {
                lemma_within(w, bh as int, row as int, col as int);
                assert(buf@.len() == start.len());
                assert(row * bw <= row * bw + col);
                assert(4 * (row * bw + col) + 3 < start.len());
            }
            let p: usize = pixel_index(row, col, bw as usize, buf.len());
            let ghost before = buf@;
            put_pixel(buf, p, c);
            proof {
                let after = partly(start, w, x0 as int, x1 as int, y0 as int, row as int, col + 1, c);
                assert forall|i: int| 0 <= i < start.len() implies buf@[i] == after[i] by {
                    lemma_pixel(i / 4, w, row as int, col as int);
                }
                assert(buf@ =~= after);
            }
            col += 1;
        }
        proof {
            let after = partly(start, w, x0 as int, x1 as int, y0 as int, row + 1, x0 as int, c);
            assert forall|i: int| 0 <= i < start.len() implies buf@[i] == after[i] by {}
            assert(buf@ =~= after);
        }
        row += 1;
    }
    proof {
        let after = filled(start, w, x as int, y as int, rw as int, rh as int, c);
        assert forall|i: int| 0 <= i < start.len() implies buf@[i] == after[i] by {
            lemma_in_picture(i, w, bh as int);
        }
        assert(buf@ =~= after);
    }
}

/// A byte of a picture is in a row and a column that it has.
pub proof fn lemma_in_picture(i: int, bw: int, bh: int)
    requires
        0 < bw,
        0 <= i < bw * bh * 4,
    ensures
        0 <= column_at(i, bw) < bw,
        0 <= row_at(i, bw) < bh,
{
    let p = i / 4;
    assert(0 <= p < bw * bh);
    assert(0 <= p % bw < bw && 0 <= p / bw && p / bw < bh) by (nonlinear_arith)
        requires
            0 < bw,
            0 <= p < bw * bh,
    ;
}

/// The number of a pixel.
fn pixel_index(row: usize, col: usize, bw: usize, len: usize) -> (p: usize)
    requires
        4 * (row * bw + col) + 3 < len,
    ensures
        p == row * bw + col,
{
    assert(0 <= row * bw) by (nonlinear_arith)
        requires
            0 <= row,
            0 <= bw,
    ;
    row * bw + col
}

/// The bytes of a picture with a rectangle filled up to a pixel: whole rows before the
/// row of the pixel, and in that row the columns before its column.
spec fn partly(
    buf: Seq<u8>,
    bw: int,
    x0: int,
    x1: int,
    y0: int,
    row: int,
    col: int,
    c: Color,
) -> Seq<u8> {
    Seq::new(
        buf.len(),
        |i: int|
            if (y0 <= row_at(i, bw) < row && x0 <= column_at(i, bw) < x1) || (row_at(i, bw) == row && x0
                <= column_at(i, bw) < col) {
                channel(c, i % 4)
            } else {
                buf[i]
            },
    )
}

/// A picture of one colour, all zeros.
pub fn blank(w: i32, h: i32) -> (r: Vec<u8>)
    requires
        0 <= w,
        0 <= h,
        w * h * 4 <= usize::MAX,
    ensures
        r@ == Seq::new((w * h * 4) as nat, |i: int| 0u8),
{
    assert(0 <= w * h) by (nonlinear_arith)
        requires
            0 <= w,
            0 <= h,
    ;
    let n: usize = w as usize * h as usize * 4;
    let mut r: Vec<u8> = Vec::new();
    let mut i: usize = 0;
    while i < n
        invariant
            i <= n,
            r@ == Seq::new(i as nat, |i: int| 0u8),
        decreases n - i,
    {
        r.push(0);
        i += 1;
        assert(r@ =~= Seq::new(i as nat, |i: int| 0u8));
    }
    r
}

// --- opacity ------------------------------------------------------------------------------

/// The bytes of a picture with each colour as strong as its opacity.
pub open spec fn premultiplied(buf: Seq<u8>) -> Seq<u8> {
    Seq::new(
        buf.len(),
        |i: int|
            if i % 4 == 3 || 4 * (i / 4) + 3 >= buf.len() {
                buf[i]
            } else {
                (buf[i] as int * buf[4 * (i / 4) + 3] as int / 255) as u8
            },
    )
}

/// A colour as strong as its opacity.
fn weaken(c: u8, a: u8) -> (r: u8)
    ensures
        r == (c as int * a as int / 255) as u8,
        c as int * a as int / 255 <= 255,
{
    assert(0 <= c * a <= 255 * 255) by (nonlinear_arith)
        requires
            0 <= c <= 255,
            0 <= a <= 255,
    ;
    ((c as u32 * a as u32) / 255) as u8
}

/// Makes each colour of a picture as strong as its opacity.
pub fn premultiply(data: &mut Vec<u8>)
    ensures
        final(data)@ == premultiplied(old(data)@),
{
    let ghost start = data@;
    let mut i: usize = 0;
    let n: usize = data.len();
    while n - i >= 4
        invariant
            i <= n == data.len(),
            n == start.len(),
            i % 4 == 0,
            forall|k: int| 0 <= k < i ==> data@[k] == premultiplied(start)[k],
            forall|k: int| i <= k < n ==> data@[k] == start[k],
        decreases n - i,
    {
        let a: u8 = data[i + 3];
        let b0: u8 = weaken(data[i], a);
        let b1: u8 = weaken(data[i + 1], a);
        let b2: u8 = weaken(data[i + 2], a);
        data.set(i, b0);
        data.set(i + 1, b1);
        data.set(i + 2, b2);
        assert forall|k: int| 0 <= k < i + 4 implies data@[k] == premultiplied(start)[k] by {
            if k >= i {
                assert(k / 4 == i / 4 && 4 * (i / 4) == i);
            }
        }
        i += 4;
    }
    assert forall|k: int| 0 <= k < n implies data@[k] == premultiplied(start)[k] by {
        if k >= i {
            assert(k / 4 == i / 4 && 4 * (i / 4) == i);
        }
    }
    assert(data@ =~= premultiplied(start));
}

/// A colour of full strength again, from one as strong as its opacity.
pub open spec fn strengthened(c: int, a: int) -> int {
    let v = (c * 255 + a / 2) / a;
    if v > 255 {
        255
    } else {
        v
    }
}

/// The bytes of a picture of red, green, blue and opacity, each colour as strong as its
/// opacity, in the order and of the strength that pictures have here. A pixel that is
/// not seen at all stays as it is.
pub open spec fn unpremultiplied(buf: Seq<u8>) -> Seq<u8> {
    Seq::new(
        buf.len(),
        |i: int|
            {
                let at = 4 * (i / 4);
                if i % 4 == 3 || at + 3 >= buf.len() || buf[at + 3] == 0 {
                    buf[i]
                } else {
                    strengthened(buf[at + 2 - i % 4] as int, buf[at + 3] as int) as u8
                }
            },
    )
}

/// A colour of full strength again.
fn strengthen(c: u8, a: u8) -> (r: u8)
    requires
        a > 0,
    ensures
        r == strengthened(c as int, a as int) as u8,
{
    let v: u32 = (c as u32 * 255 + a as u32 / 2) / a as u32;
    if v > 255 {
        255
    } else {
        v as u8
    }
}

/// Turns a picture of red, green, blue and opacity, each colour as strong as its opacity,
/// into the order and the strength that pictures have here.
pub fn unpremultiply(data: &mut Vec<u8>)
    ensures
        final(data)@ == unpremultiplied(old(data)@),
{
    let ghost start = data@;
    let mut i: usize = 0;
    let n: usize = data.len();
    while n - i >= 4
        invariant
            i <= n == data.len(),
            n == start.len(),
            i % 4 == 0,
            forall|k: int| 0 <= k < i ==> data@[k] == unpremultiplied(start)[k],
            forall|k: int| i <= k < n ==> data@[k] == start[k],
        decreases n - i,
    {
        let a: u8 = data[i + 3];
        if a > 0 {
            let r: u8 = strengthen(data[i], a);
            let g: u8 = strengthen(data[i + 1], a);
            let b: u8 = strengthen(data[i + 2], a);
            data.set(i, b);
            data.set(i + 1, g);
            data.set(i + 2, r);
        }
        assert forall|k: int| 0 <= k < i + 4 implies data@[k] == unpremultiplied(start)[k] by {
            if k >= i {
                assert(k / 4 == i / 4 && 4 * (i / 4) == i);
            }
        }
        i += 4;
    }
    assert forall|k: int| 0 <= k < n implies data@[k] == unpremultiplied(start)[k] by {
        if k >= i {
            assert(k / 4 == i / 4 && 4 * (i / 4) == i);
        }
    }
    assert(data@ =~= unpremultiplied(start));
}

/// The bytes of a picture with red and blue in each other's place.
pub open spec fn red_blue_swapped(buf: Seq<u8>) -> Seq<u8> {
    Seq::new(
        buf.len(),
        |i: int|
            {
                let at = 4 * (i / 4);
                if i % 4 == 3 || i % 4 == 1 || at + 3 >= buf.len() {
                    buf[i]
                } else {
                    buf[at + 2 - i % 4]
                }
            },
    )
}

/// Puts red and blue in each other's place.
pub fn swap_red_blue(data: &mut Vec<u8>)
    ensures
        final(data)@ == red_blue_swapped(old(data)@),
{
    let ghost start = data@;
    let mut i: usize = 0;
    let n: usize = data.len();
    while n - i >= 4
        invariant
            i <= n == data.len(),
            n == start.len(),
            i % 4 == 0,
            forall|k: int| 0 <= k < i ==> data@[k] == red_blue_swapped(start)[k],
            forall|k: int| i <= k < n ==> data@[k] == start[k],
        decreases n - i,
    {
        let r: u8 = data[i];
        let b: u8 = data[i + 2];
        data.set(i, b);
        data.set(i + 2, r);
        assert forall|k: int| 0 <= k < i + 4 implies data@[k] == red_blue_swapped(start)[k] by {
            if k >= i {
                assert(k / 4 == i / 4 && 4 * (i / 4) == i);
            }
        }
        i += 4;
    }
    assert forall|k: int| 0 <= k < n implies data@[k] == red_blue_swapped(start)[k] by {
        if k >= i {
            assert(k / 4 == i / 4 && 4 * (i / 4) == i);
        }
    }
    assert(data@ =~= red_blue_swapped(start));
}

// --- laws ---------------------------------------------------------------------------------

/// Filled twice, a rectangle has the second colour.
pub proof fn law_fill_twice(buf: Seq<u8>, bw: int, x: int, y: int, rw: int, rh: int, c: Color, d: Color)
    ensures
        filled(filled(buf, bw, x, y, rw, rh, c), bw, x, y, rw, rh, d) == filled(buf, bw, x, y, rw, rh, d),
{
    assert(filled(filled(buf, bw, x, y, rw, rh, c), bw, x, y, rw, rh, d) =~= filled(
        buf,
        bw,
        x,
        y,
        rw,
        rh,
        d,
    ));
}

/// A picture that is wholly opaque is not changed by its opacity.
pub proof fn law_opaque_stays(buf: Seq<u8>)
    requires
        forall|k: int| 0 <= k && 4 * k + 3 < buf.len() ==> #[trigger] buf[4 * k + 3] == 255u8,
    ensures
        premultiplied(buf) == buf,
{
    assert forall|i: int| 0 <= i < buf.len() implies premultiplied(buf)[i] == buf[i] by {
        if i % 4 != 3 && 4 * (i / 4) + 3 < buf.len() {
            assert(buf[4 * (i / 4) + 3] == 255u8);
            assert(buf[i] as int * 255 / 255 == buf[i] as int);
        }
    }
    assert(premultiplied(buf) =~= buf);
}

/// Red and blue put in each other's place twice are where they were.
pub proof fn law_swap_back(buf: Seq<u8>)
    ensures
        red_blue_swapped(red_blue_swapped(buf)) == buf,
{
    let once = red_blue_swapped(buf);
    assert forall|i: int| 0 <= i < buf.len() implies red_blue_swapped(once)[i] == buf[i] by {
        let at = 4 * (i / 4);
        if (i % 4 == 0 || i % 4 == 2) && at + 3 < buf.len() {
            let j = at + 2 - i % 4;
            assert(j / 4 == i / 4 && j % 4 == 2 - i % 4);
        }
    }
    assert(red_blue_swapped(once) =~= buf);
}

} // verus!
