//! Square RGBA pixel buffers: reading and writing one pixel, and the
//! arithmetic facts about pixel offsets.

use vstd::prelude::*;
use crate::color::Color;

verus! {

/// Byte offset of pixel `(x, y)` in a row-major RGBA buffer `w` pixels wide.
pub open spec fn pixel_offset(w: int, x: int, y: int) -> int {
    (y * w + x) * 4
}

/// The color stored at pixel `(x, y)` of a row-major RGBA buffer `w` pixels wide.
pub open spec fn color_at(buf: Seq<u8>, w: int, x: int, y: int) -> Color {
    let o = pixel_offset(w, x, y);
    Color { r: buf[o], g: buf[o + 1], b: buf[o + 2], a: buf[o + 3] }
}

pub proof fn lemma_pixel_in_bounds(w: int, h: int, x: int, y: int)
    requires
        0 <= x < w,
        0 <= y < h,
    ensures
        0 <= pixel_offset(w, x, y),
        pixel_offset(w, x, y) + 4 <= w * h * 4,
{
    assert(0 <= y * w) by (nonlinear_arith)
        requires
            0 <= y,
            0 <= w,
    ;
    assert(y * w + x < w * h) by (nonlinear_arith)
        requires
            0 <= x < w,
            0 <= y < h,
    ;
}

/// Two different pixels of a buffer occupy disjoint four-byte ranges.
pub proof fn lemma_pixels_disjoint(w: int, x1: int, y1: int, x2: int, y2: int)
    requires
        0 <= x1 < w,
        0 <= x2 < w,
        0 <= y1,
        0 <= y2,
        x1 != x2 || y1 != y2,
    ensures
        pixel_offset(w, x1, y1) + 4 <= pixel_offset(w, x2, y2) || pixel_offset(w, x2, y2) + 4
            <= pixel_offset(w, x1, y1),
{
    if y1 == y2 {
    } else if y1 < y2 {
        assert(y1 * w + x1 < y2 * w + x2) by (nonlinear_arith)
            requires
                0 <= x1 < w,
                0 <= x2,
                y1 < y2,
        ;
    } else {
        assert(y2 * w + x2 < y1 * w + x1) by (nonlinear_arith)
            requires
                0 <= x2 < w,
                0 <= x1,
                y2 < y1,
        ;
    }
}

/// The color stored at pixel `(x, y)` of a buffer `w` pixels wide.
pub fn get_pixel(buf: &Vec<u8>, w: usize, h: usize, x: usize, y: usize) -> (c: Color)
    requires
        buf@.len() >= w * h * 4,
        x < w,
        y < h,
    ensures
        c == color_at(buf@, w as int, x as int, y as int),
{
    proof {
        lemma_pixel_in_bounds(w as int, h as int, x as int, y as int);
    }
    let len = buf.len();
    let o = (y * w + x) * 4;
    Color { r: buf[o], g: buf[o + 1], b: buf[o + 2], a: buf[o + 3] }
}

/// Writes `color` to pixel `(x, y)` of a buffer `w` by `h` pixels.
pub fn set_pixel(buf: &mut Vec<u8>, w: usize, h: usize, x: usize, y: usize, color: Color)
    requires
        old(buf)@.len() == w * h * 4,
        x < w,
        y < h,
    ensures
        final(buf)@.len() == old(buf)@.len(),
        color_at(final(buf)@, w as int, x as int, y as int) == color,
        forall|px: int, py: int|
            0 <= px < w && 0 <= py < h && (px != x || py != y) ==> #[trigger] color_at(
                final(buf)@,
                w as int,
                px,
                py,
            ) == color_at(old(buf)@, w as int, px, py),
{
    proof {
        lemma_pixel_in_bounds(w as int, h as int, x as int, y as int);
    }
    let len = buf.len();
    let o = (y * w + x) * 4;
    buf[o] = color.r;
    buf[o + 1] = color.g;
    buf[o + 2] = color.b;
    buf[o + 3] = color.a;
    assert forall|px: int, py: int|
        0 <= px < w && 0 <= py < h && (px != x || py != y) implies #[trigger] color_at(
            buf@,
            w as int,
            px,
            py,
        ) == color_at(old(buf)@, w as int, px, py) by {
        lemma_pixels_disjoint(w as int, px, py, x as int, y as int);
        lemma_pixel_in_bounds(w as int, h as int, px, py);
    }
}

/// Pixel `(px, py)` lies in the `w` by `h` rectangle whose top-left pixel is `(x, y)`.
pub open spec fn in_rect(px: int, py: int, x: int, y: int, w: int, h: int) -> bool {
    x <= px < x + w && y <= py < y + h
}

/// Channel `k` of a color: red, green, blue, alpha for 0 to 3.
pub open spec fn channel(c: Color, k: int) -> u8 {
    if k == 0 {
        c.r
    } else if k == 1 {
        c.g
    } else if k == 2 {
        c.b
    } else {
        c.a
    }
}

/// Pixel number `q` of a buffer with rows of `stride` pixels is written by
/// filling the `w` by `h` rectangle at `(x, y)` up to (not including) pixel
/// `col_end` of row `row_end`, row by row. A rectangle wider than the rows
/// wraps onto the following rows.
pub open spec fn rect_filled(stride: int, x: int, y: int, w: int, row_end: int, col_end: int, q: int) -> bool {
    exists|r: int, c: int|
        #![trigger r * stride + c]
        y <= r && x <= c < x + w && (r < row_end || (r == row_end && c < col_end)) && r * stride + c == q
}

/// Pixel number `q` lies in the `w` by `h` rectangle at `(x, y)` of a buffer
/// with rows of `stride` pixels.
pub open spec fn rect_covers(stride: int, x: int, y: int, w: int, h: int, q: int) -> bool {
    rect_filled(stride, x, y, w, y + h, x, q)
}

/// In a square buffer, a rectangle inside it covers exactly the pixels in
/// the rectangle.
proof fn lemma_covers_in_square(stride: int, x: int, y: int, w: int, h: int, px: int, py: int)
    requires
        0 <= x,
        0 <= y,
        0 <= w,
        0 <= h,
        x + w <= stride,
        0 <= px < stride,
        0 <= py,
    ensures
        rect_covers(stride, x, y, w, h, py * stride + px) <==> in_rect(px, py, x, y, w, h),
{
    let q = py * stride + px;
    if in_rect(px, py, x, y, w, h) {
        assert(y <= py && x <= px < x + w && py < y + h && py * stride + px == q);
    }
    if rect_covers(stride, x, y, w, h, q) {
        let (r, c) = choose|r: int, c: int|
            #![trigger r * stride + c]
            y <= r && x <= c < x + w && (r < y + h || (r == y + h && c < x)) && r * stride + c == q;
        if r < py {
            assert(r * stride + c < py * stride + px) by (nonlinear_arith)
                requires r < py, 0 <= c < stride, 0 <= px;
        } else if r > py {
            assert(r * stride + c > py * stride + px) by (nonlinear_arith)
                requires r > py, py >= 0, 0 <= c, 0 <= px < stride;
        }
        assert(r == py && c == px);
    }
}

/// A rectangle inside a square buffer ends inside the buffer.
pub proof fn lemma_square_rect_in_bounds(stride: int, x: int, y: int, w: int, h: int)
    requires
        0 <= x,
        0 <= y,
        0 <= w,
        0 <= h,
        x + w <= stride,
        y + h <= stride,
    ensures
        w > 0 && h > 0 ==> ((y + h - 1) * stride + x + w - 1) * 4 + 3 < stride * stride * 4,
{
    if w > 0 && h > 0 {
        assert((y + h - 1) * stride + x + w - 1 < stride * stride) by (nonlinear_arith)
            requires
                y + h - 1 < stride,
                x + w - 1 < stride,
                0 <= y + h - 1,
                0 <= x + w - 1,
        ;
    }
}

/// Fill a rectangle in the RGBA buffer: every pixel `(col, row)` with
/// `x <= col < x + w` and `y <= row < y + h`, at byte offset
/// `(row * stride + col) * 4`, gets the color.
pub fn fill_rect(
    pixels: &mut Vec<u8>,
    stride: usize,
    x: usize,
    y: usize,
    w: usize,
    h: usize,
    color: Color,
)
    requires
        x + w <= usize::MAX,
        y + h <= usize::MAX,
        w > 0 && h > 0 ==> ((y + h - 1) * stride + x + w - 1) * 4 + 3 < old(pixels)@.len(),
    ensures
        final(pixels)@.len() == old(pixels)@.len(),
        forall|b: int|
            0 <= b < old(pixels)@.len() ==> #[trigger] final(pixels)@[b] == if rect_covers(
                stride as int,
                x as int,
                y as int,
                w as int,
                h as int,
                b / 4,
            ) {
                channel(color, b % 4)
            } else {
                old(pixels)@[b]
            },
        // In a square buffer with the rectangle inside it, pixel by pixel:
        old(pixels)@.len() == stride * stride * 4 && x + w <= stride && y + h <= stride ==> forall|
            px: int,
            py: int,
        |
            0 <= px < stride && 0 <= py < stride ==> #[trigger] color_at(final(pixels)@, stride as int, px, py)
                == if in_rect(px, py, x as int, y as int, w as int, h as int) {
                color
            } else {
                color_at(old(pixels)@, stride as int, px, py)
            },
{
    let ghost start = pixels@;
    let ghost si = stride as int;
    let mut row = y;
    while row < y + h
        invariant
            y <= row <= y + h,
            x + w <= usize::MAX,
            y + h <= usize::MAX,
            si == stride as int,
            w > 0 && h > 0 ==> ((y + h - 1) * stride + x + w - 1) * 4 + 3 < start.len(),
            pixels@.len() == start.len(),
            forall|b: int|
                0 <= b < start.len() ==> #[trigger] pixels@[b] == if rect_filled(
                    si,
                    x as int,
                    y as int,
                    w as int,
                    row as int,
                    x as int,
                    b / 4,
                ) {
                    channel(color, b % 4)
                } else {
                    start[b]
                },
        decreases y + h - row,
    {
        let mut col = x;
        while col < x + w
            invariant
                y <= row < y + h,
                x <= col <= x + w,
                x + w <= usize::MAX,
                y + h <= usize::MAX,
                si == stride as int,
                w > 0 && h > 0 ==> ((y + h - 1) * stride + x + w - 1) * 4 + 3 < start.len(),
                pixels@.len() == start.len(),
                forall|b: int|
                    0 <= b < start.len() ==> #[trigger] pixels@[b] == if rect_filled(
                        si,
                        x as int,
                        y as int,
                        w as int,
                        row as int,
                        col as int,
                        b / 4,
                    ) {
                        channel(color, b % 4)
                    } else {
                        start[b]
                    },
            decreases x + w - col,
        {
            assert((row * stride + col) * 4 + 3 <= ((y + h - 1) * stride + x + w - 1) * 4 + 3) by (nonlinear_arith)
                requires
                    row <= y + h - 1,
                    col <= x + w - 1,
                    stride >= 0,
            ;
            let len = pixels.len();
            assert((row * stride + col) * 4 + 3 < len);
            let q = row * stride + col;
            let offset = q * 4;
            let ghost before = pixels@;
            pixels.set(offset, color.r);
            pixels.set(offset + 1, color.g);
            pixels.set(offset + 2, color.b);
            pixels.set(offset + 3, color.a);
            assert forall|b: int| 0 <= b < start.len() implies #[trigger] pixels@[b] == if rect_filled(
                si,
                x as int,
                y as int,
                w as int,
                row as int,
                col + 1,
                b / 4,
            ) {
                channel(color, b % 4)
            } else {
                start[b]
            } by {
                let qb = b / 4;
                let now = rect_filled(si, x as int, y as int, w as int, row as int, col + 1, qb);
                let was = rect_filled(si, x as int, y as int, w as int, row as int, col as int, qb);
                if qb == q {
                    assert(row as int * si + col as int == qb);
                    assert(now);
                    assert(offset <= b < offset + 4);
                } else {
                    assert(b < offset || b >= offset + 4);
                    assert(pixels@[b] == before[b]);
                    if now {
                        let (r, c) = choose|r: int, c: int|
                            #![trigger r * si + c]
                            y <= r && x <= c < x + w && (r < row || (r == row && c < col + 1)) && r * si + c == qb;
                        if r == row && c == col {
                            assert(false);
                        }
                        assert(was);
                    }
                    if was {
                        let (r, c) = choose|r: int, c: int|
                            #![trigger r * si + c]
                            y <= r && x <= c < x + w && (r < row || (r == row && c < col)) && r * si + c == qb;
                        assert(now);
                    }
                }
            }
            col = col + 1;
        }
        assert forall|b: int| 0 <= b < start.len() implies #[trigger] pixels@[b] == if rect_filled(
            si,
            x as int,
            y as int,
            w as int,
            row + 1,
            x as int,
            b / 4,
        ) {
            channel(color, b % 4)
        } else {
            start[b]
        } by {
            let qb = b / 4;
            let now = rect_filled(si, x as int, y as int, w as int, row + 1, x as int, qb);
            let was = rect_filled(si, x as int, y as int, w as int, row as int, (x + w) as int, qb);
            if now {
                let (r, c) = choose|r: int, c: int|
                    #![trigger r * si + c]
                    y <= r && x <= c < x + w && (r < row + 1 || (r == row + 1 && c < x)) && r * si + c == qb;
                assert(was);
            }
            if was {
                let (r, c) = choose|r: int, c: int|
                    #![trigger r * si + c]
                    y <= r && x <= c < x + w && (r < row || (r == row && c < x + w)) && r * si + c == qb;
                assert(now);
            }
        }
        row = row + 1;
    }
    proof {
        if start.len() == stride * stride * 4 && x + w <= stride && y + h <= stride {
            assert forall|px: int, py: int|
                0 <= px < stride && 0 <= py < stride implies #[trigger] color_at(pixels@, stride as int, px, py)
                    == if in_rect(px, py, x as int, y as int, w as int, h as int) {
                    color
                } else {
                    color_at(start, stride as int, px, py)
                } by {
                lemma_pixel_in_bounds(stride as int, stride as int, px, py);
                lemma_covers_in_square(stride as int, x as int, y as int, w as int, h as int, px, py);
                let o = pixel_offset(stride as int, px, py);
                let qq = py * stride + px;
                assert(o == qq * 4);
                assert(o / 4 == qq && (o + 1) / 4 == qq && (o + 2) / 4 == qq && (o + 3) / 4 == qq);
                assert(o % 4 == 0 && (o + 1) % 4 == 1 && (o + 2) % 4 == 2 && (o + 3) % 4 == 3);
                assert(pixels@[o] == if rect_covers(stride as int, x as int, y as int, w as int, h as int, qq) {
                    channel(color, 0)
                } else {
                    start[o]
                });
                assert(pixels@[o + 1] == if rect_covers(stride as int, x as int, y as int, w as int, h as int, qq) {
                    channel(color, 1)
                } else {
                    start[o + 1]
                });
                assert(pixels@[o + 2] == if rect_covers(stride as int, x as int, y as int, w as int, h as int, qq) {
                    channel(color, 2)
                } else {
                    start[o + 2]
                });
                assert(pixels@[o + 3] == if rect_covers(stride as int, x as int, y as int, w as int, h as int, qq) {
                    channel(color, 3)
                } else {
                    start[o + 3]
                });
            }
        }
    }
}

} // verus!
