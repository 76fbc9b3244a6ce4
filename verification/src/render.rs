//! Module-aligned rendering of QR matrices into RGBA buffers.

use vstd::prelude::*;
use vstd::string::*;
use image::ImageEncoder;
use crate::color::Color;
use crate::pixels::{color_at, fill_rect, get_pixel, in_rect, lemma_square_rect_in_bounds, pixel_offset, set_pixel};
use crate::qr_matrix::{QrMatrix, QrModules};
use crate::logo::{LogoClearShape, LogoOverlay, logo_side, overlay_fits};
use crate::error::Error;
use crate::correction::CorrectionLevel;
use crate::qr_matrix::qr_symbol;
use crate::text::{to_ascii_uppercase, upper_bytes};

verus! {

/// Source coordinate that nearest-neighbor scaling from `src` to `dst`
/// pixels reads for destination coordinate `i`.
pub open spec fn nearest_index(i: int, src: int, dst: int) -> int {
    let v = i * src / dst;
    if v < src - 1 {
        v
    } else {
        src - 1
    }
}

/// The sizes for which nearest-neighbor scaling stays within `u32`
/// arithmetic and reads inside the source.
pub open spec fn nearest_scale_fits(src_w: int, src_h: int, dst_w: int, dst_h: int) -> bool {
    &&& dst_w * dst_h * 4 <= u32::MAX
    &&& dst_h > 0 ==> src_h > 0 && (dst_h - 1) * src_h <= u32::MAX
    &&& (dst_w > 0 && dst_h > 0) ==> {
        &&& src_w > 0
        &&& (dst_w - 1) * src_w <= u32::MAX
        &&& src_w * src_h <= u32::MAX + 1
    }
}

/// Nearest-neighbor scale for crisp QR modules.
pub fn nearest_neighbor_scale(src: &Vec<u8>, src_w: u32, src_h: u32, dst_w: u32, dst_h: u32) -> (dst: Vec<u8>)
    requires
        src@.len() >= src_w * src_h * 4,
        nearest_scale_fits(src_w as int, src_h as int, dst_w as int, dst_h as int),
    ensures
        dst@.len() == dst_w * dst_h * 4,
        forall|x: int, y: int|
            0 <= x < dst_w && 0 <= y < dst_h ==> #[trigger] color_at(dst@, dst_w as int, x, y)
                == color_at(
                src@,
                src_w as int,
                nearest_index(x, src_w as int, dst_w as int),
                nearest_index(y, src_h as int, dst_h as int),
            ),
{
    let mut dst = vec![0u8; (dst_w * dst_h * 4) as usize];
    let mut y: u32 = 0;
    while y < dst_h
        invariant
            src@.len() >= src_w * src_h * 4,
            nearest_scale_fits(src_w as int, src_h as int, dst_w as int, dst_h as int),
            dst@.len() == dst_w * dst_h * 4,
            y <= dst_h,
            forall|px: int, py: int|
                0 <= px < dst_w && 0 <= py < y ==> #[trigger] color_at(dst@, dst_w as int, px, py)
                    == color_at(
                    src@,
                    src_w as int,
                    nearest_index(px, src_w as int, dst_w as int),
                    nearest_index(py, src_h as int, dst_h as int),
                ),
        decreases dst_h - y,
    {
        assert(y * src_h <= (dst_h - 1) * src_h) by (nonlinear_arith)
            requires
                y < dst_h,
        ;
        let q = y * src_h / dst_h;
        let sy = if q < src_h - 1 { q } else { src_h - 1 };
        let mut x: u32 = 0;
        while x < dst_w
            invariant
                src@.len() >= src_w * src_h * 4,
                nearest_scale_fits(src_w as int, src_h as int, dst_w as int, dst_h as int),
                dst@.len() == dst_w * dst_h * 4,
                y < dst_h,
                x <= dst_w,
                sy == nearest_index(y as int, src_h as int, dst_h as int),
                sy < src_h,
                forall|px: int, py: int|
                    0 <= px < dst_w && 0 <= py < dst_h && (py < y || (py == y && px < x))
                        ==> #[trigger] color_at(dst@, dst_w as int, px, py) == color_at(
                        src@,
                        src_w as int,
                        nearest_index(px, src_w as int, dst_w as int),
                        nearest_index(py, src_h as int, dst_h as int),
                    ),
            decreases dst_w - x,
        {
            assert(x * src_w <= (dst_w - 1) * src_w) by (nonlinear_arith)
                requires
                    x < dst_w,
            ;
            let p = x * src_w / dst_w;
            let sx = if p < src_w - 1 { p } else { src_w - 1 };
            let c = get_pixel(src, src_w as usize, src_h as usize, sx as usize, sy as usize);
            set_pixel(&mut dst, dst_w as usize, dst_h as usize, x as usize, y as usize, c);
            x = x + 1;
        }
        y = y + 1;
    }
    dst
}

/// Modules across the image: the code plus a quiet zone on each side.
pub open spec fn total_modules(n: int, qz: int) -> int {
    n + 2 * qz
}

/// Pixels per module: as many whole pixels as fit in `size`, at least one.
pub open spec fn module_pixels(n: int, size: int, qz: int) -> int {
    let q = size / total_modules(n, qz);
    if q > 1 {
        q
    } else {
        1
    }
}

/// Side of the module-aligned buffer that is painted before any scaling.
pub open spec fn compositing_side(n: int, size: int, qz: int) -> int {
    total_modules(n, qz) * module_pixels(n, size, qz)
}

/// Color of compositing pixel `(cx, cy)` from the modules alone: the
/// foreground over a dark module, the background over a light module or the
/// quiet zone.
pub open spec fn module_color(m: QrModules, qz: int, p: int, fg: Color, bg: Color, cx: int, cy: int) -> Color {
    let col = cx / p - qz;
    let row = cy / p - qz;
    if 0 <= col < m.width && 0 <= row < m.width && m.dark(col, row) {
        fg
    } else {
        bg
    }
}

/// As `module_color`, with only the modules before (`row`, `col`) in
/// row-major order painted.
pub open spec fn painted_color(
    m: QrModules,
    qz: int,
    p: int,
    fg: Color,
    bg: Color,
    row: int,
    col: int,
    cx: int,
    cy: int,
) -> Color {
    let c = cx / p - qz;
    let r = cy / p - qz;
    if 0 <= c < m.width && 0 <= r < m.width && (r < row || (r == row && c < col)) && m.dark(c, r) {
        fg
    } else {
        bg
    }
}

/// Pixel `x` lies in the run of `p` pixels of cell `k` exactly when `x / p` is `k`.
pub proof fn lemma_div_cell(x: int, p: int, k: int)
    requires
        0 <= x,
        0 < p,
    ensures
        (k * p <= x < k * p + p) <==> x / p == k,
{
    vstd::arithmetic::div_mod::lemma_fundamental_div_mod(x, p);
    if k * p <= x < k * p + p {
        vstd::arithmetic::div_mod::lemma_fundamental_div_mod_converse_div(x, p, k, x - k * p);
    }
    if x / p == k {
        assert(x == p * k + x % p);
        assert(p * k == k * p) by (nonlinear_arith);
    }
}

/// The pixels of module `(col, row)` are the compositing pixels whose module
/// coordinates are `(col, row)`.
pub proof fn lemma_module_rect(cx: int, cy: int, p: int, qz: int, col: int, row: int)
    requires
        0 <= cx,
        0 <= cy,
        0 < p,
        0 <= qz,
    ensures
        in_rect(cx, cy, qz * p + col * p, qz * p + row * p, p, p) <==> (cx / p - qz == col && cy / p
            - qz == row),
{
    assert(qz * p + col * p == (qz + col) * p) by (nonlinear_arith);
    assert(qz * p + row * p == (qz + row) * p) by (nonlinear_arith);
    lemma_div_cell(cx, p, qz + col);
    lemma_div_cell(cy, p, qz + row);
}

/// Fills the compositing buffer with the background, then paints each module.
fn paint_modules(
    pixels: &mut Vec<u8>,
    side: usize,
    matrix: &QrMatrix,
    quiet_zone: usize,
    ppm: usize,
    fg: Color,
    bg: Color,
)
    requires
        matrix@.wf(),
        old(pixels)@.len() == side * side * 4,
        ppm > 0,
        side == (matrix@.width + 2 * quiet_zone) * ppm,
    ensures
        final(pixels)@.len() == side * side * 4,
        forall|cx: int, cy: int|
            0 <= cx < side && 0 <= cy < side ==> #[trigger] color_at(final(pixels)@, side as int, cx, cy)
                == module_color(matrix@, quiet_zone as int, ppm as int, fg, bg, cx, cy),
{
    let n = matrix.width();
    let len = pixels.len();
    assert(quiet_zone * ppm <= side && side <= side * side * 4) by (nonlinear_arith)
        requires
            side == (n + 2 * quiet_zone) * ppm,
            ppm > 0,
    ;
    let qz_px = quiet_zone * ppm;
    proof {
        lemma_square_rect_in_bounds(side as int, 0, 0, side as int, side as int);
    }
    fill_rect(pixels, side, 0, 0, side, side, bg);
    let mut row: usize = 0;
    while row < n
        invariant
            matrix@.wf(),
            n == matrix@.width,
            pixels@.len() == side * side * 4,
            ppm > 0,
            side == (n + 2 * quiet_zone) * ppm,
            qz_px == quiet_zone * ppm,
            row <= n,
            forall|cx: int, cy: int|
                0 <= cx < side && 0 <= cy < side ==> #[trigger] color_at(pixels@, side as int, cx, cy)
                    == painted_color(matrix@, quiet_zone as int, ppm as int, fg, bg, row as int, 0, cx, cy),
        decreases n - row,
    {
        let mut col: usize = 0;
        while col < n
            invariant
                matrix@.wf(),
                n == matrix@.width,
                pixels@.len() == side * side * 4,
                ppm > 0,
                side == (n + 2 * quiet_zone) * ppm,
                qz_px == quiet_zone * ppm,
                row < n,
                col <= n,
                forall|cx: int, cy: int|
                    0 <= cx < side && 0 <= cy < side ==> #[trigger] color_at(pixels@, side as int, cx, cy)
                        == painted_color(matrix@, quiet_zone as int, ppm as int, fg, bg, row as int, col as int, cx, cy),
            decreases n - col,
        {
            let color = if matrix.is_dark(col, row) { fg } else { bg };
            assert((quiet_zone + col + 1) * ppm <= (n + 2 * quiet_zone) * ppm) by (nonlinear_arith)
                requires col < n, ppm > 0;
            assert((quiet_zone + row + 1) * ppm <= (n + 2 * quiet_zone) * ppm) by (nonlinear_arith)
                requires row < n, ppm > 0;
            assert(quiet_zone * ppm + col * ppm + ppm == (quiet_zone + col + 1) * ppm) by (nonlinear_arith);
            assert(quiet_zone * ppm + row * ppm + ppm == (quiet_zone + row + 1) * ppm) by (nonlinear_arith);
            let px = qz_px + col * ppm;
            let py = qz_px + row * ppm;
            let ghost before = pixels@;
            proof {
                lemma_square_rect_in_bounds(side as int, px as int, py as int, ppm as int, ppm as int);
            }
            fill_rect(pixels, side, px, py, ppm, ppm, color);
            assert forall|cx: int, cy: int|
                0 <= cx < side && 0 <= cy < side implies #[trigger] color_at(pixels@, side as int, cx, cy)
                    == painted_color(matrix@, quiet_zone as int, ppm as int, fg, bg, row as int, col + 1, cx, cy) by {
                lemma_module_rect(cx, cy, ppm as int, quiet_zone as int, col as int, row as int);
                assert(color_at(before, side as int, cx, cy) == painted_color(matrix@, quiet_zone as int, ppm as int, fg, bg, row as int, col as int, cx, cy));
            }
            col = col + 1;
        }
        row = row + 1;
    }
}

/// Color used to clear the area behind the logo: white where the background
/// is (effectively) transparent, else the background.
pub open spec fn clear_color(bg: Color) -> Color {
    if bg.a < 3 {
        Color { r: 255, g: 255, b: 255, a: 255 }
    } else {
        bg
    }
}

/// Module `(c, r)` has its center within the circle of diameter `d` modules
/// centered on a code `n` modules wide (all lengths doubled to stay integral).
pub open spec fn in_circle(c: int, r: int, n: int, d: int) -> bool {
    (2 * c + 1 - n) * (2 * c + 1 - n) + (2 * r + 1 - n) * (2 * r + 1 - n) <= d * d
}

/// First module of a centered run of `len` modules in a code `n` modules wide.
pub open spec fn centered_start(n: int, len: int) -> int {
    (n - len) / 2
}

/// Compositing pixel `(cx, cy)` lies in the cleared circle: its module is in
/// the centered `d` by `d` module square and has its center in the circle.
pub open spec fn circle_cleared(n: int, qz: int, p: int, d: int, cx: int, cy: int) -> bool {
    let s = centered_start(n, d);
    let c = cx / p - qz;
    let r = cy / p - qz;
    s <= c < s + d && s <= r < s + d && in_circle(c, r, n, d)
}

/// Origin (on both axes) of a centered square of `len` pixels over the code
/// area of `n` modules of `p` pixels, after a quiet zone of `qz` modules.
pub open spec fn centered_origin(n: int, qz: int, p: int, len: int) -> int {
    qz * p + (n * p - len) / 2
}

/// Compositing pixel `(cx, cy)` lies in the area cleared for the logo.
pub open spec fn logo_cleared(o: LogoOverlay, n: int, qz: int, p: int, cx: int, cy: int) -> bool {
    let d = o.layout.cleared_modules as int;
    match o.clear_shape {
        LogoClearShape::Square => {
            let origin = centered_origin(n, qz, p, d * p);
            in_rect(cx, cy, origin, origin, d * p, d * p)
        },
        LogoClearShape::Circle => circle_cleared(n, qz, p, d, cx, cy),
    }
}

/// One channel of "source over destination" for a partly transparent source.
pub open spec fn blend_channel(sc: u8, dc: u8, sa: int, da: int, out_a: int) -> u8 {
    ((sc * sa + dc * da * (255 - sa) / 255) / out_a) as u8
}

/// Alpha-compositing of source `s` over destination `d`: a transparent source
/// leaves `d`, an opaque one replaces it, otherwise the channels are mixed
/// by alpha.
pub open spec fn blend(s: Color, d: Color) -> Color {
    if s.a == 0 {
        d
    } else if s.a == 255 {
        Color { r: s.r, g: s.g, b: s.b, a: 255 }
    } else {
        let sa = s.a as int;
        let da = d.a as int;
        let out_a = sa + da * (255 - sa) / 255;
        Color {
            r: blend_channel(s.r, d.r, sa, da, out_a),
            g: blend_channel(s.g, d.g, sa, da, out_a),
            b: blend_channel(s.b, d.b, sa, da, out_a),
            a: (if out_a < 255 { out_a } else { 255 }) as u8,
        }
    }
}

/// Color of compositing pixel `(cx, cy)` once the logo is laid over a pixel
/// that had color `under`: cleared area first, then the logo blended on top.
pub open spec fn logo_over(
    o: LogoOverlay,
    n: int,
    qz: int,
    p: int,
    bg: Color,
    under: Color,
    cx: int,
    cy: int,
) -> Color {
    let cleared = if logo_cleared(o, n, qz, p, cx, cy) {
        clear_color(bg)
    } else {
        under
    };
    let ls = logo_side(o, p);
    let lo = centered_origin(n, qz, p, ls);
    if o.layout.logo_modules == 0 {
        // No logo area: nothing is cleared or drawn.
        under
    } else if in_rect(cx, cy, lo, lo, ls, ls) {
        blend(color_at(o.pixels@, ls, cx - lo, cy - lo), cleared)
    } else {
        cleared
    }
}

/// Color of compositing pixel `(cx, cy)`: the modules, with the logo (if any)
/// laid over them.
pub open spec fn composed_color(
    m: QrModules,
    qz: int,
    p: int,
    fg: Color,
    bg: Color,
    logo: Option<LogoOverlay>,
    cx: int,
    cy: int,
) -> Color {
    let base = module_color(m, qz, p, fg, bg, cx, cy);
    match logo {
        None => base,
        Some(o) => logo_over(o, m.width as int, qz, p, bg, base, cx, cy),
    }
}

/// Compositing pixel modules processed so far by the circle-clearing loop.
pub open spec fn circle_done(n: int, qz: int, p: int, d: int, row: int, col: int, cx: int, cy: int) -> bool {
    let s = centered_start(n, d);
    let c = cx / p - qz;
    let r = cy / p - qz;
    s <= c < s + d && s <= r < s + d && (r - s < row || (r - s == row && c - s < col)) && in_circle(c, r, n, d)
}

/// Clears, module by module, the modules of the centered `d` by `d` square
/// whose centers lie in the circle of diameter `d`.
fn clear_circle(
    pixels: &mut Vec<u8>,
    side: usize,
    n: usize,
    quiet_zone: usize,
    ppm: usize,
    d: usize,
    color: Color,
)
    requires
        old(pixels)@.len() == side * side * 4,
        ppm > 0,
        d <= n,
        n <= 177,
        side == (n + 2 * quiet_zone) * ppm,
    ensures
        final(pixels)@.len() == side * side * 4,
        forall|cx: int, cy: int|
            0 <= cx < side && 0 <= cy < side ==> #[trigger] color_at(final(pixels)@, side as int, cx, cy)
                == if circle_cleared(n as int, quiet_zone as int, ppm as int, d as int, cx, cy) {
                color
            } else {
                color_at(old(pixels)@, side as int, cx, cy)
            },
{
    let ghost start = pixels@;
    let len = pixels.len();
    assert(quiet_zone * ppm <= side && side <= side * side * 4) by (nonlinear_arith)
        requires
            side == (n + 2 * quiet_zone) * ppm,
            ppm > 0,
    ;
    let qz_px = quiet_zone * ppm;
    let start_module = (n - d) / 2;
    let mut row: usize = 0;
    while row < d
        invariant
            pixels@.len() == side * side * 4,
            start.len() == side * side * 4,
            ppm > 0,
            d <= n,
            n <= 177,
            side == (n + 2 * quiet_zone) * ppm,
            qz_px == quiet_zone * ppm,
            start_module == centered_start(n as int, d as int),
            row <= d,
            forall|cx: int, cy: int|
                0 <= cx < side && 0 <= cy < side ==> #[trigger] color_at(pixels@, side as int, cx, cy)
                    == if circle_done(n as int, quiet_zone as int, ppm as int, d as int, row as int, 0, cx, cy) {
                    color
                } else {
                    color_at(start, side as int, cx, cy)
                },
        decreases d - row,
    {
        let mut col: usize = 0;
        while col < d
            invariant
                pixels@.len() == side * side * 4,
                start.len() == side * side * 4,
                ppm > 0,
                d <= n,
                n <= 177,
                side == (n + 2 * quiet_zone) * ppm,
                qz_px == quiet_zone * ppm,
                start_module == centered_start(n as int, d as int),
                row < d,
                col <= d,
                forall|cx: int, cy: int|
                    0 <= cx < side && 0 <= cy < side ==> #[trigger] color_at(pixels@, side as int, cx, cy)
                        == if circle_done(n as int, quiet_zone as int, ppm as int, d as int, row as int, col as int, cx, cy) {
                        color
                    } else {
                        color_at(start, side as int, cx, cy)
                    },
            decreases d - col,
        {
            let mc = start_module + col;
            let mr = start_module + row;
            let a = 2 * mc + 1;
            let b = 2 * mr + 1;
            let dx = if a >= n { a - n } else { n - a };
            let dy = if b >= n { b - n } else { n - b };
            assert(dx * dx == (2 * mc + 1 - n) * (2 * mc + 1 - n)) by (nonlinear_arith)
                requires dx == a - n || dx == n - a, a == 2 * mc + 1;
            assert(dy * dy == (2 * mr + 1 - n) * (2 * mr + 1 - n)) by (nonlinear_arith)
                requires dy == b - n || dy == n - b, b == 2 * mr + 1;
            assert(dx * dx <= 400 * 400 && dy * dy <= 400 * 400 && d * d <= 177 * 177) by (nonlinear_arith)
                requires dx <= 400, dy <= 400, d <= 177;
            let inside = dx * dx + dy * dy <= d * d;
            let ghost before = pixels@;
            if inside {
                assert((quiet_zone + mc + 1) * ppm <= (n + 2 * quiet_zone) * ppm) by (nonlinear_arith)
                    requires mc < n, ppm > 0;
                assert((quiet_zone + mr + 1) * ppm <= (n + 2 * quiet_zone) * ppm) by (nonlinear_arith)
                    requires mr < n, ppm > 0;
                assert(quiet_zone * ppm + mc * ppm + ppm == (quiet_zone + mc + 1) * ppm) by (nonlinear_arith);
                assert(quiet_zone * ppm + mr * ppm + ppm == (quiet_zone + mr + 1) * ppm) by (nonlinear_arith);
                let px = qz_px + mc * ppm;
                let py = qz_px + mr * ppm;
                proof {
                    lemma_square_rect_in_bounds(side as int, px as int, py as int, ppm as int, ppm as int);
                }
                fill_rect(pixels, side, px, py, ppm, ppm, color);
            }
            assert forall|cx: int, cy: int|
                0 <= cx < side && 0 <= cy < side implies #[trigger] color_at(pixels@, side as int, cx, cy)
                    == if circle_done(n as int, quiet_zone as int, ppm as int, d as int, row as int, col + 1, cx, cy) {
                    color
                } else {
                    color_at(start, side as int, cx, cy)
                } by {
                lemma_module_rect(cx, cy, ppm as int, quiet_zone as int, mc as int, mr as int);
                assert(color_at(before, side as int, cx, cy) == if circle_done(n as int, quiet_zone as int, ppm as int, d as int, row as int, col as int, cx, cy) {
                    color
                } else {
                    color_at(start, side as int, cx, cy)
                });
            }
            col = col + 1;
        }
        row = row + 1;
    }
}

/// Alpha-composites `src` over `dst` (see `blend`).
fn blend_pixel(src: Color, dst: Color) -> (out: Color)
    ensures
        out == blend(src, dst),
{
    let sa = src.a as u32;
    if sa == 0 {
        return dst;
    }
    if sa == 255 {
        return Color { r: src.r, g: src.g, b: src.b, a: 255 };
    }
    let da = dst.a as u32;
    let inv_sa = 255 - sa;
    assert(da * inv_sa <= 255 * 255) by (nonlinear_arith)
        requires da <= 255, inv_sa <= 255;
    let out_a = sa + da * inv_sa / 255;
    let mut out = dst;
    if out_a > 0 {
        assert(src.r * sa <= 255 * 255 && dst.r * da <= 255 * 255) by (nonlinear_arith)
            requires src.r <= 255, dst.r <= 255, sa <= 255, da <= 255;
        assert(src.g * sa <= 255 * 255 && dst.g * da <= 255 * 255) by (nonlinear_arith)
            requires src.g <= 255, dst.g <= 255, sa <= 255, da <= 255;
        assert(src.b * sa <= 255 * 255 && dst.b * da <= 255 * 255) by (nonlinear_arith)
            requires src.b <= 255, dst.b <= 255, sa <= 255, da <= 255;
        assert((dst.r * da) * inv_sa <= 255 * 255 * 255) by (nonlinear_arith)
            requires dst.r * da <= 255 * 255, inv_sa <= 255;
        assert((dst.g * da) * inv_sa <= 255 * 255 * 255) by (nonlinear_arith)
            requires dst.g * da <= 255 * 255, inv_sa <= 255;
        assert((dst.b * da) * inv_sa <= 255 * 255 * 255) by (nonlinear_arith)
            requires dst.b * da <= 255 * 255, inv_sa <= 255;
        let r = ((src.r as u32 * sa + dst.r as u32 * da * inv_sa / 255) / out_a) as u8;
        let g = ((src.g as u32 * sa + dst.g as u32 * da * inv_sa / 255) / out_a) as u8;
        let b = ((src.b as u32 * sa + dst.b as u32 * da * inv_sa / 255) / out_a) as u8;
        let a = (if out_a < 255 { out_a } else { 255 }) as u8;
        out = Color { r, g, b, a };
    }
    out
}

/// Alpha-composites the `side` by `side` logo pixels onto the buffer with
/// the logo's top-left pixel at `(origin, origin)`.
fn blend_logo(pixels: &mut Vec<u8>, stride: usize, origin: usize, logo: &Vec<u8>, side: usize)
    requires
        old(pixels)@.len() == stride * stride * 4,
        logo@.len() == side * side * 4,
        origin + side <= stride,
    ensures
        final(pixels)@.len() == stride * stride * 4,
        forall|cx: int, cy: int|
            0 <= cx < stride && 0 <= cy < stride ==> #[trigger] color_at(final(pixels)@, stride as int, cx, cy)
                == if in_rect(cx, cy, origin as int, origin as int, side as int, side as int) {
                blend(
                    color_at(logo@, side as int, cx - origin, cy - origin),
                    color_at(old(pixels)@, stride as int, cx, cy),
                )
            } else {
                color_at(old(pixels)@, stride as int, cx, cy)
            },
{
    let ghost start = pixels@;
    let mut row: usize = 0;
    while row < side
        invariant
            pixels@.len() == stride * stride * 4,
            start.len() == stride * stride * 4,
            logo@.len() == side * side * 4,
            origin + side <= stride,
            row <= side,
            forall|cx: int, cy: int|
                0 <= cx < stride && 0 <= cy < stride ==> #[trigger] color_at(pixels@, stride as int, cx, cy)
                    == if in_rect(cx, cy, origin as int, origin as int, side as int, row as int) {
                    blend(
                        color_at(logo@, side as int, cx - origin, cy - origin),
                        color_at(start, stride as int, cx, cy),
                    )
                } else {
                    color_at(start, stride as int, cx, cy)
                },
        decreases side - row,
    {
        let mut col: usize = 0;
        while col < side
            invariant
                pixels@.len() == stride * stride * 4,
                start.len() == stride * stride * 4,
                logo@.len() == side * side * 4,
                origin + side <= stride,
                row < side,
                col <= side,
                forall|cx: int, cy: int|
                    0 <= cx < stride && 0 <= cy < stride ==> #[trigger] color_at(pixels@, stride as int, cx, cy)
                        == if in_rect(cx, cy, origin as int, origin as int, side as int, row as int)
                        || (cy == origin + row && origin <= cx < origin + col) {
                        blend(
                            color_at(logo@, side as int, cx - origin, cy - origin),
                            color_at(start, stride as int, cx, cy),
                        )
                    } else {
                        color_at(start, stride as int, cx, cy)
                    },
            decreases side - col,
        {
            let src = get_pixel(logo, side, side, col, row);
            let dst_x = origin + col;
            let dst_y = origin + row;
            if src.a != 0 {
                let dst = get_pixel(pixels, stride, stride, dst_x, dst_y);
                let out = blend_pixel(src, dst);
                set_pixel(pixels, stride, stride, dst_x, dst_y, out);
            }
            col = col + 1;
        }
        row = row + 1;
    }
}

/// Composite the logo into the center of the QR code: clear the area behind
/// it, then alpha-blend its pixels, centered on the code area (the quiet
/// zone of `quiet_zone` modules is left out of the centering).
fn composite_logo(
    pixels: &mut Vec<u8>,
    side: usize,
    n: usize,
    ppm: usize,
    quiet_zone: usize,
    bg: Color,
    logo: &LogoOverlay,
)
    requires
        old(pixels)@.len() == side * side * 4,
        ppm > 0,
        n <= 177,
        side == (n + 2 * quiet_zone) * ppm,
        overlay_fits(*logo, n as int, ppm as int),
    ensures
        final(pixels)@.len() == side * side * 4,
        forall|cx: int, cy: int|
            0 <= cx < side && 0 <= cy < side ==> #[trigger] color_at(final(pixels)@, side as int, cx, cy)
                == logo_over(
                *logo,
                n as int,
                quiet_zone as int,
                ppm as int,
                bg,
                color_at(old(pixels)@, side as int, cx, cy),
                cx,
                cy,
            ),
{
    let ghost start = pixels@;
    let lm = logo.layout.logo_modules;
    let cm = logo.layout.cleared_modules;
    if lm == 0 {
        return;
    }
    let len = pixels.len();
    assert(quiet_zone * ppm + n * ppm == side - quiet_zone * ppm && cm * ppm <= n * ppm && lm * ppm
        <= cm * ppm && side <= side * side * 4) by (nonlinear_arith)
        requires
            side == (n + 2 * quiet_zone) * ppm,
            ppm > 0,
            lm <= cm,
            cm <= n,
    ;
    let qz_px = quiet_zone * ppm;
    let qr_px = n * ppm;
    // Clear color: use white if background is transparent
    let clear = if bg.is_transparent() { Color::white() } else { bg };
    match logo.clear_shape {
        LogoClearShape::Square => {
            let clear_pixels = cm * ppm;
            let clear_origin = qz_px + (qr_px - clear_pixels) / 2;
            proof {
                lemma_square_rect_in_bounds(side as int, clear_origin as int, clear_origin as int, clear_pixels as int, clear_pixels as int);
            }
            fill_rect(pixels, side, clear_origin, clear_origin, clear_pixels, clear_pixels, clear);
        },
        LogoClearShape::Circle => {
            clear_circle(pixels, side, n, quiet_zone, ppm, cm, clear);
        },
    }
    let ghost cleared = pixels@;
    assert forall|cx: int, cy: int| 0 <= cx < side && 0 <= cy < side implies #[trigger] color_at(
        cleared,
        side as int,
        cx,
        cy,
    ) == if logo_cleared(*logo, n as int, quiet_zone as int, ppm as int, cx, cy) {
        clear_color(bg)
    } else {
        color_at(start, side as int, cx, cy)
    } by {}
    // Draw the logo centered within the QR data area
    let logo_pixels = lm * ppm;
    let logo_origin = qz_px + (qr_px - logo_pixels) / 2;
    blend_logo(pixels, side, logo_origin, &logo.pixels, logo_pixels);
}

/// An RGBA pixel buffer with encoding methods.
pub struct RenderedImage {
    /// RGBA pixels, row-major, 4 bytes per pixel.
    pub pixels: Vec<u8>,
    pub width: u32,
    pub height: u32,
}

/// Sizes for which rendering a code `n` modules wide stays within the
/// machine's arithmetic and allocation limits.
pub open spec fn render_fits(n: int, size: int, qz: int) -> bool {
    let c = compositing_side(n, size, qz);
    &&& c * c * 4 <= isize::MAX
    &&& c != size ==> nearest_scale_fits(c, c, size, size)
}

/// `render_fits` for every module count that a QR code can have.
pub open spec fn render_fits_any_code(size: int, qz: int) -> bool {
    forall|n: int| 21 <= n <= 177 ==> #[trigger] render_fits(n, size, qz)
}

/// Decides `render_fits` for a code `n` modules wide: whether an image of
/// `size` pixels with a quiet zone of `quiet_zone` modules can be rendered
/// for it within the machine's arithmetic.
pub fn render_fits_code(n: usize, size: u32, quiet_zone: u32) -> (b: bool)
    requires
        1 <= n <= 177,
    ensures
        b == render_fits(n as int, size as int, quiet_zone as int),
{
    let t: u128 = n as u128 + 2 * (quiet_zone as u128);
    let q: u128 = size as u128 / t;
    let p: u128 = if q > 1 { q } else { 1 };
    assert(t == total_modules(n as int, quiet_zone as int));
    assert(p == module_pixels(n as int, size as int, quiet_zone as int));
    assert(t * p <= 0x4_0000_0000) by (nonlinear_arith)
        requires
            1 <= t <= 177 + 2 * 0xffff_ffff,
            q == (size as int) / (t as int),
            q > 1 ==> p == q,
            q <= 1 ==> p == 1,
            0 <= size <= 0xffff_ffff,
    {
        if q > 1 {
            assert(t * q <= size);
        }
    }
    let c: u128 = t * p;
    assert(c * c * 4 <= 0x40_0000_0000_0000_0000) by (nonlinear_arith)
        requires 0 <= c <= 0x4_0000_0000;
    let s: u128 = size as u128;
    let fits_buffer = c * c * 4 <= isize::MAX as u128;
    if c == s {
        return fits_buffer;
    }
    assert(s * s * 4 <= 0x4_0000_0000_0000_0000 && (s - 1) * c <= 0x4_0000_0000_0000_0000 && c * c <= 0x40_0000_0000_0000_0000)
        by (nonlinear_arith)
        requires 0 <= c <= 0x4_0000_0000, 0 <= s <= 0xffff_ffff;
    let scale_fits = s * s * 4 <= 0xffff_ffff && (s == 0 || (c > 0 && (s - 1) * c <= 0xffff_ffff
        && c * c <= 0x1_0000_0000));
    fits_buffer && scale_fits
}

/// Images of up to 16384 pixels with quiet zones of up to 8000 modules can
/// be rendered for every QR code, whatever the width of `usize`.
pub proof fn lemma_moderate_sizes_fit(size: int, qz: int)
    requires
        0 <= size <= 16384,
        0 <= qz <= 8000,
    ensures
        render_fits_any_code(size, qz),
{
    assert forall|n: int| 21 <= n <= 177 implies #[trigger] render_fits(n, size, qz) by {
        let t = total_modules(n, qz);
        let p = module_pixels(n, size, qz);
        let c = compositing_side(n, size, qz);
        assert(c <= 16384) by {
            if size / t > 1 {
                vstd::arithmetic::div_mod::lemma_fundamental_div_mod(size, t);
                assert(t * (size / t) <= size) by (nonlinear_arith)
                    requires size == t * (size / t) + size % t, size % t >= 0;
            }
        }
        assert(c * c * 4 <= 0x4000_0000) by (nonlinear_arith)
            requires 0 <= c <= 16384;
        assert(size * size * 4 <= 0x4000_0000) by (nonlinear_arith)
            requires 0 <= size <= 16384;
        assert((size - 1) * c <= 0x4000_0000) by (nonlinear_arith)
            requires 0 <= size <= 16384, 0 <= c <= 16384;
        assert(c >= 1) by (nonlinear_arith)
            requires c == t * p, t >= 21, p >= 1;
    }
}

/// Color of pixel `(x, y)` of the rendered image: the compositing buffer,
/// scaled by nearest neighbor to `size` pixels when its side differs.
pub open spec fn rendered_color(
    m: QrModules,
    size: int,
    qz: int,
    fg: Color,
    bg: Color,
    logo: Option<LogoOverlay>,
    x: int,
    y: int,
) -> Color {
    let p = module_pixels(m.width as int, size, qz);
    let c = compositing_side(m.width as int, size, qz);
    if c == size {
        composed_color(m, qz, p, fg, bg, logo, x, y)
    } else {
        composed_color(m, qz, p, fg, bg, logo, nearest_index(x, c, size), nearest_index(y, c, size))
    }
}

/// The image is `size` by `size` pixels and every pixel has its rendered color.
pub open spec fn renders(
    img: RenderedImage,
    m: QrModules,
    size: int,
    qz: int,
    fg: Color,
    bg: Color,
    logo: Option<LogoOverlay>,
) -> bool {
    &&& img.width == size
    &&& img.height == size
    &&& img.pixels@.len() == size * size * 4
    &&& forall|x: int, y: int|
        0 <= x < size && 0 <= y < size ==> #[trigger] color_at(img.pixels@, size, x, y)
            == rendered_color(m, size, qz, fg, bg, logo, x, y)
}

/// Paint the QR matrix into a pixel buffer with module-aligned rendering,
/// composite the logo overlay if present, and scale to `size` pixels.
pub fn render_matrix_overlay(
    matrix: &QrMatrix,
    size: u32,
    fg: Color,
    bg: Color,
    quiet_zone: u32,
    logo: Option<&LogoOverlay>,
) -> (img: RenderedImage)
    requires
        matrix@.wf(),
        render_fits(matrix@.width as int, size as int, quiet_zone as int),
        logo matches Some(o) ==> overlay_fits(
            *o,
            matrix@.width as int,
            module_pixels(matrix@.width as int, size as int, quiet_zone as int),
        ),
    ensures
        renders(
            img,
            matrix@,
            size as int,
            quiet_zone as int,
            fg,
            bg,
            match logo {
                Some(o) => Some(*o),
                None => None,
            },
        ),
{
    let ghost m = matrix@;
    let ghost p = module_pixels(m.width as int, size as int, quiet_zone as int);
    let ghost c = compositing_side(m.width as int, size as int, quiet_zone as int);
    let n = matrix.width();
    let qz = quiet_zone as usize;
    assert(n + 2 * qz <= c && c <= c * c * 4) by (nonlinear_arith)
        requires
            c == (n + 2 * qz) * p,
            p >= 1,
    ;
    let total_modules = n + 2 * qz;
    let q = size as usize / total_modules;
    let pixels_per_module = if q > 1 { q } else { 1 };
    let compositing_size = total_modules * pixels_per_module;
    assert(pixels_per_module == p && compositing_size == c);
    assert(c <= u32::MAX) by (nonlinear_arith)
        requires
            c * c * 4 <= 0x7fff_ffff_ffff_ffffint,
            c >= 0,
    ;
    let mut pixels = vec![0u8; compositing_size * compositing_size * 4];
    paint_modules(&mut pixels, compositing_size, matrix, qz, pixels_per_module, fg, bg);
    let ghost painted = pixels@;
    let ghost ologo = match logo {
        Some(o) => Some(*o),
        None => None,
    };
    match logo {
        Some(o) => {
            composite_logo(&mut pixels, compositing_size, n, pixels_per_module, qz, bg, o);
        },
        None => {},
    }
    assert forall|cx: int, cy: int|
        0 <= cx < compositing_size && 0 <= cy < compositing_size implies #[trigger] color_at(
        pixels@,
        compositing_size as int,
        cx,
        cy,
    ) == composed_color(m, qz as int, p, fg, bg, ologo, cx, cy) by {
        assert(color_at(painted, compositing_size as int, cx, cy) == module_color(m, qz as int, p, fg, bg, cx, cy));
    }
    let csize = compositing_size as u32;
    let pixels = if csize != size {
        nearest_neighbor_scale(&pixels, csize, csize, size, size)
    } else {
        pixels
    };
    assert forall|x: int, y: int|
        0 <= x < size && 0 <= y < size implies #[trigger] color_at(pixels@, size as int, x, y)
            == rendered_color(m, size as int, qz as int, fg, bg, ologo, x, y) by {
        if csize != size {
            let sx = nearest_index(x, c, size as int);
            let sy = nearest_index(y, c, size as int);
            assert(0 <= x * c / (size as int)) by (nonlinear_arith)
                requires x >= 0, c >= 0, size > 0;
            assert(0 <= y * c / (size as int)) by (nonlinear_arith)
                requires y >= 0, c >= 0, size > 0;
            assert(0 <= sx < c && 0 <= sy < c);
        }
    }
    RenderedImage { pixels, width: size, height: size }
}

/// A logo preparer can be called on any module count and module size, and
/// what it returns fits a code of that module count and module size.
pub open spec fn logo_preparer_ok<F: Fn(usize, usize) -> Option<LogoOverlay>>(f: F) -> bool {
    &&& forall|n: usize, p: usize| #[trigger] f.requires((n, p))
    &&& forall|n: usize, p: usize, r: Option<LogoOverlay>|
        #[trigger] f.ensures((n, p), r) ==> (r matches Some(o) ==> overlay_fits(o, n as int, p as int))
}

/// The image renders the modules `m` with the logo that the preparer
/// `logo` (if any) gave for their module count and module size.
pub open spec fn renders_with<F: Fn(usize, usize) -> Option<LogoOverlay>>(
    img: RenderedImage,
    m: QrModules,
    size: int,
    qz: int,
    fg: Color,
    bg: Color,
    logo: Option<&F>,
) -> bool {
    match logo {
        None => renders(img, m, size, qz, fg, bg, None),
        Some(f) => exists|o: Option<LogoOverlay>|
            #[trigger] f.ensures((m.width as usize, module_pixels(m.width as int, size, qz) as usize), o)
                && renders(img, m, size, qz, fg, bg, o),
    }
}

/// Paint the QR matrix into a pixel buffer with module-aligned rendering,
/// then composite the logo if present. The logo is given as a preparer that,
/// for the module count and the pixels per module, returns the overlay
/// (laid out and scaled for them), or `None` where there is nothing to draw.
pub fn render_from_matrix<F: Fn(usize, usize) -> Option<LogoOverlay>>(
    matrix: &QrMatrix,
    size: u32,
    fg: Color,
    bg: Color,
    quiet_zone: u32,
    logo: Option<&F>,
) -> (res: Result<RenderedImage, Error>)
    requires
        matrix@.wf(),
        render_fits(matrix@.width as int, size as int, quiet_zone as int),
        logo matches Some(f) ==> logo_preparer_ok(*f),
    ensures
        res matches Ok(img) && renders_with(img, matrix@, size as int, quiet_zone as int, fg, bg, logo),
{
    let n = matrix.width();
    let qz = quiet_zone as usize;
    let ghost p = module_pixels(n as int, size as int, quiet_zone as int);
    let ghost c = compositing_side(n as int, size as int, quiet_zone as int);
    assert(n + 2 * qz <= c) by (nonlinear_arith)
        requires
            c == (n + 2 * qz) * p,
            p >= 1,
    ;
    assert(c <= u32::MAX) by (nonlinear_arith)
        requires
            c * c * 4 <= 0x7fff_ffff_ffff_ffffint,
            c >= 0,
    ;
    let total_modules = n + 2 * qz;
    let q = size as usize / total_modules;
    let pixels_per_module = if q > 1 { q } else { 1 };
    assert(pixels_per_module == p);
    match logo {
        None => Ok(render_matrix_overlay(matrix, size, fg, bg, quiet_zone, None)),
        Some(f) => {
            let overlay = f(n, pixels_per_module);
            assert(f.ensures((n, pixels_per_module), overlay));
            let img = match &overlay {
                Some(o) => render_matrix_overlay(matrix, size, fg, bg, quiet_zone, Some(o)),
                None => render_matrix_overlay(matrix, size, fg, bg, quiet_zone, None),
            };
            assert(renders(img, matrix@, size as int, quiet_zone as int, fg, bg, overlay));
            assert(f.ensures((matrix@.width as usize, module_pixels(matrix@.width as int, size as int, quiet_zone as int) as usize), overlay));
            Ok(img)
        },
    }
}

/// The QR code of `message` can be rendered at `size` pixels with a quiet
/// zone of `quiet_zone` modules: the message fits a QR version and the
/// image stays within the machine's pixel arithmetic.
pub open spec fn qr_renders(message: Seq<u8>, correction: CorrectionLevel, size: int, quiet_zone: int) -> bool {
    match qr_symbol(message, correction) {
        None => false,
        Some(sym) => render_fits(sym.0 as int, size, quiet_zone),
    }
}

/// What rendering `message` as a single-frame QR code gives: the image of
/// its QR symbol (with the logo the preparer gives); a QR encoding error
/// exactly where the message fits no QR version; an invalid-parameter error
/// where the image would be too large for the pixel arithmetic.
pub open spec fn qr_render_outcome<F: Fn(usize, usize) -> Option<LogoOverlay>>(
    message: Seq<u8>,
    correction: CorrectionLevel,
    size: int,
    fg: Color,
    bg: Color,
    quiet_zone: int,
    logo: Option<&F>,
    res: Result<RenderedImage, Error>,
) -> bool {
    &&& res is Ok <==> qr_renders(message, correction, size, quiet_zone)
    &&& res matches Err(e) ==> (if qr_symbol(message, correction) is None {
        e is QrEncode
    } else {
        e is InvalidParameter
    })
    &&& res matches Ok(img) ==> renders_with(
        img,
        QrModules {
            width: qr_symbol(message, correction).unwrap().0,
            modules: qr_symbol(message, correction).unwrap().1,
        },
        size,
        quiet_zone,
        fg,
        bg,
        logo,
    )
}

/// The error for an image too large for the pixel arithmetic.
pub(crate) fn too_large() -> (e: Error)
    ensures
        e is InvalidParameter,
{
    Error::InvalidParameter(String::from_str("image size too large to render this QR code"))
}

/// Render a single-frame QR code from raw bytes.
///
/// - `message`: bytes to encode in the QR code
/// - `correction`: error correction level
/// - `size`: target image size in pixels (square)
/// - `fg` / `bg`: foreground and background colors
/// - `quiet_zone`: number of background-colored modules
///   around the QR code (default 1)
/// - `logo`: optional logo overlay preparer
pub fn render_qr<F: Fn(usize, usize) -> Option<LogoOverlay>>(
    message: &[u8],
    correction: CorrectionLevel,
    size: u32,
    fg: Color,
    bg: Color,
    quiet_zone: u32,
    logo: Option<&F>,
) -> (res: Result<RenderedImage, Error>)
    requires
        logo matches Some(f) ==> logo_preparer_ok(*f),
    ensures
        qr_render_outcome(message@, correction, size as int, fg, bg, quiet_zone as int, logo, res),
{
    let matrix = match QrMatrix::encode(message, correction) {
        Ok(m) => m,
        Err(e) => return Err(e),
    };
    if !render_fits_code(matrix.width(), size, quiet_zone) {
        return Err(too_large());
    }
    render_from_matrix(&matrix, size, fg, bg, quiet_zone, logo)
}

/// Render a single-frame QR code from a UR string.
///
/// The UR string is automatically uppercased for QR
/// alphanumeric mode efficiency.
pub fn render_ur_qr<F: Fn(usize, usize) -> Option<LogoOverlay>>(
    ur_string: &str,
    correction: CorrectionLevel,
    size: u32,
    fg: Color,
    bg: Color,
    quiet_zone: u32,
    logo: Option<&F>,
) -> (res: Result<RenderedImage, Error>)
    requires
        logo matches Some(f) ==> logo_preparer_ok(*f),
    ensures
        // The same outcome as `render_qr` on the string's bytes in capitals.
        qr_render_outcome(
            upper_bytes(ur_string.spec_bytes()),
            correction,
            size as int,
            fg,
            bg,
            quiet_zone as int,
            logo,
            res,
        ),
{
    let upper = to_ascii_uppercase(ur_string.as_bytes());
    render_qr(upper.as_slice(), correction, size, fg, bg, quiet_zone, logo)
}

/// The PNG file that `image`'s `PngEncoder` writes for an RGBA8 image.
pub uninterp spec fn png_encoding(rgba: Seq<u8>, width: u32, height: u32) -> Seq<u8>;

/// The JPEG file that `image`'s `JpegEncoder` writes for an RGB8 image at a
/// quality setting.
pub uninterp spec fn jpeg_encoding(rgb: Seq<u8>, width: u32, height: u32, quality: u8) -> Seq<u8>;

/// Encodes with `image::codecs::png::PngEncoder::write_image` (RGBA8).
/// Trusted: encoding into a byte vector succeeds exactly when both sides
/// are non-zero (the `png` encoder refuses a zero width or height), and the
/// bytes are `png_encoding` of the arguments. The buffer must hold exactly
/// `width * height` pixels (the encoder asserts it). The error text is the
/// `image` error's message and is not stated.
#[verifier::external_body]
fn png_encode_rgba(rgba: &[u8], width: u32, height: u32) -> (res: Result<Vec<u8>, String>)
    requires
        rgba@.len() == width * height * 4,
    ensures
        res is Ok <==> (width > 0 && height > 0),
        res matches Ok(b) ==> b@ == png_encoding(rgba@, width, height),
{
    let mut buf = Vec::new();
    match image::codecs::png::PngEncoder::new(&mut buf).write_image(rgba, width, height, image::ExtendedColorType::Rgba8) {
        Ok(()) => Ok(buf),
        Err(e) => Err(e.to_string()),
    }
}

/// Encodes with `image::codecs::jpeg::JpegEncoder::new_with_quality` and
/// `write_image` (RGB8).
/// Trusted: encoding into a byte vector succeeds exactly when both sides
/// are from 1 to 65535 (JPEG stores them in 16 bits; `encode_image` refuses
/// others), and the bytes are `jpeg_encoding` of the arguments. The buffer
/// must hold exactly `width * height` pixels (the encoder asserts it). The
/// error text is the `image` error's message and is not stated.
#[verifier::external_body]
fn jpeg_encode_rgb(rgb: &[u8], width: u32, height: u32, quality: u8) -> (res: Result<Vec<u8>, String>)
    requires
        rgb@.len() == width * height * 3,
    ensures
        res is Ok <==> (1 <= width <= 65535 && 1 <= height <= 65535),
        res matches Ok(b) ==> b@ == jpeg_encoding(rgb@, width, height, quality),
{
    let mut buf = Vec::new();
    match image::codecs::jpeg::JpegEncoder::new_with_quality(&mut buf, quality).write_image(rgb, width, height, image::ExtendedColorType::Rgb8) {
        Ok(()) => Ok(buf),
        Err(e) => Err(e.to_string()),
    }
}

/// The RGB bytes of the whole RGBA pixels of a buffer (alpha dropped).
pub open spec fn rgb_of(rgba: Seq<u8>) -> Seq<u8> {
    Seq::new((rgba.len() / 4 * 3) as nat, |i: int| rgba[i / 3 * 4 + i % 3])
}

/// Drops the alpha channel of every whole RGBA pixel.
pub fn rgba_to_rgb(rgba: &Vec<u8>) -> (rgb: Vec<u8>)
    ensures
        rgb@ == rgb_of(rgba@),
{
    let len = rgba.len();
    let n = len / 4;
    let mut rgb: Vec<u8> = Vec::with_capacity(n);
    let mut k: usize = 0;
    while k < n
        invariant
            len == rgba@.len(),
            n == len / 4,
            k <= n,
            rgb@ == rgb_of(rgba@).take(3 * k as int),
        decreases n - k,
    {
        rgb.push(rgba[4 * k]);
        rgb.push(rgba[4 * k + 1]);
        rgb.push(rgba[4 * k + 2]);
        assert(rgb_of(rgba@).take(3 * (k + 1) as int) =~= rgb_of(rgba@).take(3 * k as int).push(
            rgba@[4 * k as int],
        ).push(rgba@[4 * k + 1]).push(rgba@[4 * k + 2]));
        k = k + 1;
    }
    assert(rgb_of(rgba@).take(3 * n as int) =~= rgb_of(rgba@));
    rgb
}

impl RenderedImage {
    /// Encode as PNG.
    pub fn to_png(&self) -> (res: Result<Vec<u8>, Error>)
        requires
            self.pixels@.len() == self.width * self.height * 4,
        ensures
            res is Ok <==> (self.width > 0 && self.height > 0),
            res matches Ok(b) ==> b@ == png_encoding(self.pixels@, self.width, self.height),
            res matches Err(e) ==> e is ImageEncode,
    {
        match png_encode_rgba(self.pixels.as_slice(), self.width, self.height) {
            Ok(buf) => Ok(buf),
            Err(msg) => Err(Error::ImageEncode(msg)),
        }
    }

    /// Encode as JPEG at the given quality (1–100). JPEG has no alpha, so
    /// the alpha channel is dropped first.
    pub fn to_jpeg(&self, quality: u8) -> (res: Result<Vec<u8>, Error>)
        requires
            self.pixels@.len() / 4 == self.width * self.height,
        ensures
            res is Ok <==> (1 <= self.width <= 65535 && 1 <= self.height <= 65535),
            res matches Ok(b) ==> b@ == jpeg_encoding(rgb_of(self.pixels@), self.width, self.height, quality),
            res matches Err(e) ==> e is ImageEncode,
    {
        // JPEG doesn't support alpha — convert to RGB
        let rgb = rgba_to_rgb(&self.pixels);
        match jpeg_encode_rgb(rgb.as_slice(), self.width, self.height, quality) {
            Ok(buf) => Ok(buf),
            Err(msg) => Err(Error::ImageEncode(msg)),
        }
    }
}

/// Scaling to the same size reads every pixel from its own place.
pub proof fn lemma_nearest_same_size(i: int, n: int)
    requires
        0 <= i < n,
    ensures
        nearest_index(i, n, n) == i,
{
    assert(i * n / n == i) by {
        vstd::arithmetic::div_mod::lemma_div_by_multiple(i, n);
    }
}

/// The quiet zone is background: a compositing pixel outside the code area
/// has the background color, whatever logo is laid over the code.
pub proof fn lemma_quiet_zone_is_background(
    m: QrModules,
    qz: int,
    p: int,
    fg: Color,
    bg: Color,
    logo: Option<LogoOverlay>,
    cx: int,
    cy: int,
)
    requires
        m.wf(),
        qz >= 0,
        p >= 1,
        logo matches Some(o) ==> overlay_fits(o, m.width as int, p),
        0 <= cx,
        0 <= cy,
        cx < qz * p || cy < qz * p || cx >= (qz + m.width) * p || cy >= (qz + m.width) * p,
    ensures
        composed_color(m, qz, p, fg, bg, logo, cx, cy) == bg,
{
    let n = m.width as int;
    lemma_div_cell(cx, p, cx / p);
    lemma_div_cell(cy, p, cy / p);
    assert(cx / p < qz || cy / p < qz || cx / p >= qz + n || cy / p >= qz + n) by {
        if cx < qz * p {
            vstd::arithmetic::div_mod::lemma_div_is_ordered(cx, qz * p - 1, p);
            vstd::arithmetic::div_mod::lemma_fundamental_div_mod(qz * p - 1, p);
            assert((qz * p - 1) / p < qz) by (nonlinear_arith)
                requires p >= 1, qz * p - 1 == p * ((qz * p - 1) / p) + (qz * p - 1) % p,
                    0 <= (qz * p - 1) % p < p;
        } else if cy < qz * p {
            vstd::arithmetic::div_mod::lemma_div_is_ordered(cy, qz * p - 1, p);
            vstd::arithmetic::div_mod::lemma_fundamental_div_mod(qz * p - 1, p);
            assert((qz * p - 1) / p < qz) by (nonlinear_arith)
                requires p >= 1, qz * p - 1 == p * ((qz * p - 1) / p) + (qz * p - 1) % p,
                    0 <= (qz * p - 1) % p < p;
        } else if cx >= (qz + n) * p {
            vstd::arithmetic::div_mod::lemma_div_is_ordered((qz + n) * p, cx, p);
            vstd::arithmetic::div_mod::lemma_div_by_multiple(qz + n, p);
        } else {
            vstd::arithmetic::div_mod::lemma_div_is_ordered((qz + n) * p, cy, p);
            vstd::arithmetic::div_mod::lemma_div_by_multiple(qz + n, p);
        }
    }
    match logo {
        None => {},
        Some(o) => {
            let d = o.layout.cleared_modules as int;
            let ls = logo_side(o, p);
            assert(d * p <= n * p && ls <= n * p) by (nonlinear_arith)
                requires d <= n, ls == o.layout.logo_modules * p, o.layout.logo_modules <= d, p >= 1;
            assert(qz * p + n * p == (qz + n) * p) by (nonlinear_arith);
            assert(!logo_cleared(o, n, qz, p, cx, cy));
            assert(!in_rect(cx, cy, centered_origin(n, qz, p, ls), centered_origin(n, qz, p, ls), ls, ls));
        },
    }
}

/// Compositing a logo never changes a pixel of the quiet zone: outside the
/// code area, the logo layer leaves whatever lies under it.
pub proof fn lemma_logo_leaves_quiet_zone(
    o: LogoOverlay,
    n: int,
    qz: int,
    p: int,
    bg: Color,
    under: Color,
    cx: int,
    cy: int,
)
    requires
        n >= 1,
        qz >= 0,
        p >= 1,
        overlay_fits(o, n, p),
        0 <= cx,
        0 <= cy,
        cx < qz * p || cy < qz * p || cx >= (qz + n) * p || cy >= (qz + n) * p,
    ensures
        logo_over(o, n, qz, p, bg, under, cx, cy) == under,
{
    let d = o.layout.cleared_modules as int;
    let ls = logo_side(o, p);
    assert(d * p <= n * p && ls <= n * p) by (nonlinear_arith)
        requires d <= n, ls == o.layout.logo_modules * p, o.layout.logo_modules <= d, p >= 1;
    assert(qz * p + n * p == (qz + n) * p) by (nonlinear_arith);
    lemma_div_cell(cx, p, cx / p);
    lemma_div_cell(cy, p, cy / p);
    assert(cx / p < qz || cy / p < qz || cx / p >= qz + n || cy / p >= qz + n) by {
        if cx < qz * p {
            vstd::arithmetic::div_mod::lemma_div_is_ordered(cx, qz * p - 1, p);
            vstd::arithmetic::div_mod::lemma_fundamental_div_mod(qz * p - 1, p);
            assert((qz * p - 1) / p < qz) by (nonlinear_arith)
                requires p >= 1, qz * p - 1 == p * ((qz * p - 1) / p) + (qz * p - 1) % p,
                    0 <= (qz * p - 1) % p < p;
        } else if cy < qz * p {
            vstd::arithmetic::div_mod::lemma_div_is_ordered(cy, qz * p - 1, p);
            vstd::arithmetic::div_mod::lemma_fundamental_div_mod(qz * p - 1, p);
            assert((qz * p - 1) / p < qz) by (nonlinear_arith)
                requires p >= 1, qz * p - 1 == p * ((qz * p - 1) / p) + (qz * p - 1) % p,
                    0 <= (qz * p - 1) % p < p;
        } else if cx >= (qz + n) * p {
            vstd::arithmetic::div_mod::lemma_div_is_ordered((qz + n) * p, cx, p);
            vstd::arithmetic::div_mod::lemma_div_by_multiple(qz + n, p);
        } else {
            vstd::arithmetic::div_mod::lemma_div_is_ordered((qz + n) * p, cy, p);
            vstd::arithmetic::div_mod::lemma_div_by_multiple(qz + n, p);
        }
    }
    assert(!logo_cleared(o, n, qz, p, cx, cy));
    assert(!in_rect(cx, cy, centered_origin(n, qz, p, ls), centered_origin(n, qz, p, ls), ls, ls));
}

/// The area cleared behind a logo takes the background color, unless the
/// background is (effectively) transparent, alpha below 3, where it is
/// cleared with opaque white: a pixel of the cleared area outside the logo
/// square shows that color whatever lay under it.
pub proof fn lemma_cleared_area_color(
    m: QrModules,
    o: LogoOverlay,
    qz: int,
    p: int,
    fg: Color,
    bg: Color,
    cx: int,
    cy: int,
)
    requires
        o.layout.logo_modules >= 1,
        logo_cleared(o, m.width as int, qz, p, cx, cy),
        !in_rect(
            cx,
            cy,
            centered_origin(m.width as int, qz, p, logo_side(o, p)),
            centered_origin(m.width as int, qz, p, logo_side(o, p)),
            logo_side(o, p),
            logo_side(o, p),
        ),
    ensures
        bg.a >= 3 ==> composed_color(m, qz, p, fg, bg, Some(o), cx, cy) == bg,
        bg.a < 3 ==> composed_color(m, qz, p, fg, bg, Some(o), cx, cy) == (Color { r: 255, g: 255, b: 255, a: 255 }),
        // The modules under the cleared area do not show through.
        composed_color(m, qz, p, fg, bg, Some(o), cx, cy) == composed_color(m, qz, p, bg, bg, Some(o), cx, cy),
{
}

/// A logo preparer gives one overlay for each module count and module size.
pub open spec fn preparer_deterministic<F: Fn(usize, usize) -> Option<LogoOverlay>>(f: F) -> bool {
    forall|n: usize, p: usize, r1: Option<LogoOverlay>, r2: Option<LogoOverlay>|
        #[trigger] f.ensures((n, p), r1) && #[trigger] f.ensures((n, p), r2) ==> r1 == r2
}

/// Two rendering results are the same: the same image (size and pixels),
/// or errors of the same kind.
pub open spec fn same_render(r1: Result<RenderedImage, Error>, r2: Result<RenderedImage, Error>) -> bool {
    match (r1, r2) {
        (Ok(a), Ok(b)) => a.width == b.width && a.height == b.height && a.pixels@ == b.pixels@,
        (Err(e1), Err(e2)) => (e1 is QrEncode <==> e2 is QrEncode) && (e1 is InvalidParameter
            <==> e2 is InvalidParameter),
        _ => false,
    }
}

/// Two images that render the same modules with the same overlay are the
/// same image.
proof fn lemma_renders_unique(
    a: RenderedImage,
    b: RenderedImage,
    m: QrModules,
    size: int,
    qz: int,
    fg: Color,
    bg: Color,
    logo: Option<LogoOverlay>,
)
    requires
        size >= 0,
        renders(a, m, size, qz, fg, bg, logo),
        renders(b, m, size, qz, fg, bg, logo),
    ensures
        a.pixels@ == b.pixels@,
{
    assert forall|i: int| 0 <= i < a.pixels@.len() implies a.pixels@[i] == b.pixels@[i] by {
        assert(size > 0 && 0 <= i < size * size * 4) by (nonlinear_arith)
            requires 0 <= i < a.pixels@.len(), a.pixels@.len() == size * size * 4, size >= 0;
        let k = i / 4;
        let x = k % size;
        let y = k / size;
        assert(0 <= k < size * size);
        vstd::arithmetic::div_mod::lemma_fundamental_div_mod(k, size);
        assert(0 <= x < size);
        assert(0 <= y < size) by (nonlinear_arith)
            requires 0 <= k < size * size, y == k / size, size > 0, k == size * y + x, 0 <= x < size;
        assert(pixel_offset(size, x, y) == 4 * k) by (nonlinear_arith)
            requires k == size * y + x;
        assert(color_at(a.pixels@, size, x, y) == color_at(b.pixels@, size, x, y));
        assert(i == 4 * k + i % 4);
    }
    assert(a.pixels@ =~= b.pixels@);
}

/// Rendering is a function of its arguments where the logo preparer is: two
/// results that both meet `qr_render_outcome` for the same message and
/// arguments are the same. With `render_ur_qr`'s contract (the outcome for
/// the string's bytes in capitals) this makes `render_ur_qr(s, ..)` the same
/// as `render_qr` on the capitals of `s`.
pub proof fn lemma_same_outcome_same_image<F: Fn(usize, usize) -> Option<LogoOverlay>>(
    message: Seq<u8>,
    correction: CorrectionLevel,
    size: int,
    fg: Color,
    bg: Color,
    quiet_zone: int,
    logo: Option<&F>,
    r1: Result<RenderedImage, Error>,
    r2: Result<RenderedImage, Error>,
)
    requires
        size >= 0,
        logo matches Some(f) ==> preparer_deterministic(*f),
        qr_render_outcome(message, correction, size, fg, bg, quiet_zone, logo, r1),
        qr_render_outcome(message, correction, size, fg, bg, quiet_zone, logo, r2),
    ensures
        same_render(r1, r2),
{
    match (r1, r2) {
        (Ok(a), Ok(b)) => {
            let sym = qr_symbol(message, correction).unwrap();
            let m = QrModules { width: sym.0, modules: sym.1 };
            match logo {
                None => {
                    lemma_renders_unique(a, b, m, size, quiet_zone, fg, bg, None);
                },
                Some(f) => {
                    let args = (m.width as usize, module_pixels(m.width as int, size, quiet_zone) as usize);
                    let oa = choose|o: Option<LogoOverlay>| #[trigger] f.ensures(args, o) && renders(a, m, size, quiet_zone, fg, bg, o);
                    let ob = choose|o: Option<LogoOverlay>| #[trigger] f.ensures(args, o) && renders(b, m, size, quiet_zone, fg, bg, o);
                    assert(f.ensures(args, oa) && f.ensures(args, ob));
                    assert(oa == ob);
                    lemma_renders_unique(a, b, m, size, quiet_zone, fg, bg, oa);
                },
            }
        },
        _ => {},
    }
}

/// A logo layout without logo modules leaves the code as it is: nothing is
/// cleared and nothing is drawn.
pub proof fn lemma_empty_logo_changes_nothing(
    o: LogoOverlay,
    n: int,
    qz: int,
    p: int,
    bg: Color,
    under: Color,
    cx: int,
    cy: int,
)
    requires
        o.layout.logo_modules == 0,
    ensures
        logo_over(o, n, qz, p, bg, under, cx, cy) == under,
{
}

/// With a quiet zone, the top-left pixel of the rendered image has the
/// background color.
pub proof fn lemma_corner_is_background(
    m: QrModules,
    size: int,
    qz: int,
    fg: Color,
    bg: Color,
    logo: Option<LogoOverlay>,
)
    requires
        m.wf(),
        qz >= 1,
        size >= 1,
        logo matches Some(o) ==> overlay_fits(o, m.width as int, module_pixels(m.width as int, size, qz)),
    ensures
        rendered_color(m, size, qz, fg, bg, logo, 0, 0) == bg,
{
    let p = module_pixels(m.width as int, size, qz);
    let c = compositing_side(m.width as int, size, qz);
    assert(qz * p >= 1) by (nonlinear_arith)
        requires qz >= 1, p >= 1;
    assert(c >= 1) by (nonlinear_arith)
        requires c == (m.width + 2 * qz) * p, p >= 1, qz >= 1;
    assert(nearest_index(0, c, size) == 0);
    lemma_quiet_zone_is_background(m, qz, p, fg, bg, logo, 0, 0);
}

/// Without a logo, every pixel of a dark module has the foreground color
/// and every pixel of a light module the background color.
pub proof fn lemma_module_pixels_colored(
    m: QrModules,
    qz: int,
    p: int,
    fg: Color,
    bg: Color,
    col: int,
    row: int,
    cx: int,
    cy: int,
)
    requires
        m.wf(),
        qz >= 0,
        p >= 1,
        0 <= col < m.width,
        0 <= row < m.width,
        in_rect(cx, cy, qz * p + col * p, qz * p + row * p, p, p),
    ensures
        composed_color(m, qz, p, fg, bg, None, cx, cy) == if m.dark(col, row) {
            fg
        } else {
            bg
        },
{
    assert(qz * p + col * p >= 0 && qz * p + row * p >= 0) by (nonlinear_arith)
        requires qz >= 0, p >= 1, col >= 0, row >= 0;
    lemma_module_rect(cx, cy, p, qz, col, row);
}

} // verus!
