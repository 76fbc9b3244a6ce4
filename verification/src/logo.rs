//! Logo overlays: the clear shape, the layout of the logo within the QR
//! modules, and the pixel preparation that does not need floating point.

use vstd::prelude::*;
use vstd::string::*;
use crate::error::Error;
use crate::text::{ascii_chars, decimal_digits, decimal_string, lower_bytes, to_ascii_lowercase};
use crate::correction::word_is;

verus! {

/// Shape used to clear the center area behind the logo.
#[derive(Debug, Clone, Copy, PartialEq, Eq, Structural)]
pub enum LogoClearShape {
    Square,
    Circle,
}

/// Logo layout in modules: the odd width of the logo square and the width of
/// the cleared area around it.
#[derive(Debug, Clone, Copy, PartialEq, Eq, Structural)]
pub struct LogoLayout {
    pub logo_modules: usize,
    pub cleared_modules: usize,
}

/// A logo ready to be composited onto a QR code of a given module count and
/// module size: its layout, the shape of the cleared area, and its RGBA pixels
/// already scaled to a square of `logo_modules * pixels_per_module` pixels.
#[derive(Debug, Clone)]
pub struct LogoOverlay {
    pub layout: LogoLayout,
    pub clear_shape: LogoClearShape,
    pub pixels: Vec<u8>,
}

/// Side in pixels of the logo square for a module size of `p` pixels.
pub open spec fn logo_side(o: LogoOverlay, p: int) -> int {
    o.layout.logo_modules * p
}

/// The overlay can be composited onto a QR code `n` modules wide whose
/// modules are `p` pixels wide: a logo (possibly of no modules) inside a
/// cleared area that fits in the code, with one scaled pixel for each pixel
/// of the logo square.
pub open spec fn overlay_fits(o: LogoOverlay, n: int, p: int) -> bool {
    &&& o.layout.logo_modules <= o.layout.cleared_modules <= n
    &&& o.pixels@.len() == logo_side(o, p) * logo_side(o, p) * 4
}

/// The shape that a (case-insensitive) name stands for.
pub open spec fn clear_shape_from_lower(t: Seq<u8>) -> Option<LogoClearShape> {
    // "square", "circle"
    if t == [115u8, 113, 117, 97, 114, 101]@ {
        Some(LogoClearShape::Square)
    } else if t == [99u8, 105, 114, 99, 108, 101]@ {
        Some(LogoClearShape::Circle)
    } else {
        None
    }
}

/// The bytes of the lower-case name of a shape.
pub open spec fn clear_shape_name_bytes(s: LogoClearShape) -> Seq<u8> {
    match s {
        LogoClearShape::Square => [115u8, 113, 117, 97, 114, 101]@,
        LogoClearShape::Circle => [99u8, 105, 114, 99, 108, 101]@,
    }
}

/// Parsing the name of a shape gives the shape back.
pub proof fn lemma_clear_shape_name_round_trip(s: LogoClearShape)
    ensures
        clear_shape_from_lower(lower_bytes(clear_shape_name_bytes(s))) == Some(s),
{
    let b = clear_shape_name_bytes(s);
    assert(lower_bytes(b) =~= b);
}

pub open spec fn clear_shape_name(s: LogoClearShape) -> Seq<char> {
    match s {
        LogoClearShape::Square => "square"@,
        LogoClearShape::Circle => "circle"@,
    }
}

impl LogoClearShape {
    /// The lower-case name of the shape.
    pub fn name(self) -> (s: &'static str)
        ensures
            s@ == clear_shape_name(self),
            s.spec_bytes() == clear_shape_name_bytes(self),
    {
        match self {
            LogoClearShape::Square => {
                let r = "square";
                proof {
                    reveal_strlit("square");
                    vstd::utf8::is_ascii_chars_encode_utf8(r@);
                    assert(r.spec_bytes() =~= [115u8, 113, 117, 97, 114, 101]@);
                }
                r
            },
            LogoClearShape::Circle => {
                let r = "circle";
                proof {
                    reveal_strlit("circle");
                    vstd::utf8::is_ascii_chars_encode_utf8(r@);
                    assert(r.spec_bytes() =~= [99u8, 105, 114, 99, 108, 101]@);
                }
                r
            },
        }
    }

    /// Parses `square` or `circle`, in any ASCII letter case.
    pub fn parse(s: &str) -> (res: Result<Self, String>)
        ensures
            res is Ok <==> clear_shape_from_lower(lower_bytes(s.spec_bytes())) is Some,
            res matches Ok(v) ==> clear_shape_from_lower(lower_bytes(s.spec_bytes())) == Some(v),
            res matches Err(m) ==> m@ == "unknown clear shape: "@ + s@ + " (expected square or circle)"@,
    {
        let lower = to_ascii_lowercase(s.as_bytes());
        let t = lower.as_slice();
        if word_is(t, &[115u8, 113, 117, 97, 114, 101]) {
            Ok(LogoClearShape::Square)
        } else if word_is(t, &[99u8, 105, 114, 99, 108, 101]) {
            Ok(LogoClearShape::Circle)
        } else {
            let mut msg = String::from_str("unknown clear shape: ");
            msg.append(s);
            msg.append(" (expected square or circle)");
            Err(msg)
        }
    }
}

/// Largest cleared area: forty percent of the module count, rounded down.
pub open spec fn max_cleared_modules(module_count: int) -> int {
    module_count * 2 / 5
}

/// Logo layout for a code of `m` modules, a logo target of `t` modules and
/// a clear border of `b` modules: the logo is made odd (rounding up) for
/// symmetry and surrounded by the border; where that exceeds forty percent
/// of the code, the cleared area is capped there and the logo shrinks to fit
/// inside the border (made odd again by rounding down).
pub open spec fn logo_layout(m: int, t: int, b: int) -> LogoLayout {
    let logo0 = if t % 2 == 0 { t + 1 } else { t };
    let cleared0 = logo0 + 2 * b;
    let max_cleared = max_cleared_modules(m);
    let cleared = if cleared0 > max_cleared { max_cleared } else { cleared0 };
    let logo1 = if cleared0 > max_cleared {
        if cleared >= 2 * b { cleared - 2 * b } else { 0 }
    } else {
        logo0
    };
    let logo = if logo1 % 2 == 0 && logo1 > 0 { logo1 - 1 } else { logo1 };
    LogoLayout { logo_modules: logo as usize, cleared_modules: cleared as usize }
}

impl LogoLayout {
    /// Logo layout calculation for a code of `module_count` modules, where
    /// `target_modules` is the logo's share of the module count rounded to
    /// the nearest module.
    pub fn new(module_count: usize, target_modules: usize, clear_border: usize) -> (l: Self)
        requires
            (if target_modules % 2 == 0 { target_modules + 1 } else { target_modules as int }) + 2 * clear_border
                <= usize::MAX,
        ensures
            l == logo_layout(module_count as int, target_modules as int, clear_border as int),
            l.cleared_modules <= max_cleared_modules(module_count as int),
            l.logo_modules <= l.cleared_modules,
            l.logo_modules % 2 == 1 || l.logo_modules == 0,
    {
        let mut logo = target_modules;
        // Force odd for symmetry
        if logo % 2 == 0 {
            logo = logo + 1;
        }
        let mut cleared = logo + 2 * clear_border;
        // Cap cleared area at 40% of module count
        let max_cleared = module_count / 5 * 2 + module_count % 5 * 2 / 5;
        assert(max_cleared == module_count * 2 / 5) by {
            vstd::arithmetic::div_mod::lemma_fundamental_div_mod(module_count as int, 5);
        }
        if cleared > max_cleared {
            cleared = max_cleared;
            logo = if cleared >= 2 * clear_border { cleared - 2 * clear_border } else { 0 };
        }
        // Re-ensure odd after capping
        if logo % 2 == 0 && logo > 0 {
            logo = logo - 1;
        }
        LogoLayout { logo_modules: logo, cleared_modules: cleared }
    }
}

/// Check that a clear border is at most five modules.
pub fn validate_clear_border(b: usize) -> (res: Result<usize, Error>)
    ensures
        res is Ok <==> b <= 5,
        res matches Ok(v) ==> v == b,
        res matches Err(e) ==> e matches Error::InvalidParameter(m) && m@ == "clear_border must be 0–5, got "@
            + ascii_chars(decimal_digits(b as nat)),
{
    if b > 5 {
        let mut msg = String::from_str("clear_border must be 0–5, got ");
        msg.append(decimal_string(b as u64).as_str());
        return Err(Error::InvalidParameter(msg));
    }
    Ok(b)
}

/// Whether `image::load_from_memory` decodes these bytes: they are an image
/// in a supported format that its decoder reads without error.
pub uninterp spec fn image_decodes(data: Seq<u8>) -> bool;

/// Decodes with `image::load_from_memory`, converts with `into_rgba8` and
/// takes the pixels with `into_raw`.
/// Trusted: it succeeds exactly where `image_decodes` holds of the bytes,
/// and the pixel buffer holds exactly `width * height` RGBA pixels (an RGBA8
/// `ImageBuffer` holds exactly that many). Which pixels come out is not
/// stated: some decoders pick machine-specific code paths at run time. The
/// error text is the `image` error's message and is not stated.
#[verifier::external_body]
fn image_decode_rgba(data: &[u8]) -> (res: Result<(Vec<u8>, u32, u32), String>)
    ensures
        res is Ok <==> image_decodes(data@),
        res matches Ok(t) ==> t.0@.len() == t.1 * t.2 * 4,
{
    match image::load_from_memory(data) {
        Ok(img) => {
            let img = img.into_rgba8();
            let (width, height) = (img.width(), img.height());
            Ok((img.into_raw(), width, height))
        },
        Err(e) => Err(e.to_string()),
    }
}

/// A decoded image: RGBA pixels, row-major, and its size.
pub struct DecodedImage {
    pub pixels: Vec<u8>,
    pub width: u32,
    pub height: u32,
}

/// Decodes PNG or JPEG image bytes into RGBA pixels.
pub fn decode_image(data: &[u8]) -> (res: Result<DecodedImage, Error>)
    ensures
        res is Ok <==> image_decodes(data@),
        res matches Ok(img) ==> img.pixels@.len() == img.width * img.height * 4,
        res matches Err(e) ==> e matches Error::ImageEncode(m) && m@.subrange(0, 24) == "failed to decode image: "@,
{
    match image_decode_rgba(data) {
        Ok(t) => {
            let (pixels, width, height) = t;
            Ok(DecodedImage { pixels, width, height })
        },
        Err(m) => {
            let mut msg = String::from_str("failed to decode image: ");
            proof {
                reveal_strlit("failed to decode image: ");
            }
            let ghost prefix = msg@;
            msg.append(m.as_str());
            assert(msg@.subrange(0, 24) =~= prefix);
            Err(Error::ImageEncode(msg))
        },
    }
}

/// Checks that an RGBA buffer holds exactly `width * height` pixels.
pub fn validate_rgba_buffer(pixels: &Vec<u8>, width: u32, height: u32) -> (res: Result<(), Error>)
    requires
        width * height * 4 <= u32::MAX,
    ensures
        res is Ok <==> pixels@.len() == width * height * 4,
        res matches Err(e) ==> e matches Error::InvalidParameter(m) && m@ == "pixel buffer size "@
            + ascii_chars(decimal_digits(pixels@.len())) + " doesn't match "@ + ascii_chars(
            decimal_digits(width as nat),
        ) + "x"@ + ascii_chars(decimal_digits(height as nat)) + "x4"@,
{
    let expected = (width * height * 4) as usize;
    if pixels.len() != expected {
        let mut msg = String::from_str("pixel buffer size ");
        msg.append(decimal_string(pixels.len() as u64).as_str());
        msg.append(" doesn't match ");
        msg.append(decimal_string(width as u64).as_str());
        msg.append("x");
        msg.append(decimal_string(height as u64).as_str());
        msg.append("x4");
        return Err(Error::InvalidParameter(msg));
    }
    Ok(())
}

/// Pixel `k` of a packed RGBA buffer.
pub open spec fn nth_pixel(buf: Seq<u8>, k: int) -> crate::color::Color {
    crate::color::Color { r: buf[4 * k], g: buf[4 * k + 1], b: buf[4 * k + 2], a: buf[4 * k + 3] }
}

/// Straight (not premultiplied) form of a premultiplied RGBA pixel: fully
/// transparent and opaque pixels are kept (transparent ones zeroed), others
/// have each color channel divided by alpha, rounding to nearest.
pub open spec fn demultiply_pixel(c: crate::color::Color) -> crate::color::Color {
    if c.a == 0 {
        crate::color::Color { r: 0, g: 0, b: 0, a: 0 }
    } else if c.a == 255 {
        c
    } else {
        crate::color::Color {
            r: ((c.r * 255 + c.a / 2) / c.a as int) as u8,
            g: ((c.g * 255 + c.a / 2) / c.a as int) as u8,
            b: ((c.b * 255 + c.a / 2) / c.a as int) as u8,
            a: c.a,
        }
    }
}

/// Demultiplying turns each partly transparent premultiplied pixel (alpha
/// `a` from 1 to 254, channels `c <= a`) into its straight form: each
/// channel becomes `c * 255 / a` rounded to nearest (halves up), a value of
/// at least `c` and at most 255 that is 255 exactly for a full channel
/// (`c == a`); alpha is kept.
pub proof fn lemma_demultiply_rounds(data: Seq<u8>, out: Seq<u8>, k: int)
    requires
        data.len() % 4 == 0,
        out.len() == data.len(),
        forall|j: int|
            0 <= j < data.len() / 4 ==> #[trigger] nth_pixel(out, j) == demultiply_pixel(nth_pixel(data, j)),
        0 <= k < data.len() / 4,
        0 < nth_pixel(data, k).a < 255,
        nth_pixel(data, k).r <= nth_pixel(data, k).a,
        nth_pixel(data, k).g <= nth_pixel(data, k).a,
        nth_pixel(data, k).b <= nth_pixel(data, k).a,
    ensures
        ({
            let a = nth_pixel(data, k).a as int;
            let i = nth_pixel(data, k);
            let o = nth_pixel(out, k);
            &&& o.a == i.a
            &&& straight_channel(i.r as int, a, o.r as int)
            &&& straight_channel(i.g as int, a, o.g as int)
            &&& straight_channel(i.b as int, a, o.b as int)
        }),
{
    let a = nth_pixel(data, k).a as int;
    let i = nth_pixel(data, k);
    assert(nth_pixel(out, k) == demultiply_pixel(i));
    lemma_straight_channel(i.r as int, a);
    lemma_straight_channel(i.g as int, a);
    lemma_straight_channel(i.b as int, a);
}

/// `o` is the straight value of premultiplied channel `c` at alpha `a`:
/// `c * 255 / a` rounded to nearest (halves up), within `c ..= 255`, and 255
/// for a full channel.
pub open spec fn straight_channel(c: int, a: int, o: int) -> bool {
    &&& o * a <= c * 255 + a / 2 < (o + 1) * a
    &&& c <= o <= 255
    &&& c == a ==> o == 255
}

proof fn lemma_straight_channel(c: int, a: int)
    requires
        0 < a < 255,
        0 <= c <= a,
    ensures
        straight_channel(c, a, ((c * 255 + a / 2) / a) as u8 as int),
{
    let q = (c * 255 + a / 2) / a;
    vstd::arithmetic::div_mod::lemma_fundamental_div_mod(c * 255 + a / 2, a);
    let r = (c * 255 + a / 2) % a;
    assert(q <= 255) by (nonlinear_arith)
        requires c <= a, 0 < a, a * q + r == c * 255 + a / 2, 0 <= r, a / 2 < a;
    assert(q >= c) by (nonlinear_arith)
        requires 0 <= c, 0 < a < 255, a * q + r == c * 255 + a / 2, r < a, 0 <= a / 2;
    assert(c == a ==> q == 255) by (nonlinear_arith)
        requires 0 < a, a * q + r == c * 255 + a / 2, 0 <= r < a, 0 <= a / 2 < a;
    assert(q * a <= c * 255 + a / 2 < (q + 1) * a) by (nonlinear_arith)
        requires a * q + r == c * 255 + a / 2, 0 <= r < a;
    assert(q as u8 as int == q);
}

/// Demultiplying a buffer of opaque pixels gives it back unchanged.
pub proof fn lemma_demultiply_opaque_identity(data: Seq<u8>, out: Seq<u8>)
    requires
        data.len() % 4 == 0,
        out.len() == data.len(),
        forall|k: int|
            0 <= k < data.len() / 4 ==> #[trigger] nth_pixel(out, k) == demultiply_pixel(nth_pixel(data, k)),
        forall|k: int| 0 <= k < data.len() / 4 ==> (#[trigger] nth_pixel(data, k)).a == 255,
    ensures
        out == data,
{
    assert forall|i: int| 0 <= i < data.len() implies out[i] == data[i] by {
        let k = i / 4;
        assert(nth_pixel(out, k) == demultiply_pixel(nth_pixel(data, k)));
        assert(nth_pixel(data, k).a == 255);
        assert(i == 4 * k + i % 4);
    }
    assert(out =~= data);
}

/// Convert premultiplied RGBA to straight RGBA.
pub fn demultiply_alpha(data: &[u8]) -> (out: Vec<u8>)
    requires
        data@.len() % 4 == 0,
    ensures
        out@.len() == data@.len(),
        forall|k: int|
            0 <= k < data@.len() / 4 ==> #[trigger] nth_pixel(out@, k) == demultiply_pixel(
                nth_pixel(data@, k),
            ),
{
    let mut out = vec![0u8; data.len()];
    let mut i: usize = 0;
    while i < data.len()
        invariant
            data@.len() % 4 == 0,
            i % 4 == 0,
            i <= data@.len(),
            out@.len() == data@.len(),
            forall|k: int|
                0 <= k < i / 4 ==> #[trigger] nth_pixel(out@, k) == demultiply_pixel(nth_pixel(data@, k)),
        decreases data@.len() - i,
    {
        let a = data[i + 3] as u16;
        let ghost before = out@;
        if a == 0 {
            // Fully transparent
            out[i] = 0;
            out[i + 1] = 0;
            out[i + 2] = 0;
            out[i + 3] = 0;
        } else if a == 255 {
            out[i] = data[i];
            out[i + 1] = data[i + 1];
            out[i + 2] = data[i + 2];
            out[i + 3] = data[i + 3];
        } else {
            out[i] = (#[verifier::truncate] (((data[i] as u16 * 255 + a / 2) / a) as u8));
            out[i + 1] = (#[verifier::truncate] (((data[i + 1] as u16 * 255 + a / 2) / a) as u8));
            out[i + 2] = (#[verifier::truncate] (((data[i + 2] as u16 * 255 + a / 2) / a) as u8));
            out[i + 3] = a as u8;
        }
        assert(nth_pixel(out@, i as int / 4) == demultiply_pixel(nth_pixel(data@, i as int / 4)));
        assert((i + 4) / 4 == i / 4 + 1);
        assert forall|k: int| 0 <= k < i / 4 implies #[trigger] nth_pixel(out@, k) == nth_pixel(before, k) by {
            assert(4 * k + 3 < i);
        }
        i = i + 4;
    }
    out
}

impl std::str::FromStr for LogoClearShape {
    type Err = String;

    fn from_str(s: &str) -> (res: Result<Self, String>)
        ensures
            res is Ok <==> clear_shape_from_lower(lower_bytes(s.spec_bytes())) is Some,
            res matches Ok(v) ==> clear_shape_from_lower(lower_bytes(s.spec_bytes())) == Some(v),
            res matches Err(m) ==> m@ == "unknown clear shape: "@ + s@ + " (expected square or circle)"@,
    {
        LogoClearShape::parse(s)
    }
}

} // verus!
