//! Multipart animated QR generation: fountain-coded UR parts rendered frame
//! by frame, and their encoding as an animated GIF.

use vstd::prelude::*;
use vstd::string::*;
use vstd::utf8::encode_utf8;
use bc_ur::Error as UrError;
use crate::color::Color;
use crate::correction::CorrectionLevel;
use crate::error::Error;
use crate::logo::LogoOverlay;
use crate::qr_matrix::{QrMatrix, QrModules, check_qr_density, qr_symbol};
use crate::quantize::{
    color_indices, distinct_colors, index_pixels, lemma_distinct_colors, lemma_distinct_colors_prefix, no_duplicates,
    palette_bytes, palette_rgb, pixel_colors, position_of, quantize_frame, quantized_indices, quantized_palette,
};
use crate::render::{
    RenderedImage, logo_preparer_ok, render_fits, render_fits_code, render_from_matrix, renders_with, too_large,
};
use crate::text::{to_ascii_uppercase, upper_bytes};

verus! {

/// Parameters for multipart animated QR generation.
pub struct AnimateParams {
    /// Maximum fragment length for fountain coding (default 100).
    pub max_fragment_len: usize,
    /// Error correction level. `None` = auto: Low without logo, Quartile
    /// with logo.
    pub correction: Option<CorrectionLevel>,
    /// Target image size in pixels (default 512).
    pub size: u32,
    /// Foreground color (default black).
    pub foreground: Color,
    /// Background color (default white).
    pub background: Color,
    /// Quiet zone modules around the QR code (default 1).
    pub quiet_zone: u32,
    /// Number of complete cycles through all fragments (default 3).
    pub cycles: u32,
    /// If set, use exactly this many frames instead of
    /// `parts_count * cycles`. Returns `InsufficientFrames` if fewer than
    /// the fountain-coded fragment count.
    pub frame_count: Option<usize>,
    /// If set, check each frame's QR module count against this limit.
    /// Returns `QrCodeTooDense` if exceeded.
    pub max_modules: Option<usize>,
}

impl Default for AnimateParams {
    fn default() -> (p: Self)
        ensures
            p.max_fragment_len == 100,
            p.correction is None,
            p.size == 512,
            p.foreground == (Color { r: 0, g: 0, b: 0, a: 255 }),
            p.background == (Color { r: 255, g: 255, b: 255, a: 255 }),
            p.quiet_zone == 1,
            p.cycles == 3,
            p.frame_count is None,
            p.max_modules is None,
    {
        AnimateParams {
            max_fragment_len: 100,
            correction: None,
            size: 512,
            foreground: Color::black(),
            background: Color::white(),
            quiet_zone: 1,
            cycles: 3,
            frame_count: None,
            max_modules: None,
        }
    }
}

/// The correction level of an animation: the one given, else Quartile
/// where a logo is drawn and Low otherwise.
pub open spec fn animation_correction(correction: Option<CorrectionLevel>, has_logo: bool) -> CorrectionLevel {
    match correction {
        Some(c) => c,
        None => if has_logo {
            CorrectionLevel::Quartile
        } else {
            CorrectionLevel::Low
        },
    }
}

impl AnimateParams {
    /// The correction level for the frames (`has_logo`: a logo is drawn).
    pub fn effective_correction(&self, has_logo: bool) -> (c: CorrectionLevel)
        ensures
            c == animation_correction(self.correction, has_logo),
            self.correction matches Some(given) ==> c == given,
            self.correction is None && has_logo ==> c == CorrectionLevel::Quartile,
            self.correction is None && !has_logo ==> c == CorrectionLevel::Low,
    {
        match self.correction {
            Some(c) => c,
            None => if has_logo {
                CorrectionLevel::Quartile
            } else {
                CorrectionLevel::Low
            },
        }
    }
}

/// The correction level of an animation: a level that is given is used
/// with or without a logo; only where none is given does the logo decide:
/// Quartile with a logo, Low without.
pub proof fn lemma_animation_correction(given: Option<CorrectionLevel>, has_logo: bool)
    ensures
        forall|c: CorrectionLevel| given == Some(c) ==> animation_correction(given, has_logo) == c,
        given is None ==> animation_correction(given, has_logo) == if has_logo {
            CorrectionLevel::Quartile
        } else {
            CorrectionLevel::Low
        },
        given is Some ==> animation_correction(given, true) == animation_correction(given, false),
{
}

/// A single frame of a multipart QR animation.
pub struct QrFrame {
    /// The rendered RGBA image for this frame.
    pub image: RenderedImage,
    /// The part index (0-based).
    pub index: usize,
}

/// Frames to generate: the exact count if one is given, else one per part
/// per cycle.
pub open spec fn planned_frames(parts_count: int, frame_count: Option<usize>, cycles: int) -> int {
    match frame_count {
        Some(n) => n as int,
        None => parts_count * cycles,
    }
}

/// Decides how many frames to generate, refusing fewer frames than parts
/// (the receiver could not decode them).
pub fn plan_frame_count(parts_count: usize, frame_count: Option<usize>, cycles: u32) -> (res: Result<usize, Error>)
    ensures
        planned_frames(parts_count as int, frame_count, cycles as int) > usize::MAX ==> res matches Err(
            Error::InvalidParameter(_),
        ),
        planned_frames(parts_count as int, frame_count, cycles as int) <= usize::MAX ==> {
            let t = planned_frames(parts_count as int, frame_count, cycles as int);
            &&& res is Ok <==> t >= parts_count
            &&& res matches Ok(n) ==> n == t
            &&& res matches Err(e) ==> e matches Error::InsufficientFrames { requested, fragments }
                && requested == t && fragments == parts_count
        },
{
    let total_frames = match frame_count {
        Some(n) => n,
        None => {
            let c = cycles as usize;
            if c > 0 && parts_count > usize::MAX / c {
                assert(parts_count * c > usize::MAX) by (nonlinear_arith)
                    requires
                        c > 0,
                        parts_count > usize::MAX / c,
                ;
                return Err(Error::InvalidParameter(String::from_str("frame count overflows")));
            }
            assert(parts_count * c <= usize::MAX) by (nonlinear_arith)
                requires
                    c == 0 || parts_count <= usize::MAX / c,
            ;
            parts_count * c
        },
    };
    // Validate frame count is sufficient for decoding.
    if total_frames < parts_count {
        return Err(Error::InsufficientFrames { requested: total_frames, fragments: parts_count });
    }
    Ok(total_frames)
}

/// A Uniform Resource, as parsed or built by `bc_ur`.
#[verifier::external_type_specification]
#[verifier::external_body]
pub struct ExUr(bc_ur::UR);

/// The fountain encoder of `bc_ur` that splits a UR into parts.
#[verifier::external_type_specification]
#[verifier::external_body]
pub struct ExMultipartEncoder<'a>(bc_ur::MultipartEncoder<'a>);

/// The number of fragments that `bc_ur`'s fountain encoder splits a UR into
/// at a maximum fragment length.
pub uninterp spec fn ur_parts_count(ur: bc_ur::UR, max_fragment_len: usize) -> nat;

/// The `seq`-th part (counted from 1) that `bc_ur`'s fountain encoder emits
/// for a UR at a maximum fragment length, as a UR string.
pub uninterp spec fn ur_part(ur: bc_ur::UR, max_fragment_len: usize, seq: nat) -> Seq<char>;

/// A fountain encoder together with the UR and fragment length it was
/// made with and the number of parts it has emitted.
struct FountainEncoder<'a> {
    encoder: bc_ur::MultipartEncoder<'a>,
    source: Ghost<(bc_ur::UR, usize)>,
    sent: Ghost<nat>,
}

/// Builds the fountain encoder with `bc_ur::MultipartEncoder::new`.
/// Trusted: it is built exactly when the fragment length is not zero (the
/// fountain encoder refuses a zero length or an empty message, and the
/// CBOR encoding of a UR is never empty); it has emitted no part yet.
#[verifier::external_body]
fn multipart_encoder_new<'a>(ur: &'a bc_ur::UR, max_fragment_len: usize) -> (res: Result<
    FountainEncoder<'a>,
    UrError,
>)
    ensures
        res is Ok <==> max_fragment_len > 0,
        res matches Ok(f) ==> f.source@ == (*ur, max_fragment_len) && f.sent@ == 0,
{
    match bc_ur::MultipartEncoder::new(ur, max_fragment_len) {
        Ok(encoder) => Ok(FountainEncoder { encoder, source: Ghost((*ur, max_fragment_len)), sent: Ghost(0) }),
        Err(e) => Err(e),
    }
}

/// Number of fragments of the message (`MultipartEncoder::parts_count`).
/// Trusted: it is `ur_parts_count` of what the encoder was made with.
#[verifier::external_body]
fn multipart_parts_count(f: &FountainEncoder) -> (n: usize)
    ensures
        n == ur_parts_count(f.source@.0, f.source@.1),
{
    f.encoder.parts_count()
}

/// The next fountain part as a UR string (`MultipartEncoder::next_part`).
/// Trusted: the encoder numbers its parts from 1, so the part is `ur_part`
/// of what it was made with at the count of parts emitted so far plus one.
/// It always succeeds: the part's CBOR is written into a byte vector, which
/// cannot fail.
#[verifier::external_body]
fn multipart_next_part(f: &mut FountainEncoder) -> (res: Result<String, UrError>)
    ensures
        final(f).source@ == old(f).source@,
        final(f).sent@ == old(f).sent@ + 1,
        res matches Ok(p) && p@ == ur_part(old(f).source@.0, old(f).source@.1, old(f).sent@ + 1),
{
    f.encoder.next_part()
}

/// The frame shows, in capitals, the UR part `part` at correction level
/// `correction`, rendered with `params` and the logo preparer; where a
/// module limit is given the code is within it.
pub open spec fn frame_shows_part<F: Fn(usize, usize) -> Option<LogoOverlay>>(
    frame: QrFrame,
    part: Seq<u8>,
    correction: CorrectionLevel,
    params: AnimateParams,
    logo: Option<&F>,
    limit: Option<usize>,
) -> bool {
    match qr_symbol(upper_bytes(part), correction) {
        None => false,
        Some(sym) => {
            &&& limit matches Some(l) ==> sym.0 <= l
            &&& renders_with(
                frame.image,
                QrModules { width: sym.0, modules: sym.1 },
                params.size as int,
                params.quiet_zone as int,
                params.foreground,
                params.background,
                logo,
            )
        },
    }
}

/// The correction level of generated frames.
pub open spec fn frames_correction<F>(params: AnimateParams, logo: Option<&F>) -> CorrectionLevel {
    animation_correction(params.correction, logo is Some)
}

/// The bytes of the fountain part shown in frame `i`: the encoder's
/// `(i + 1)`-th part.
pub open spec fn frame_part(ur: bc_ur::UR, max_fragment_len: usize, i: int) -> Seq<u8> {
    encode_utf8(ur_part(ur, max_fragment_len, (i + 1) as nat))
}

/// The QR symbol of frame `i`: its part in capitals at the correction level.
pub open spec fn frame_symbol(ur: bc_ur::UR, params: AnimateParams, has_logo: bool, i: int) -> Option<(nat, Seq<bool>)> {
    qr_symbol(
        upper_bytes(frame_part(ur, params.max_fragment_len, i)),
        animation_correction(params.correction, has_logo),
    )
}

/// Frame `i` is within the module limit where one is given (or its part
/// fits no QR code).
pub open spec fn frame_dense_ok(ur: bc_ur::UR, params: AnimateParams, has_logo: bool, i: int) -> bool {
    match frame_symbol(ur, params, has_logo, i) {
        None => true,
        Some(sym) => params.max_modules matches Some(l) ==> sym.0 <= l,
    }
}

/// Frame `i` can be drawn: its part fits a QR code, within the module limit
/// where one is given, and the image stays within the machine's pixel
/// arithmetic.
pub open spec fn frame_ok(ur: bc_ur::UR, params: AnimateParams, has_logo: bool, i: int) -> bool {
    match frame_symbol(ur, params, has_logo, i) {
        None => false,
        Some(sym) => {
            &&& params.max_modules matches Some(l) ==> sym.0 <= l
            &&& render_fits(sym.0 as int, params.size as int, params.quiet_zone as int)
        },
    }
}

/// The number of frames generated: the given count, else one per part per
/// cycle.
pub open spec fn animation_frames(ur: bc_ur::UR, params: AnimateParams) -> int {
    planned_frames(
        ur_parts_count(ur, params.max_fragment_len) as int,
        params.frame_count,
        params.cycles as int,
    )
}

/// Generate all frames for a multipart UR animation: one QR code per
/// fountain part, in the order the encoder emits them, cycling through the
/// parts `params.cycles` times (or exactly `params.frame_count` frames).
/// Every frame is checked against `params.max_modules`, and refused as an
/// invalid parameter where its image would be too large for the pixel
/// arithmetic. `logo` prepares the logo overlay, as for `render_from_matrix`.
pub fn generate_frames<F: Fn(usize, usize) -> Option<LogoOverlay>>(
    ur: &bc_ur::UR,
    params: &AnimateParams,
    logo: Option<&F>,
) -> (res: Result<Vec<QrFrame>, Error>)
    requires
        logo matches Some(f) ==> logo_preparer_ok(*f),
    ensures
        params.max_fragment_len == 0 ==> res matches Err(Error::Ur(_)),
        params.max_fragment_len > 0 && animation_frames(*ur, *params) > usize::MAX ==> res matches Err(
            Error::InvalidParameter(_),
        ),
        params.max_fragment_len > 0 && animation_frames(*ur, *params) <= usize::MAX && animation_frames(*ur, *params)
            < ur_parts_count(*ur, params.max_fragment_len) ==> (res matches Err(
            Error::InsufficientFrames { requested, fragments },
        ) && requested == animation_frames(*ur, *params) && fragments == ur_parts_count(
            *ur,
            params.max_fragment_len,
        )),
        params.max_fragment_len > 0 && animation_frames(*ur, *params) <= usize::MAX && animation_frames(*ur, *params)
            >= ur_parts_count(*ur, params.max_fragment_len) ==> {
            &&& res is Ok <==> forall|i: int|
                0 <= i < animation_frames(*ur, *params) ==> #[trigger] frame_ok(*ur, *params, logo is Some, i)
            &&& res matches Err(e) ==> exists|j: int|
                0 <= j < animation_frames(*ur, *params) && (forall|i: int|
                    0 <= i < j ==> #[trigger] frame_ok(*ur, *params, logo is Some, i)) && !#[trigger] frame_ok(
                    *ur,
                    *params,
                    logo is Some,
                    j,
                ) && match frame_symbol(*ur, *params, logo is Some, j) {
                    None => e is QrEncode,
                    Some(sym) => if frame_dense_ok(*ur, *params, logo is Some, j) {
                        e is InvalidParameter
                    } else {
                        e == Error::QrCodeTooDense {
                            module_count: sym.0 as usize,
                            max_modules: params.max_modules.unwrap(),
                        }
                    },
                }
        },
        res matches Ok(frames) ==> {
            &&& frames@.len() == animation_frames(*ur, *params)
            &&& forall|i: int|
                0 <= i < frames@.len() ==> (#[trigger] frames@[i]).index == i && frame_shows_part(
                    frames@[i],
                    frame_part(*ur, params.max_fragment_len, i),
                    frames_correction(*params, logo),
                    *params,
                    logo,
                    params.max_modules,
                )
        },
{
    let mut encoder = match multipart_encoder_new(ur, params.max_fragment_len) {
        Ok(e) => e,
        Err(e) => return Err(Error::Ur(e)),
    };
    let parts_count = multipart_parts_count(&encoder);
    let total_frames = match plan_frame_count(parts_count, params.frame_count, params.cycles) {
        Ok(n) => n,
        Err(e) => return Err(e),
    };
    let correction = params.effective_correction(logo.is_some());
    let ghost has_logo = logo is Some;
    let mut frames: Vec<QrFrame> = Vec::new();
    let mut i: usize = 0;
    while i < total_frames
        invariant
            logo matches Some(f) ==> logo_preparer_ok(*f),
            has_logo == logo is Some,
            correction == frames_correction(*params, logo),
            encoder.source@ == (*ur, params.max_fragment_len),
            encoder.sent@ == i,
            total_frames == animation_frames(*ur, *params),
            params.max_fragment_len > 0,
            total_frames >= ur_parts_count(*ur, params.max_fragment_len),
            i <= total_frames,
            frames@.len() == i,
            forall|j: int| 0 <= j < i ==> #[trigger] frame_ok(*ur, *params, has_logo, j),
            forall|j: int|
                0 <= j < i ==> (#[trigger] frames@[j]).index == j && frame_shows_part(
                    frames@[j],
                    frame_part(*ur, params.max_fragment_len, j),
                    frames_correction(*params, logo),
                    *params,
                    logo,
                    params.max_modules,
                ),
        decreases total_frames - i,
    {
        let part = match multipart_next_part(&mut encoder) {
            Ok(p) => p,
            Err(e) => return Err(Error::Ur(e)),
        };
        let pstr = part.as_str();
        let pb = pstr.as_bytes();
        assert(pb@ == frame_part(*ur, params.max_fragment_len, i as int));
        let upper = to_ascii_uppercase(pb);
        let matrix = match QrMatrix::encode(upper.as_slice(), correction) {
            Ok(m) => m,
            Err(e) => {
                assert(!frame_ok(*ur, *params, has_logo, i as int));
                return Err(e);
            },
        };
        // Check density on every frame.
        match params.max_modules {
            Some(limit) => {
                match check_qr_density(matrix.width(), limit) {
                    Ok(()) => {},
                    Err(e) => {
                        assert(!frame_ok(*ur, *params, has_logo, i as int));
                        return Err(e);
                    },
                }
            },
            None => {},
        }
        if !render_fits_code(matrix.width(), params.size, params.quiet_zone) {
            assert(!frame_ok(*ur, *params, has_logo, i as int));
            return Err(too_large());
        }
        assert(frame_ok(*ur, *params, has_logo, i as int));
        assert(render_fits(matrix@.width as int, params.size as int, params.quiet_zone as int));
        let image = match render_from_matrix(
            &matrix,
            params.size,
            params.foreground,
            params.background,
            params.quiet_zone,
            logo,
        ) {
            Ok(img) => img,
            Err(e) => return Err(e),
        };
        let frame = QrFrame { image, index: i };
        assert(frame_shows_part(frame, frame_part(*ur, params.max_fragment_len, i as int), frames_correction(*params, logo), *params, logo, params.max_modules));
        frames.push(frame);
        assert forall|j: int| 0 <= j < i + 1 implies (#[trigger] frames@[j]).index == j && frame_shows_part(
                    frames@[j],
                    frame_part(*ur, params.max_fragment_len, j),
                    frames_correction(*params, logo),
                    *params,
                    logo,
                    params.max_modules,
                ) by {
            if j == i {
                assert(frames@[j] == frame);
            }
        }
        i = i + 1;
    }
    Ok(frames)
}

/// What the GIF encoder is given for one frame: width, height, delay in
/// centiseconds, its own palette (`None`: the global one) and the palette
/// index of each pixel.
pub type GifFrameRecord = (u16, u16, u16, Option<Seq<u8>>, Seq<u8>);

/// The GIF file that the `gif` crate's encoder writes for a logical screen of
/// `width` by `height` with a global palette (empty: none), the
/// loop-forever extension where `looping`, and the given frames in order.
pub uninterp spec fn gif_file(
    width: u16,
    height: u16,
    global_palette: Seq<u8>,
    looping: bool,
    frames: Seq<GifFrameRecord>,
) -> Seq<u8>;

/// The bytes are a GIF file written with the loop-forever extension (the
/// `NETSCAPE2.0` application block with a repeat count of 0, ahead of the
/// first frame), whatever its screen, palette and frames.
pub open spec fn gif_loops_forever(bytes: Seq<u8>) -> bool {
    exists|w: u16, h: u16, palette: Seq<u8>, frames: Seq<GifFrameRecord>|
        #[trigger] gif_file(w, h, palette, true, frames) == bytes
}

/// An animated GIF being written by the `gif` crate's encoder into a byte
/// vector. Held opaque: Verus cannot declare `gif::Encoder`, whose type
/// parameter is bound by `std::io::Write`.
#[verifier::external_body]
struct GifStream {
    encoder: gif::Encoder<Vec<u8>>,
}

/// A GIF being written, with what has been handed to the encoder so far.
struct GifWriter {
    stream: GifStream,
    screen: Ghost<(u16, u16, Seq<u8>)>,
    looping: Ghost<bool>,
    frames: Ghost<Seq<GifFrameRecord>>,
}

/// Starts a GIF with `gif::Encoder::new`, writing into a fresh byte vector.
/// Trusted: with at most 256 palette colors this succeeds (the encoder only
/// refuses larger palettes, and writing into a vector cannot fail); nothing
/// but the screen and palette has been written.
#[verifier::external_body]
fn gif_encoder_new(width: u16, height: u16, global_palette: &[u8]) -> (res: Result<GifWriter, String>)
    requires
        global_palette@.len() <= 768,
    ensures
        res is Ok,
        res matches Ok(w) ==> w.screen@ == (width, height, global_palette@) && !w.looping@ && w.frames@.len() == 0,
{
    match gif::Encoder::new(Vec::new(), width, height, global_palette) {
        Ok(encoder) => Ok(GifWriter {
            stream: GifStream { encoder },
            screen: Ghost((width, height, global_palette@)),
            looping: Ghost(false),
            frames: Ghost(Seq::empty()),
        }),
        Err(e) => Err(e.to_string()),
    }
}

/// Makes the animation loop forever (`Encoder::set_repeat` with
/// `Repeat::Infinite`), before any frame.
/// Trusted: writing the extension into a vector cannot fail.
#[verifier::external_body]
fn gif_set_repeat_infinite(g: &mut GifWriter) -> (res: Result<(), String>)
    requires
        !old(g).looping@,
        old(g).frames@.len() == 0,
    ensures
        res is Ok,
        final(g).screen@ == old(g).screen@,
        final(g).looping@,
        final(g).frames@ == old(g).frames@,
{
    match g.stream.encoder.set_repeat(gif::Repeat::Infinite) {
        Ok(()) => Ok(()),
        Err(e) => Err(e.to_string()),
    }
}

/// Writes one frame with `Encoder::write_frame`: the given size and delay,
/// its palette (`None`: the global one) and the palette indices of the
/// pixels. A frame of no pixels must have no indices (the encoder asserts
/// it).
/// Trusted: where it succeeds, the frame follows those already written. It
/// fails exactly where the indices are fewer than the pixels, the palette
/// has more than 256 colors, or no palette applies (no frame palette and no
/// global one); writing into a vector cannot fail otherwise. (Running out of
/// memory for the compressed data, as for any allocation, is left aside.)
#[verifier::external_body]
fn gif_write_frame(
    g: &mut GifWriter,
    width: u16,
    height: u16,
    delay: u16,
    palette: Option<Vec<u8>>,
    indexed: Vec<u8>,
) -> (res: Result<(), String>)
    requires
        (width > 0 && height > 0) || indexed@.len() == 0,
    ensures
        final(g).screen@ == old(g).screen@,
        final(g).looping@ == old(g).looping@,
        indexed@.len() < width * height ==> res is Err,
        indexed@.len() >= width * height && (match palette {
            Some(p) => p@.len() <= 768,
            None => old(g).screen@.2.len() >= 3,
        }) ==> res is Ok,
        res is Ok ==> final(g).frames@ == old(g).frames@.push(
            (
                width,
                height,
                delay,
                match palette {
                    Some(p) => Some(p@),
                    None => None,
                },
                indexed@,
            ),
        ),
{
    let frame = gif::Frame {
        width,
        height,
        delay,
        palette,
        buffer: std::borrow::Cow::Owned(indexed),
        ..Default::default()
    };
    match g.stream.encoder.write_frame(&frame) {
        Ok(()) => Ok(()),
        Err(e) => Err(e.to_string()),
    }
}

/// Writes the trailer and hands back the bytes (`Encoder::into_inner`).
/// Trusted: writing into a vector cannot fail; the bytes are `gif_file` of
/// what the encoder was given.
#[verifier::external_body]
fn gif_finish(g: GifWriter) -> (res: Result<Vec<u8>, String>)
    ensures
        res is Ok,
        res matches Ok(b) ==> b@ == gif_file(g.screen@.0, g.screen@.1, g.screen@.2, g.looping@, g.frames@),
{
    match g.stream.encoder.into_inner() {
        Ok(bytes) => Ok(bytes),
        Err(e) => Err(e.to_string()),
    }
}

/// Frames can be handed to the GIF encoder: where the first frame's size
/// (as 16-bit GIF dimensions) has no pixels, no frame has a pixel.
pub open spec fn gif_frames_ok(frames: Seq<QrFrame>) -> bool {
    frames.len() > 0 ==> ((frames[0].image.width % 65536 == 0 || frames[0].image.height % 65536 == 0)
        ==> forall|i: int| 0 <= i < frames.len() ==> (#[trigger] frames[i]).image.pixels@.len() < 4)
}

/// `prefix` followed by `detail`, for error messages.
fn prefixed(prefix: &str, detail: String) -> (s: String)
    ensures
        s@ == prefix@ + detail@,
{
    let mut s = String::from_str(prefix);
    s.append(detail.as_str());
    s
}

/// The pixel colors of all frames, one frame after another.
pub open spec fn frames_colors(frames: Seq<QrFrame>) -> Seq<Color>
    decreases frames.len(),
{
    if frames.len() == 0 {
        Seq::empty()
    } else {
        frames_colors(frames.drop_last()) + pixel_colors(frames.last().image.pixels@)
    }
}

/// The colors of the first frames come first among the colors of all
/// frames.
proof fn lemma_frames_colors_prefix(frames: Seq<QrFrame>, k: int)
    requires
        0 <= k <= frames.len(),
    ensures
        frames_colors(frames.take(k)).len() <= frames_colors(frames).len(),
        frames_colors(frames).take(frames_colors(frames.take(k)).len() as int) == frames_colors(frames.take(k)),
    decreases frames.len() - k,
{
    if k < frames.len() {
        lemma_frames_colors_prefix(frames, k + 1);
        assert(frames.take(k + 1).drop_last() == frames.take(k));
        let a = frames_colors(frames.take(k));
        let b = frames_colors(frames.take(k + 1));
        assert(b == a + pixel_colors(frames[k].image.pixels@));
        assert(b.take(a.len() as int) =~= a);
        assert(frames_colors(frames).take(b.len() as int).take(a.len() as int) =~= frames_colors(frames).take(
            a.len() as int,
        ));
    } else {
        assert(frames.take(k) == frames);
    }
}

/// Every pixel color of frame `i` is among the colors of all frames.
proof fn lemma_frame_color_in_all(frames: Seq<QrFrame>, i: int, k: int)
    requires
        0 <= i < frames.len(),
        0 <= k < pixel_colors(frames[i].image.pixels@).len(),
    ensures
        frames_colors(frames).contains(pixel_colors(frames[i].image.pixels@)[k]),
{
    lemma_frames_colors_prefix(frames, i + 1);
    assert(frames.take(i + 1).drop_last() == frames.take(i));
    let a = frames_colors(frames.take(i));
    let b = frames_colors(frames.take(i + 1));
    let pc = pixel_colors(frames[i].image.pixels@);
    assert(b == a + pc);
    assert(b[a.len() + k] == pc[k]);
    assert(frames_colors(frames)[a.len() + k] == pc[k]);
}

/// The distinct colors of all frames, in order of first appearance, where
/// there are at most 256; otherwise more than 256 colors.
fn collect_frame_colors(frames: &[QrFrame]) -> (unique: Vec<Color>)
    ensures
        unique@.len() <= 256 ==> unique@ == distinct_colors(frames_colors(frames@)),
        unique@.len() > 256 ==> distinct_colors(frames_colors(frames@)).len() > 256,
{
    let ghost all = frames_colors(frames@);
    let mut unique: Vec<Color> = Vec::new();
    let mut f: usize = 0;
    while f < frames.len()
        invariant
            all == frames_colors(frames@),
            f <= frames@.len(),
            unique@ == distinct_colors(frames_colors(frames@.take(f as int))),
            unique@.len() <= 256,
        decreases frames@.len() - f,
    {
        let rgba = &frames[f].image.pixels;
        let ghost before = frames_colors(frames@.take(f as int));
        let ghost px = pixel_colors(rgba@);
        proof {
            assert(frames@.take(f + 1).drop_last() == frames@.take(f as int));
            assert(frames_colors(frames@.take(f + 1)) == before + px);
            lemma_frames_colors_prefix(frames@, f + 1);
        }
        let len = rgba.len();
        let n = len / 4;
        let mut k: usize = 0;
        while k < n
            invariant
                all == frames_colors(frames@),
                f < frames@.len(),
                len == rgba@.len(),
                n == len / 4,
                px == pixel_colors(rgba@),
                frames_colors(frames@.take(f + 1)) == before + px,
                all.take(frames_colors(frames@.take(f + 1)).len() as int) == frames_colors(frames@.take(f + 1)),
                frames_colors(frames@.take(f + 1)).len() <= all.len(),
                k <= n,
                unique@ == distinct_colors(before + px.take(k as int)),
                unique@.len() <= 256,
            decreases n - k,
        {
            let c = Color { r: rgba[4 * k], g: rgba[4 * k + 1], b: rgba[4 * k + 2], a: rgba[4 * k + 3] };
            assert(c == px[k as int]);
            assert((before + px.take(k + 1)).drop_last() =~= before + px.take(k as int));
            assert((before + px.take(k + 1)).last() == c);
            if position_of(&unique, c).is_none() {
                unique.push(c);
                if unique.len() > 256 {
                    proof {
                        let m = before.len() + k + 1;
                        let whole = before + px;
                        assert(all.take(whole.len() as int) == whole);
                        assert(all.take(m) =~= all.take(whole.len() as int).take(m));
                        assert(whole.take(m) =~= before + px.take(k + 1));
                        assert(all.take(m) =~= before + px.take(k + 1));
                        lemma_distinct_colors_prefix(all, m);
                    }
                    return unique;
                }
            }
            k = k + 1;
        }
        assert(px.take(n as int) =~= px);
        f = f + 1;
    }
    assert(frames@.take(frames@.len() as int) == frames@);
    unique
}

/// The 16-bit GIF width of the first frame (every frame is written at the
/// first frame's size).
pub open spec fn gif_width(frames: Seq<QrFrame>) -> u16 {
    (frames[0].image.width % 65536) as u16
}

/// The 16-bit GIF height of the first frame.
pub open spec fn gif_height(frames: Seq<QrFrame>) -> u16 {
    (frames[0].image.height % 65536) as u16
}

/// QR codes without a logo share one global palette of the colors of all
/// frames (where there are from 1 to 256 of them); with a logo each frame
/// is quantized on its own.
pub open spec fn uses_global_palette(frames: Seq<QrFrame>, has_logo: bool) -> bool {
    let g = distinct_colors(frames_colors(frames));
    !has_logo && 1 <= g.len() <= 256
}

/// What is handed to the GIF encoder for frame `i`.
pub open spec fn gif_frame_record(frames: Seq<QrFrame>, delay: u16, has_logo: bool, i: int) -> GifFrameRecord {
    let rgba = frames[i].image.pixels@;
    if uses_global_palette(frames, has_logo) {
        (
            gif_width(frames),
            gif_height(frames),
            delay,
            None,
            color_indices(distinct_colors(frames_colors(frames)), pixel_colors(rgba)),
        )
    } else {
        (gif_width(frames), gif_height(frames), delay, Some(quantized_palette(rgba)), quantized_indices(rgba))
    }
}

/// The animated GIF of the frames: the first frame's size, the global
/// palette where one is used, looping forever, one GIF frame per frame.
pub open spec fn animated_gif(frames: Seq<QrFrame>, delay: u16, has_logo: bool) -> Seq<u8> {
    gif_file(
        gif_width(frames),
        gif_height(frames),
        if uses_global_palette(frames, has_logo) {
            palette_rgb(distinct_colors(frames_colors(frames)))
        } else {
            Seq::empty()
        },
        true,
        Seq::new(frames.len(), |i: int| gif_frame_record(frames, delay, has_logo, i)),
    )
}

/// The animation of any frames loops forever: its file is written with the
/// loop-forever extension.
pub proof fn lemma_animated_gif_loops_forever(frames: Seq<QrFrame>, delay: u16, has_logo: bool)
    requires
        frames.len() > 0,
    ensures
        gif_loops_forever(animated_gif(frames, delay, has_logo)),
{
    let pal = if uses_global_palette(frames, has_logo) {
        palette_rgb(distinct_colors(frames_colors(frames)))
    } else {
        Seq::empty()
    };
    let recs = Seq::new(frames.len(), |i: int| gif_frame_record(frames, delay, has_logo, i));
    assert(gif_file(gif_width(frames), gif_height(frames), pal, true, recs) == animated_gif(frames, delay, has_logo));
}

/// Encode frames into an animated GIF that loops forever, each frame shown
/// for `delay_cs` centiseconds. For QR codes without a logo (`has_logo`
/// false) the frames share one small global palette of their colors; for
/// QR codes with a logo each frame is quantized on its own (see
/// `quantize_frame`). Every frame is written at the first frame's size.
pub fn encode_animated_gif(frames: &[QrFrame], delay_cs: u16, has_logo: bool) -> (res: Result<Vec<u8>, Error>)
    requires
        gif_frames_ok(frames@),
    ensures
        frames@.len() == 0 <==> (res matches Err(Error::InvalidParameter(m)) && m@ == "no frames to encode"@),
        frames@.len() > 0 ==> (res matches Ok(b) ==> b@ == animated_gif(frames@, delay_cs, has_logo)),
        frames@.len() > 0 ==> (res matches Err(e) ==> e is GifEncode),
        res is Ok ==> forall|i: int|
            0 <= i < frames@.len() ==> (#[trigger] frames@[i]).image.pixels@.len() / 4 >= gif_width(frames@)
                * gif_height(frames@),
        frames@.len() > 0 && (forall|i: int|
            0 <= i < frames@.len() ==> (#[trigger] frames@[i]).image.pixels@.len() / 4 >= gif_width(frames@)
                * gif_height(frames@)) ==> res is Ok,
        res matches Ok(b) ==> gif_loops_forever(b@),
{
    if frames.len() == 0 {
        return Err(Error::InvalidParameter(String::from_str("no frames to encode")));
    }
    let w0 = frames[0].image.width;
    let h0 = frames[0].image.height;
    let width = #[verifier::truncate] (w0 as u16);
    let height = #[verifier::truncate] (h0 as u16);
    assert(width == w0 % 65536) by (bit_vector)
        requires
            width == #[verifier::truncate] (w0 as u16),
    ;
    assert(height == h0 % 65536) by (bit_vector)
        requires
            height == #[verifier::truncate] (h0 as u16),
    ;
    let ghost all = distinct_colors(frames_colors(frames@));
    proof {
        lemma_distinct_colors(frames_colors(frames@));
    }
    let colors = if has_logo {
        Vec::new()
    } else {
        collect_frame_colors(frames)
    };
    let global = !has_logo && 1 <= colors.len() && colors.len() <= 256;
    assert(global == uses_global_palette(frames@, has_logo));
    let global_palette = if global {
        palette_bytes(&colors)
    } else {
        Vec::new()
    };
    let mut encoder = match gif_encoder_new(width, height, global_palette.as_slice()) {
        Ok(e) => e,
        Err(m) => return Err(Error::GifEncode(prefixed("GIF init: ", m))),
    };
    match gif_set_repeat_infinite(&mut encoder) {
        Ok(()) => {},
        Err(m) => return Err(Error::GifEncode(prefixed("GIF set repeat: ", m))),
    }
    let ghost records = Seq::new(frames@.len(), |i: int| gif_frame_record(frames@, delay_cs, has_logo, i));
    assert(encoder.frames@ =~= records.take(0));
    let mut i: usize = 0;
    while i < frames.len()
        invariant
            gif_frames_ok(frames@),
            frames@.len() > 0,
            width == gif_width(frames@),
            height == gif_height(frames@),
            global == uses_global_palette(frames@, has_logo),
            global ==> colors@ == all,
            all == distinct_colors(frames_colors(frames@)),
            no_duplicates(all),
            forall|j: int| 0 <= j < frames_colors(frames@).len() ==> all.contains(#[trigger] frames_colors(frames@)[j]),
            records == Seq::new(frames@.len(), |i: int| gif_frame_record(frames@, delay_cs, has_logo, i)),
            encoder.screen@ == (width, height, global_palette@),
            global ==> global_palette@.len() >= 3,
            encoder.looping@,
            encoder.frames@ == records.take(i as int),
            i <= frames@.len(),
            forall|j: int|
                0 <= j < i ==> (#[trigger] frames@[j]).image.pixels@.len() / 4 >= gif_width(frames@) * gif_height(
                    frames@,
                ),
        decreases frames@.len() - i,
    {
        let frame_data = &frames[i];
        let ghost rgba = frame_data.image.pixels@;
        assert((width == 0 || height == 0) ==> rgba.len() < 4);
        let palette_and_indices: (Option<Vec<u8>>, Vec<u8>) = if global {
            proof {
                assert forall|k: int| 0 <= k < pixel_colors(rgba).len() implies colors@.contains(
                    #[trigger] pixel_colors(rgba)[k],
                ) by {
                    lemma_frame_color_in_all(frames@, i as int, k);
                    let j = choose|j: int| 0 <= j < frames_colors(frames@).len() && frames_colors(frames@)[j]
                        == pixel_colors(rgba)[k];
                    assert(all.contains(frames_colors(frames@)[j]));
                }
            }
            let indexed = index_pixels(&colors, frame_data.image.pixels.as_slice());
            (None, indexed)
        } else {
            let (palette, indexed) = quantize_frame(frame_data.image.pixels.as_slice(), width as u32, height as u32);
            proof {
                let d = distinct_colors(pixel_colors(rgba));
                if d.len() <= 256 {
                    assert(palette@.len() == 3 * d.len());
                }
            }
            assert(palette@.len() <= 768);
            (Some(palette), indexed)
        };
        let (palette, indexed) = palette_and_indices;
        assert(indexed@.len() == rgba.len() / 4);
        match gif_write_frame(&mut encoder, width, height, delay_cs, palette, indexed) {
            Ok(()) => {},
            Err(m) => return Err(Error::GifEncode(prefixed("GIF write frame: ", m))),
        }
        assert(encoder.frames@ =~= records.take(i + 1));
        i = i + 1;
    }
    assert(records.take(frames@.len() as int) =~= records);
    match gif_finish(encoder) {
        Ok(bytes) => {
            assert(gif_file(width, height, global_palette@, true, records) == bytes@);
            Ok(bytes)
        },
        Err(m) => Err(Error::GifEncode(prefixed("GIF finish: ", m))),
    }
}

} // verus!
