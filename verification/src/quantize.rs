//! Palette quantization of RGBA frames for GIF encoding.

use vstd::prelude::*;
use crate::color::Color;
use crate::logo::nth_pixel;

verus! {

/// The colors of the whole pixels of a packed RGBA buffer, in order.
pub open spec fn pixel_colors(rgba: Seq<u8>) -> Seq<Color> {
    Seq::new((rgba.len() / 4) as nat, |k: int| nth_pixel(rgba, k))
}

/// The distinct colors of `s` in order of first appearance.
pub open spec fn distinct_colors(s: Seq<Color>) -> Seq<Color>
    decreases s.len(),
{
    if s.len() == 0 {
        Seq::empty()
    } else {
        let d = distinct_colors(s.drop_last());
        if d.contains(s.last()) {
            d
        } else {
            d.push(s.last())
        }
    }
}

/// The RGB bytes of a palette of colors (alpha dropped).
pub open spec fn palette_rgb(d: Seq<Color>) -> Seq<u8> {
    Seq::new((d.len() * 3) as nat, |i: int|
        if i % 3 == 0 {
            d[i / 3].r
        } else if i % 3 == 1 {
            d[i / 3].g
        } else {
            d[i / 3].b
        })
}

/// No color occurs twice.
pub open spec fn no_duplicates(d: Seq<Color>) -> bool {
    forall|i: int, j: int| 0 <= i < j < d.len() ==> d[i] != d[j]
}

/// The distinct colors hold each color of `s` exactly once, and nothing else.
pub proof fn lemma_distinct_colors(s: Seq<Color>)
    ensures
        no_duplicates(distinct_colors(s)),
        forall|i: int| 0 <= i < s.len() ==> distinct_colors(s).contains(#[trigger] s[i]),
        forall|c: Color| distinct_colors(s).contains(c) ==> s.contains(c),
        distinct_colors(s).len() <= s.len(),
    decreases s.len(),
{
    if s.len() > 0 {
        let t = s.drop_last();
        lemma_distinct_colors(t);
        let d = distinct_colors(t);
        assert forall|i: int| 0 <= i < s.len() implies distinct_colors(s).contains(#[trigger] s[i]) by {
            if i < s.len() - 1 {
                assert(t[i] == s[i]);
                assert(d.contains(t[i]));
                if !d.contains(s.last()) {
                    let j = choose|j: int| 0 <= j < d.len() && d[j] == t[i];
                    assert(d.push(s.last())[j] == t[i]);
                }
            } else if !d.contains(s.last()) {
                assert(d.push(s.last())[d.len() as int] == s.last());
            }
        }
        assert forall|c: Color| distinct_colors(s).contains(c) implies s.contains(c) by {
            if d.contains(c) {
                assert(t.contains(c));
                let j = choose|j: int| 0 <= j < t.len() && t[j] == c;
                assert(t[j] == s[j]);
                assert(s[j] == c);
            } else {
                let j = choose|j: int| 0 <= j < distinct_colors(s).len() && distinct_colors(s)[j] == c;
                assert(s[s.len() - 1] == c);
            }
        }
    }
}

/// The distinct colors of a prefix are a prefix of the distinct colors.
pub proof fn lemma_distinct_colors_prefix(s: Seq<Color>, k: int)
    requires
        0 <= k <= s.len(),
    ensures
        distinct_colors(s.take(k)).len() <= distinct_colors(s).len(),
        distinct_colors(s).take(distinct_colors(s.take(k)).len() as int) == distinct_colors(s.take(k)),
    decreases s.len() - k,
{
    if k < s.len() {
        lemma_distinct_colors_prefix(s, k + 1);
        assert(s.take(k + 1).drop_last() == s.take(k));
        let a = distinct_colors(s.take(k));
        let b = distinct_colors(s.take(k + 1));
        assert(b.take(a.len() as int) == a);
        assert(distinct_colors(s).take(b.len() as int).take(a.len() as int) == distinct_colors(s).take(
            a.len() as int,
        ));
    } else {
        assert(s.take(k) == s);
    }
}

/// Index of the first entry of `v` equal to `c`, if any.
pub(crate) fn position_of(v: &Vec<Color>, c: Color) -> (res: Option<usize>)
    ensures
        res matches Some(i) ==> i < v@.len() && v@[i as int] == c && forall|j: int| 0 <= j < i ==> v@[j] != c,
        res is None ==> !v@.contains(c),
{
    let mut i: usize = 0;
    while i < v.len()
        invariant
            i <= v@.len(),
            forall|j: int| 0 <= j < i ==> v@[j] != c,
        decreases v@.len() - i,
    {
        if v[i] == c {
            return Some(i);
        }
        i = i + 1;
    }
    None
}

/// Position of color `c` in the palette `d` (meaningful where `d` holds it
/// once).
pub open spec fn color_index(d: Seq<Color>, c: Color) -> int {
    choose|i: int| 0 <= i < d.len() && d[i] == c
}

/// The palette index of each color of `px` in the palette `d`.
pub open spec fn color_indices(d: Seq<Color>, px: Seq<Color>) -> Seq<u8> {
    Seq::new(px.len(), |k: int| color_index(d, px[k]) as u8)
}

/// The palette of a quantized frame: its distinct colors (in order of first
/// appearance) where there are at most 256, else the palette that NeuQuant
/// learns.
pub open spec fn quantized_palette(rgba: Seq<u8>) -> Seq<u8> {
    let d = distinct_colors(pixel_colors(rgba));
    if d.len() <= 256 {
        palette_rgb(d)
    } else {
        neuquant_palette(rgba)
    }
}

/// The palette indices of a quantized frame: each pixel indexes its own
/// color in the exact palette, or the entry NeuQuant picks for it.
pub open spec fn quantized_indices(rgba: Seq<u8>) -> Seq<u8> {
    let px = pixel_colors(rgba);
    let d = distinct_colors(px);
    if d.len() <= 256 {
        color_indices(d, px)
    } else {
        neuquant_indices(rgba)
    }
}

/// The RGB bytes of a list of colors.
pub fn palette_bytes(colors: &Vec<Color>) -> (palette: Vec<u8>)
    requires
        colors@.len() <= 256,
    ensures
        palette@ == palette_rgb(colors@),
{
    let mut palette: Vec<u8> = Vec::new();
    let mut j: usize = 0;
    while j < colors.len()
        invariant
            colors@.len() <= 256,
            j <= colors@.len(),
            palette@ == palette_rgb(colors@).take(3 * j as int),
        decreases colors@.len() - j,
    {
        let c = colors[j];
        palette.push(c.r);
        palette.push(c.g);
        palette.push(c.b);
        assert(palette_rgb(colors@).take(3 * (j + 1) as int) =~= palette_rgb(colors@).take(3 * j as int).push(
            c.r,
        ).push(c.g).push(c.b));
        j = j + 1;
    }
    assert(palette_rgb(colors@).take(3 * colors@.len() as int) =~= palette_rgb(colors@));
    palette
}

/// The palette index of every pixel of a packed RGBA buffer, in a palette
/// that holds each of its colors exactly once.
pub fn index_pixels(colors: &Vec<Color>, rgba: &[u8]) -> (indexed: Vec<u8>)
    requires
        colors@.len() <= 256,
        no_duplicates(colors@),
        forall|k: int| 0 <= k < pixel_colors(rgba@).len() ==> colors@.contains(#[trigger] pixel_colors(rgba@)[k]),
    ensures
        indexed@ == color_indices(colors@, pixel_colors(rgba@)),
{
    let ghost px = pixel_colors(rgba@);
    let ghost d = colors@;
    let len = rgba.len();
    let n = len / 4;
    let mut indexed: Vec<u8> = Vec::new();
    let mut k: usize = 0;
    while k < n
        invariant
            len == rgba@.len(),
            n == len / 4,
            px == pixel_colors(rgba@),
            d == colors@,
            d.len() <= 256,
            no_duplicates(d),
            forall|i: int| 0 <= i < px.len() ==> d.contains(#[trigger] px[i]),
            k <= n,
            indexed@ == color_indices(d, px).take(k as int),
        decreases n - k,
    {
        let c = Color { r: rgba[4 * k], g: rgba[4 * k + 1], b: rgba[4 * k + 2], a: rgba[4 * k + 3] };
        assert(c == px[k as int]);
        assert(d.contains(px[k as int]));
        let pos = position_of(colors, c);
        let p = match pos {
            Some(p) => p,
            None => 0,
        };
        proof {
            let j = color_index(d, c);
            assert(0 <= j < d.len() && d[j] == c);
            assert(j == p as int);
        }
        indexed.push(p as u8);
        assert(indexed@ =~= color_indices(d, px).take(k + 1));
        k = k + 1;
    }
    assert(indexed@ =~= color_indices(d, px));
    indexed
}

/// Collects the distinct colors in order of first appearance, stopping
/// after the 257th.
fn collect_colors(rgba: &[u8]) -> (unique: Vec<Color>)
    ensures
        unique@.len() <= 256 ==> unique@ == distinct_colors(pixel_colors(rgba@)),
        unique@.len() > 256 ==> distinct_colors(pixel_colors(rgba@)).len() > 256,
{
    let ghost px = pixel_colors(rgba@);
    let len = rgba.len();
    let n = len / 4;
    let mut unique: Vec<Color> = Vec::new();
    let mut k: usize = 0;
    while k < n
        invariant
            len == rgba@.len(),
            n == len / 4,
            px == pixel_colors(rgba@),
            k <= n,
            unique@ == distinct_colors(px.take(k as int)),
            unique@.len() <= 256,
        decreases n - k,
    {
        let c = Color { r: rgba[4 * k], g: rgba[4 * k + 1], b: rgba[4 * k + 2], a: rgba[4 * k + 3] };
        assert(c == px[k as int]);
        assert(px.take(k + 1).drop_last() == px.take(k as int));
        assert(px.take(k + 1).last() == c);
        if position_of(&unique, c).is_none() {
            unique.push(c);
            if unique.len() > 256 {
                proof {
                    lemma_distinct_colors_prefix(px, k + 1);
                }
                return unique;
            }
        }
        k = k + 1;
    }
    assert(px.take(n as int) == px);
    unique
}

/// A color map learned by `color_quant`'s NeuQuant network.
#[verifier::external_type_specification]
#[verifier::external_body]
pub struct ExNeuQuant(color_quant::NeuQuant);

/// The color at `idx` of the map that `color_quant`'s NeuQuant learns from
/// `pixels` with sample factor `samplefac` and `colors` entries, as RGBA
/// bytes, or `None` past the map's end.
pub uninterp spec fn neuquant_color(samplefac: i32, colors: usize, pixels: Seq<u8>, idx: usize) -> Option<Seq<u8>>;

/// The index of the map entry that the same network picks for an RGBA pixel.
pub uninterp spec fn neuquant_index(samplefac: i32, colors: usize, pixels: Seq<u8>, pixel: Seq<u8>) -> usize;

/// A trained NeuQuant network together with what it was trained with.
struct Quantizer {
    nq: color_quant::NeuQuant,
    trained_with: Ghost<(i32, usize, Seq<u8>)>,
}

/// Trains a network with `color_quant::NeuQuant::new` on RGBA pixels.
/// Trusted: the network is recorded as trained with these arguments (the
/// training is deterministic). The crate documents `samplefac` in 1 to 30
/// and at least 64 colors.
#[verifier::external_body]
fn neuquant_new(samplefac: i32, colors: usize, pixels: &[u8]) -> (q: Quantizer)
    requires
        1 <= samplefac <= 30,
        colors >= 64,
    ensures
        q.trained_with@ == (samplefac, colors, pixels@),
{
    Quantizer { nq: color_quant::NeuQuant::new(samplefac, colors, pixels), trained_with: Ghost((samplefac, colors, pixels@)) }
}

/// The color at `idx` of the learned map (`NeuQuant::lookup`).
/// Trusted: the color is `neuquant_color` of the training arguments; the
/// map has one entry per requested color.
#[verifier::external_body]
fn neuquant_lookup(q: &Quantizer, idx: usize) -> (c: Option<[u8; 4]>)
    ensures
        c is Some <==> idx < q.trained_with@.1,
        c is Some <==> neuquant_color(q.trained_with@.0, q.trained_with@.1, q.trained_with@.2, idx) is Some,
        c matches Some(a) ==> a@ == neuquant_color(q.trained_with@.0, q.trained_with@.1, q.trained_with@.2, idx).unwrap(),
{
    q.nq.lookup(idx)
}

/// Index of the best-matching map entry for an RGBA pixel
/// (`NeuQuant::index_of`, which asserts that the pixel has four bytes).
/// Trusted: the index is `neuquant_index` of the training arguments and the
/// pixel, and is an index into the map.
#[verifier::external_body]
fn neuquant_index_of(q: &Quantizer, pixel: &[u8]) -> (i: usize)
    requires
        pixel@.len() == 4,
    ensures
        i == neuquant_index(q.trained_with@.0, q.trained_with@.1, q.trained_with@.2, pixel@),
        i < q.trained_with@.1,
{
    q.nq.index_of(pixel)
}

/// The 256-entry RGB palette that NeuQuant (sample factor 10) learns from a
/// frame; entries past the map's end are black.
pub open spec fn neuquant_palette(rgba: Seq<u8>) -> Seq<u8> {
    Seq::new(768, |i: int| match neuquant_color(10, 256, rgba, (i / 3) as usize) {
        Some(c) => c[i % 3],
        None => 0u8,
    })
}

/// The palette indices that the same network gives the frame's pixels.
pub open spec fn neuquant_indices(rgba: Seq<u8>) -> Seq<u8> {
    Seq::new(rgba.len() / 4, |k: int| neuquant_index(10, 256, rgba, rgba.subrange(4 * k, 4 * k + 4)) as u8)
}

/// Quantize an RGBA frame to a 256-color indexed palette: an exact palette
/// of the distinct colors where there are at most 256, else a palette
/// learned by NeuQuant.
pub fn quantize_frame(rgba: &[u8], width: u32, height: u32) -> (res: (Vec<u8>, Vec<u8>))
    ensures
        res.0@ == quantized_palette(rgba@),
        res.1@ == quantized_indices(rgba@),
{
    let ghost px = pixel_colors(rgba@);
    let ghost d = distinct_colors(px);
    proof {
        lemma_distinct_colors(px);
    }
    // Collect unique colors (up to limit)
    let unique_colors = collect_colors(rgba);
    let len = rgba.len();
    let n = len / 4;
    if unique_colors.len() <= 256 {
        // Simple case: few enough colors for a direct palette
        let palette = palette_bytes(&unique_colors);
        let indexed = index_pixels(&unique_colors, rgba);
        (palette, indexed)
    } else {
        // Many colors (logo present) — use NeuQuant
        let nq = neuquant_new(10, 256, rgba);
        let mut palette: Vec<u8> = Vec::new();
        let mut i: usize = 0;
        while i < 256
            invariant
                i <= 256,
                nq.trained_with@ == (10i32, 256usize, rgba@),
                palette@ == neuquant_palette(rgba@).take(3 * i as int),
            decreases 256 - i,
        {
            match neuquant_lookup(&nq, i) {
                Some(c) => {
                    palette.push(c[0]);
                    palette.push(c[1]);
                    palette.push(c[2]);
                },
                None => {
                    palette.push(0);
                    palette.push(0);
                    palette.push(0);
                },
            }
            assert(palette@ =~= neuquant_palette(rgba@).take(3 * (i + 1) as int));
            i = i + 1;
        }
        assert(palette@ =~= neuquant_palette(rgba@));
        let mut indexed: Vec<u8> = Vec::new();
        let mut k: usize = 0;
        while k < n
            invariant
                len == rgba@.len(),
                n == len / 4,
                k <= n,
                nq.trained_with@ == (10i32, 256usize, rgba@),
                indexed@ == neuquant_indices(rgba@).take(k as int),
            decreases n - k,
        {
            let pixel = slice_of_four(rgba, 4 * k);
            let idx = neuquant_index_of(&nq, pixel);
            indexed.push(idx as u8);
            assert(indexed@ =~= neuquant_indices(rgba@).take(k + 1));
            k = k + 1;
        }
        assert(indexed@ =~= neuquant_indices(rgba@));
        (palette, indexed)
    }
}

/// The four bytes of `data` from `start`.
fn slice_of_four(data: &[u8], start: usize) -> (s: &[u8])
    requires
        start + 4 <= data@.len(),
    ensures
        s@ == data@.subrange(start as int, start + 4),
{
    let len = data.len();
    vstd::slice::slice_subrange(data, start, start + 4)
}

} // verus!
