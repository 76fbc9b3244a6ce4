//! Decisions of the command-line front end that do not touch the outside
//! world: output format names, color options, the density check and the
//! names of dumped frames.

use vstd::prelude::*;
use vstd::string::*;
use crate::color::{Color, hex_body, hex_pairs_sliceable, parses_as_color, hex_color};
use crate::correction::{CorrectionLevel, word_is};
use crate::error::Error;
use crate::qr_matrix::{check_qr_density, qr_module_count, qr_symbol};
use crate::text::{ascii_chars, decimal_digits, lemma_decimal_digits_ascii, push_decimal, string_from_ascii, to_ascii_uppercase, upper_bytes};

verus! {

/// Image file format of a single rendered frame.
#[derive(Debug, Clone, Copy, PartialEq, Eq, Structural)]
pub enum OutputFormat {
    Png,
    Jpeg,
}

/// The format a name stands for: `png`, or `jpeg` / `jpg` (exact spelling).
pub open spec fn format_from_name(t: Seq<u8>) -> Option<OutputFormat> {
    // "png", "jpeg", "jpg"
    if t == [112u8, 110, 103]@ {
        Some(OutputFormat::Png)
    } else if t == [106u8, 112, 101, 103]@ || t == [106u8, 112, 103]@ {
        Some(OutputFormat::Jpeg)
    } else {
        None
    }
}

impl OutputFormat {
    /// Parses an output format name.
    pub fn parse(s: &str) -> (res: Result<Self, String>)
        ensures
            res is Ok <==> format_from_name(s.spec_bytes()) is Some,
            res matches Ok(f) ==> format_from_name(s.spec_bytes()) == Some(f),
            res matches Err(m) ==> m@ == "unknown format: "@ + s@ + " (expected png or jpeg)"@,
    {
        let t = s.as_bytes();
        if word_is(t, &[112u8, 110, 103]) {
            Ok(OutputFormat::Png)
        } else if word_is(t, &[106u8, 112, 101, 103]) || word_is(t, &[106u8, 112, 103]) {
            Ok(OutputFormat::Jpeg)
        } else {
            let mut msg = String::from_str("unknown format: ");
            msg.append(s);
            msg.append(" (expected png or jpeg)");
            Err(msg)
        }
    }
}

/// Parses the foreground and background options, swapped in dark mode
/// (the background text then gives the foreground). The text that ends up
/// as the foreground is parsed first, so its error is the one reported.
pub fn parse_colors(fg: &str, bg: &str, dark: bool) -> (res: Result<(Color, Color), Error>)
    requires
        hex_pairs_sliceable(hex_body(fg.spec_bytes())),
        hex_pairs_sliceable(hex_body(bg.spec_bytes())),
    ensures
        ({
            let (first, second) = if dark {
                (bg.spec_bytes(), fg.spec_bytes())
            } else {
                (fg.spec_bytes(), bg.spec_bytes())
            };
            &&& res is Ok <==> parses_as_color(first) && parses_as_color(second)
            &&& res matches Ok(pair) ==> pair.0 == hex_color(hex_body(first)) && pair.1 == hex_color(
                hex_body(second),
            )
            &&& res matches Err(e) ==> e is InvalidColor
        }),
{
    let (first, second) = if dark { (bg, fg) } else { (fg, bg) };
    let a = Color::from_hex(first)?;
    let b = Color::from_hex(second)?;
    Ok((a, b))
}

/// Checks, before rendering, that the QR code of an (upper-cased) UR string
/// has at most `max_modules` modules.
pub fn check_ur_density(ur_string: &str, correction: CorrectionLevel, max_modules: usize) -> (res: Result<(), Error>)
    ensures
        res is Ok <==> (qr_symbol(upper_bytes(ur_string.spec_bytes()), correction) matches Some(sym)
            && sym.0 <= max_modules),
        res matches Err(e) ==> (e is QrEncode <==> qr_symbol(upper_bytes(ur_string.spec_bytes()), correction) is None),
        res matches Err(e) ==> e is QrEncode || e is QrCodeTooDense,
{
    let upper = to_ascii_uppercase(ur_string.as_bytes());
    let modules = qr_module_count(upper.as_slice(), correction)?;
    check_qr_density(modules, max_modules)
}

/// `digits` with zeros in front up to `width` digits.
pub open spec fn zero_padded(digits: Seq<u8>, width: nat) -> Seq<u8> {
    if digits.len() < width {
        Seq::new((width - digits.len()) as nat, |i: int| 48u8) + digits
    } else {
        digits
    }
}

/// The file name of dumped frame `i`: its number in at least four digits,
/// then `.png`.
pub open spec fn frame_file_name_spec(i: nat) -> Seq<char> {
    ascii_chars(zero_padded(decimal_digits(i), 4)) + ".png"@
}

/// The file name of dumped frame `i`, such as `0007.png`.
pub fn frame_file_name(i: usize) -> (name: String)
    ensures
        name@ == frame_file_name_spec(i as nat),
{
    let mut digits: Vec<u8> = Vec::new();
    push_decimal(&mut digits, i as u64);
    let mut out: Vec<u8> = Vec::new();
    let mut k: usize = digits.len();
    while k < 4
        invariant
            digits@ == decimal_digits(i as nat),
            digits@.len() <= k <= 4 || (k == digits@.len() && k > 4),
            out@ == Seq::new((k - digits@.len()) as nat, |j: int| 48u8),
        decreases 4 - k,
    {
        out.push(48);
        assert(out@ =~= Seq::new((k + 1 - digits@.len()) as nat, |j: int| 48u8));
        k = k + 1;
    }
    proof {
        lemma_decimal_digits_ascii(i as nat);
    }
    let mut j: usize = 0;
    let ghost pad = out@;
    while j < digits.len()
        invariant
            digits@ == decimal_digits(i as nat),
            j <= digits@.len(),
            out@ == pad + digits@.take(j as int),
        decreases digits@.len() - j,
    {
        out.push(digits[j]);
        assert(digits@.take(j + 1) == digits@.take(j as int).push(digits@[j as int]));
        j = j + 1;
    }
    assert(digits@.take(digits@.len() as int) == digits@);
    assert(out@ == zero_padded(decimal_digits(i as nat), 4));
    let mut name = string_from_ascii(out);
    name.append(".png");
    name
}

} // verus!
