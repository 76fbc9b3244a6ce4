//! RGBA colors and their `#RGB` / `#RRGGBB` / `#RRGGBBAA` hex notation.

use vstd::prelude::*;
use vstd::string::*;
use crate::error::Error;
use crate::text::{ascii_chars, decimal_digits, decimal_string, string_from_ascii};

verus! {

/// RGBA color with 8-bit channels.
#[derive(Debug, Clone, Copy, PartialEq, Eq, Structural)]
pub struct Color {
    pub r: u8,
    pub g: u8,
    pub b: u8,
    pub a: u8,
}

/// Value of one hex digit (`0-9`, `a-f`, `A-F`), `None` for any other byte.
pub open spec fn hex_value(b: u8) -> Option<u8> {
    if 48 <= b <= 57 {
        Some((b - 48) as u8)
    } else if 97 <= b <= 102 {
        Some((b - 87) as u8)
    } else if 65 <= b <= 70 {
        Some((b - 55) as u8)
    } else {
        None
    }
}

/// The first byte of `s` that is not a hex digit, if any.
pub open spec fn first_non_hex(s: Seq<u8>) -> Option<u8>
    decreases s.len(),
{
    if s.len() == 0 {
        None
    } else if hex_value(s[0]) is None {
        Some(s[0])
    } else {
        first_non_hex(s.drop_first())
    }
}

/// The text after an optional leading `#`.
pub open spec fn hex_body(s: Seq<u8>) -> Seq<u8> {
    if s.len() > 0 && s[0] == 35 {
        s.drop_first()
    } else {
        s
    }
}

pub open spec fn hex_digit(s: Seq<u8>, i: int) -> int {
    hex_value(s[i]).unwrap() as int
}

/// The color that an all-hex body of length 3, 6 or 8 denotes: each digit of
/// `RGB` is doubled, `RRGGBB` is opaque, `RRGGBBAA` carries its alpha.
pub open spec fn hex_color(d: Seq<u8>) -> Color {
    if d.len() == 3 {
        Color {
            r: (17 * hex_digit(d, 0)) as u8,
            g: (17 * hex_digit(d, 1)) as u8,
            b: (17 * hex_digit(d, 2)) as u8,
            a: 255,
        }
    } else {
        Color {
            r: (16 * hex_digit(d, 0) + hex_digit(d, 1)) as u8,
            g: (16 * hex_digit(d, 2) + hex_digit(d, 3)) as u8,
            b: (16 * hex_digit(d, 4) + hex_digit(d, 5)) as u8,
            a: if d.len() == 8 {
                (16 * hex_digit(d, 6) + hex_digit(d, 7)) as u8
            } else {
                255u8
            },
        }
    }
}

pub open spec fn hex_length_ok(d: Seq<u8>) -> bool {
    d.len() == 3 || d.len() == 6 || d.len() == 8
}

/// The text parses as a color: an optional `#`, then 3, 6 or 8 hex digits.
pub open spec fn parses_as_color(s: Seq<u8>) -> bool {
    hex_length_ok(hex_body(s)) && first_non_hex(hex_body(s)) is None
}

pub open spec fn is_continuation_byte(b: u8) -> bool {
    128 <= b < 192
}

/// `i` does not fall inside a multi-byte character of `s`.
pub open spec fn on_char_boundary(s: Seq<u8>, i: int) -> bool {
    i == s.len() || (0 <= i < s.len() && !is_continuation_byte(s[i]))
}

/// For a six- or eight-digit body, each two-byte pair that is reached (all
/// pairs before it being hex digits) ends on a character boundary, so that
/// the pair can be cut out of the text.
pub open spec fn hex_pairs_sliceable(d: Seq<u8>) -> bool {
    (d.len() == 6 || d.len() == 8) ==> forall|k: int|
        #![trigger d.take(2 * k)]
        0 <= k < d.len() / 2 && first_non_hex(d.take(2 * k)) is None ==> on_char_boundary(
            d,
            2 * k + 2,
        )
}

pub open spec fn digit_error_message(b: u8) -> Seq<char> {
    "invalid hex digit: "@ + ascii_chars(decimal_digits(b as nat))
}

/// The message for a body of the wrong length; it quotes the text with a
/// single leading `#`.
pub open spec fn length_error_message(chars: Seq<char>, bytes: Seq<u8>) -> Seq<char> {
    if bytes.len() > 0 && bytes[0] == 35 {
        "expected #RGB, #RRGGBB, or #RRGGBBAA, got: "@ + chars
    } else {
        "expected #RGB, #RRGGBB, or #RRGGBBAA, got: "@ + "#"@ + chars
    }
}

pub open spec fn color_error_message(chars: Seq<char>, bytes: Seq<u8>) -> Seq<char> {
    if !hex_length_ok(hex_body(bytes)) {
        length_error_message(chars, bytes)
    } else {
        digit_error_message(first_non_hex(hex_body(bytes)).unwrap())
    }
}

proof fn lemma_first_non_hex_none(s: Seq<u8>)
    ensures
        first_non_hex(s) is None <==> forall|i: int| 0 <= i < s.len() ==> #[trigger] hex_value(s[i]) is Some,
    decreases s.len(),
{
    if s.len() > 0 {
        lemma_first_non_hex_none(s.drop_first());
        if first_non_hex(s) is None {
            assert forall|i: int| 0 <= i < s.len() implies #[trigger] hex_value(s[i]) is Some by {
                if i > 0 {
                    assert(s[i] == s.drop_first()[i - 1]);
                }
            }
        } else if hex_value(s[0]) is Some {
            let j = choose|j: int| 0 <= j < s.drop_first().len() && hex_value(s.drop_first()[j]) is None;
            assert(s[j + 1] == s.drop_first()[j]);
        }
    }
}

proof fn lemma_first_non_hex_prefix(s: Seq<u8>, k: int)
    requires
        0 <= k < s.len(),
        first_non_hex(s.take(k)) is None,
    ensures
        hex_value(s[k]) is None ==> first_non_hex(s) == Some(s[k]),
        hex_value(s[k]) is Some ==> first_non_hex(s.take(k + 1)) is None,
    decreases k,
{
    if k > 0 {
        assert(s.take(k).drop_first() == s.drop_first().take(k - 1));
        assert(s.take(k)[0] == s[0]);
        lemma_first_non_hex_prefix(s.drop_first(), k - 1);
        assert(s.drop_first()[k - 1] == s[k]);
        assert(s.take(k + 1).drop_first() == s.drop_first().take(k));
        assert(s.take(k + 1)[0] == s[0]);
    } else {
        assert(s.take(1).drop_first().len() == 0);
        assert(s.take(1)[0] == s[0]);
        reveal_with_fuel(first_non_hex, 2);
    }
}

/// Upper-case hex digit for a value below 16.
pub open spec fn upper_hex_digit(v: int) -> u8 {
    if v < 10 {
        (48 + v) as u8
    } else {
        (55 + v) as u8
    }
}

/// Two upper-case hex digits of a byte, high digit first.
pub open spec fn hex_pair(b: u8) -> Seq<u8> {
    seq![upper_hex_digit(b as int / 16), upper_hex_digit(b as int % 16)]
}

/// `#RRGGBB` for an opaque color, `#RRGGBBAA` otherwise.
pub open spec fn color_hex_text(c: Color) -> Seq<u8> {
    let rgb = seq![35u8] + hex_pair(c.r) + hex_pair(c.g) + hex_pair(c.b);
    if c.a == 255 {
        rgb
    } else {
        rgb + hex_pair(c.a)
    }
}

/// The hex text of a color parses back to that color.
pub proof fn lemma_hex_text_round_trip(c: Color)
    ensures
        parses_as_color(color_hex_text(c)),
        hex_color(hex_body(color_hex_text(c))) == c,
{
    let t = color_hex_text(c);
    let d = hex_body(t);
    assert(t[0] == 35u8);
    assert forall|i: int| 0 <= i < d.len() implies #[trigger] hex_value(d[i]) == Some(
        (if i % 2 == 0 {
            (if i < 2 { c.r } else if i < 4 { c.g } else if i < 6 { c.b } else { c.a }) as int / 16
        } else {
            (if i < 2 { c.r } else if i < 4 { c.g } else if i < 6 { c.b } else { c.a }) as int % 16
        }) as u8,
    ) by {}
    lemma_first_non_hex_none(d);
}

fn push_hex_pair(out: &mut Vec<u8>, b: u8)
    ensures
        final(out)@ == old(out)@ + hex_pair(b),
{
    let hi = b / 16;
    let lo = b % 16;
    out.push(if hi < 10 { 48 + hi } else { 55 + hi });
    out.push(if lo < 10 { 48 + lo } else { 55 + lo });
}

impl Color {
    /// The color as upper-case hex text: `#RRGGBB` when opaque, else
    /// `#RRGGBBAA`.
    pub fn to_hex_string(&self) -> (s: String)
        ensures
            s@ == ascii_chars(color_hex_text(*self)),
    {
        let mut out: Vec<u8> = Vec::new();
        out.push(35);
        push_hex_pair(&mut out, self.r);
        push_hex_pair(&mut out, self.g);
        push_hex_pair(&mut out, self.b);
        if self.a != 255 {
            push_hex_pair(&mut out, self.a);
        }
        assert(out@ == color_hex_text(*self));
        string_from_ascii(out)
    }

    /// Opaque black.
    pub fn black() -> (c: Self)
        ensures
            c == (Color { r: 0, g: 0, b: 0, a: 255 }),
    {
        Color { r: 0, g: 0, b: 0, a: 255 }
    }

    /// Opaque white.
    pub fn white() -> (c: Self)
        ensures
            c == (Color { r: 255, g: 255, b: 255, a: 255 }),
    {
        Color { r: 255, g: 255, b: 255, a: 255 }
    }

    /// Fully transparent black.
    pub fn transparent() -> (c: Self)
        ensures
            c == (Color { r: 0, g: 0, b: 0, a: 0 }),
    {
        Color { r: 0, g: 0, b: 0, a: 0 }
    }

    pub fn new(r: u8, g: u8, b: u8, a: u8) -> (c: Self)
        ensures
            c == (Color { r, g, b, a }),
    {
        Color { r, g, b, a }
    }

    /// Parse hex color: `#RGB`, `#RRGGBB`, or `#RRGGBBAA` (the `#` may be
    /// left out).
    pub fn from_hex(s: &str) -> (res: Result<Self, Error>)
        requires
            hex_pairs_sliceable(hex_body(s.spec_bytes())),
        ensures
            res is Ok <==> parses_as_color(s.spec_bytes()),
            res matches Ok(c) ==> c == hex_color(hex_body(s.spec_bytes())),
            res matches Err(e) ==> e matches Error::InvalidColor(m) && m@ == color_error_message(
                s@,
                s.spec_bytes(),
            ),
    {
        let bytes = s.as_bytes();
        let ghost all = bytes@;
        let has_hash = bytes.len() > 0 && bytes[0] == 35;
        let start: usize = if has_hash { 1 } else { 0 };
        let n = bytes.len() - start;
        let ghost d = hex_body(all);
        assert forall|i: int| 0 <= i < n implies #[trigger] d[i] == all[start + i] by {}
        assert(d.len() == n);
        if n != 3 && n != 6 && n != 8 {
            let mut msg = String::from_str("expected #RGB, #RRGGBB, or #RRGGBBAA, got: ");
            if !has_hash {
                msg.append("#");
            }
            msg.append(s);
            return Err(Error::InvalidColor(msg));
        }
        let mut digits: Vec<u8> = Vec::new();
        let mut i: usize = 0;
        while i < n
            invariant
                n == d.len(),
                hex_length_ok(d),
                forall|j: int| 0 <= j < n ==> #[trigger] d[j] == all[start + j],
                all == bytes@,
                all == s.spec_bytes(),
                d == hex_body(all),
                start + n == bytes.len(),
                i <= n,
                digits@.len() == i,
                first_non_hex(d.take(i as int)) is None,
                forall|j: int| 0 <= j < i ==> hex_value(d[j]) == Some(#[trigger] digits@[j]),
            decreases n - i,
        {
            proof {
                lemma_first_non_hex_prefix(d, i as int);
            }
            match hex_nibble(bytes[start + i]) {
                Ok(v) => {
                    digits.push(v);
                },
                Err(e) => {
                    assert(d[i as int] == bytes@[start + i]);
                    assert(first_non_hex(d) == Some(d[i as int]));
                    return Err(e);
                },
            }
            i = i + 1;
        }
        assert(d.take(n as int) == d);
        proof {
            lemma_first_non_hex_none(d);
        }
        let c = if n == 3 {
            let r = digits[0];
            let g = digits[1];
            let b = digits[2];
            assert((r << 4 | r) == 17 * r) by (bit_vector)
                requires
                    r < 16,
            ;
            assert((g << 4 | g) == 17 * g) by (bit_vector)
                requires
                    g < 16,
            ;
            assert((b << 4 | b) == 17 * b) by (bit_vector)
                requires
                    b < 16,
            ;
            Self::new(r << 4 | r, g << 4 | g, b << 4 | b, 255)
        } else {
            let r = hex_byte(digits[0], digits[1]);
            let g = hex_byte(digits[2], digits[3]);
            let b = hex_byte(digits[4], digits[5]);
            let a = if n == 8 {
                hex_byte(digits[6], digits[7])
            } else {
                255
            };
            Self::new(r, g, b, a)
        };
        Ok(c)
    }

    /// True if alpha < 3 (effectively transparent).
    pub fn is_transparent(self) -> (t: bool)
        ensures
            t == (self.a < 3),
    {
        self.a < 3
    }
}

/// Value of one hex digit.
pub fn hex_nibble(b: u8) -> (res: Result<u8, Error>)
    ensures
        res is Ok <==> hex_value(b) is Some,
        res matches Ok(v) ==> hex_value(b) == Some(v) && v < 16,
        res matches Err(e) ==> e matches Error::InvalidColor(m) && m@ == digit_error_message(b),
{
    if 48 <= b && b <= 57 {
        Ok(b - 48)
    } else if 97 <= b && b <= 102 {
        Ok(b - 87)
    } else if 65 <= b && b <= 70 {
        Ok(b - 55)
    } else {
        let mut msg = String::from_str("invalid hex digit: ");
        msg.append(decimal_string(b as u64).as_str());
        Err(Error::InvalidColor(msg))
    }
}

/// The byte written by two hex digits, high digit first.
pub fn hex_byte(hi: u8, lo: u8) -> (v: u8)
    requires
        hi < 16,
        lo < 16,
    ensures
        v == 16 * hi + lo,
{
    assert((hi << 4 | lo) == 16 * hi + lo) by (bit_vector)
        requires
            hi < 16,
            lo < 16,
    ;
    hi << 4 | lo
}

} // verus!
