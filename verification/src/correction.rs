//! QR error correction levels and their names.

use vstd::prelude::*;
use vstd::string::*;
use crate::text::{lower_bytes, to_ascii_lowercase};

verus! {

/// QR error correction level.
#[derive(Debug, Clone, Copy, PartialEq, Eq, Structural)]
pub enum CorrectionLevel {
    Low,
    Medium,
    Quartile,
    High,
}

/// The level that a (case-insensitive) name or initial stands for.
pub open spec fn correction_from_lower(t: Seq<u8>) -> Option<CorrectionLevel> {
    if t == [108u8, 111, 119]@ || t == [108u8]@ {
        Some(CorrectionLevel::Low)
    } else if t == [109u8, 101, 100, 105, 117, 109]@ || t == [109u8]@ {
        Some(CorrectionLevel::Medium)
    } else if t == [113u8, 117, 97, 114, 116, 105, 108, 101]@ || t == [113u8]@ {
        Some(CorrectionLevel::Quartile)
    } else if t == [104u8, 105, 103, 104]@ || t == [104u8]@ {
        Some(CorrectionLevel::High)
    } else {
        None
    }
}

/// The bytes of the lower-case name of a level.
pub open spec fn correction_name_bytes(l: CorrectionLevel) -> Seq<u8> {
    match l {
        CorrectionLevel::Low => [108u8, 111, 119]@,
        CorrectionLevel::Medium => [109u8, 101, 100, 105, 117, 109]@,
        CorrectionLevel::Quartile => [113u8, 117, 97, 114, 116, 105, 108, 101]@,
        CorrectionLevel::High => [104u8, 105, 103, 104]@,
    }
}

/// Parsing the name of a level gives the level back.
pub proof fn lemma_correction_name_round_trip(l: CorrectionLevel)
    ensures
        correction_from_lower(lower_bytes(correction_name_bytes(l))) == Some(l),
{
    let b = correction_name_bytes(l);
    assert(lower_bytes(b) =~= b);
}

pub open spec fn correction_name(l: CorrectionLevel) -> Seq<char> {
    match l {
        CorrectionLevel::Low => "low"@,
        CorrectionLevel::Medium => "medium"@,
        CorrectionLevel::Quartile => "quartile"@,
        CorrectionLevel::High => "high"@,
    }
}

/// Byte-wise equality of two byte strings.
pub fn bytes_equal(a: &[u8], b: &[u8]) -> (eq: bool)
    ensures
        eq == (a@ == b@),
{
    if a.len() != b.len() {
        return false;
    }
    let mut i: usize = 0;
    while i < a.len()
        invariant
            a.len() == b.len(),
            i <= a.len(),
            forall|j: int| 0 <= j < i ==> a@[j] == b@[j],
        decreases a.len() - i,
    {
        if a[i] != b[i] {
            return false;
        }
        i = i + 1;
    }
    assert(a@ =~= b@);
    true
}

/// Byte-wise equality of a byte string with a fixed word.
pub fn word_is<const N: usize>(t: &[u8], w: &[u8; N]) -> (eq: bool)
    ensures
        eq == (t@ == w@),
{
    let ws: &[u8] = w.as_slice();
    assert(ws@ == w@);
    bytes_equal(t, ws)
}

impl CorrectionLevel {
    /// The lower-case name of the level.
    pub fn name(self) -> (s: &'static str)
        ensures
            s@ == correction_name(self),
            s.spec_bytes() == correction_name_bytes(self),
    {
        match self {
            CorrectionLevel::Low => {
                let r = "low";
                proof {
                    reveal_strlit("low");
                    vstd::utf8::is_ascii_chars_encode_utf8(r@);
                    assert(r.spec_bytes() =~= [108u8, 111, 119]@);
                }
                r
            },
            CorrectionLevel::Medium => {
                let r = "medium";
                proof {
                    reveal_strlit("medium");
                    vstd::utf8::is_ascii_chars_encode_utf8(r@);
                    assert(r.spec_bytes() =~= [109u8, 101, 100, 105, 117, 109]@);
                }
                r
            },
            CorrectionLevel::Quartile => {
                let r = "quartile";
                proof {
                    reveal_strlit("quartile");
                    vstd::utf8::is_ascii_chars_encode_utf8(r@);
                    assert(r.spec_bytes() =~= [113u8, 117, 97, 114, 116, 105, 108, 101]@);
                }
                r
            },
            CorrectionLevel::High => {
                let r = "high";
                proof {
                    reveal_strlit("high");
                    vstd::utf8::is_ascii_chars_encode_utf8(r@);
                    assert(r.spec_bytes() =~= [104u8, 105, 103, 104]@);
                }
                r
            },
        }
    }

    /// Parses `low`/`l`, `medium`/`m`, `quartile`/`q` or `high`/`h`, in any
    /// ASCII letter case.
    pub fn parse(s: &str) -> (res: Result<Self, String>)
        ensures
            res is Ok <==> correction_from_lower(lower_bytes(s.spec_bytes())) is Some,
            res matches Ok(l) ==> correction_from_lower(lower_bytes(s.spec_bytes())) == Some(l),
            res matches Err(m) ==> m@ == "unknown correction level: "@ + s@
                + " (expected low, medium, quartile, or high)"@,
    {
        let lower = to_ascii_lowercase(s.as_bytes());
        let t = lower.as_slice();
        if word_is(t, &[108u8, 111, 119]) || word_is(t, &[108u8]) {
            Ok(CorrectionLevel::Low)
        } else if word_is(t, &[109u8, 101, 100, 105, 117, 109]) || word_is(t, &[109u8]) {
            Ok(CorrectionLevel::Medium)
        } else if word_is(t, &[113u8, 117, 97, 114, 116, 105, 108, 101]) || word_is(t, &[113u8]) {
            Ok(CorrectionLevel::Quartile)
        } else if word_is(t, &[104u8, 105, 103, 104]) || word_is(t, &[104u8]) {
            Ok(CorrectionLevel::High)
        } else {
            let mut msg = String::from_str("unknown correction level: ");
            msg.append(s);
            msg.append(" (expected low, medium, quartile, or high)");
            Err(msg)
        }
    }
}

impl std::str::FromStr for CorrectionLevel {
    type Err = String;

    fn from_str(s: &str) -> (res: Result<Self, String>)
        ensures
            res is Ok <==> correction_from_lower(lower_bytes(s.spec_bytes())) is Some,
            res matches Ok(l) ==> correction_from_lower(lower_bytes(s.spec_bytes())) == Some(l),
            res matches Err(m) ==> m@ == "unknown correction level: "@ + s@
                + " (expected low, medium, quartile, or high)"@,
    {
        CorrectionLevel::parse(s)
    }
}

/// The correction level of a single-frame code: the one given, else High
/// with a logo and Low without. (Animations default to Quartile with a logo;
/// see `AnimateParams::effective_correction`.)
pub open spec fn effective_correction_spec(correction: Option<CorrectionLevel>, has_logo: bool) -> CorrectionLevel {
    match correction {
        Some(c) => c,
        None => if has_logo {
            CorrectionLevel::High
        } else {
            CorrectionLevel::Low
        },
    }
}

/// The correction level of a single-frame code: the one given, else High
/// where a logo is drawn (it hides modules) and Low otherwise.
pub fn effective_correction(correction: Option<CorrectionLevel>, has_logo: bool) -> (c: CorrectionLevel)
    ensures
        c == effective_correction_spec(correction, has_logo),
        correction matches Some(given) ==> c == given,
        correction is None && has_logo ==> c == CorrectionLevel::High,
        correction is None && !has_logo ==> c == CorrectionLevel::Low,
{
    match correction {
        Some(c) => c,
        None => if has_logo {
            CorrectionLevel::High
        } else {
            CorrectionLevel::Low
        },
    }
}

/// A correction level that is given is the one used, with or without a
/// logo; only where none is given does the logo decide: High with a logo,
/// Low without.
pub proof fn lemma_single_frame_correction(given: Option<CorrectionLevel>, has_logo: bool)
    ensures
        forall|c: CorrectionLevel| given == Some(c) ==> effective_correction_spec(given, has_logo) == c,
        given is None ==> effective_correction_spec(given, has_logo) == if has_logo {
            CorrectionLevel::High
        } else {
            CorrectionLevel::Low
        },
        // The logo changes the level only where none is given.
        given is Some ==> effective_correction_spec(given, true) == effective_correction_spec(given, false),
{
}

} // verus!
