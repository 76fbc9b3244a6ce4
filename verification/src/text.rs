//! ASCII byte helpers: case mapping, decimal digits, and turning
//! ASCII bytes into a `String`.

use vstd::prelude::*;

verus! {

/// The characters that a sequence of ASCII bytes stands for.
pub open spec fn ascii_chars(bytes: Seq<u8>) -> Seq<char> {
    bytes.map_values(|b: u8| b as char)
}

/// Every byte is below 128.
pub open spec fn all_ascii(bytes: Seq<u8>) -> bool {
    forall|i: int| 0 <= i < bytes.len() ==> #[trigger] bytes[i] < 128
}

/// Upper-case form of one byte: `a`..`z` map to `A`..`Z`, every other byte stays.
pub open spec fn ascii_upper(b: u8) -> u8 {
    if 97 <= b <= 122 { (b - 32) as u8 } else { b }
}

/// Lower-case form of one byte: `A`..`Z` map to `a`..`z`, every other byte stays.
pub open spec fn ascii_lower(b: u8) -> u8 {
    if 65 <= b <= 90 { (b + 32) as u8 } else { b }
}

pub open spec fn upper_bytes(s: Seq<u8>) -> Seq<u8> {
    s.map_values(|b: u8| ascii_upper(b))
}

pub open spec fn lower_bytes(s: Seq<u8>) -> Seq<u8> {
    s.map_values(|b: u8| ascii_lower(b))
}

/// Decimal digits (ASCII) of a natural number, most significant first.
pub open spec fn decimal_digits(n: nat) -> Seq<u8>
    decreases n,
{
    if n < 10 {
        seq![(48 + n) as u8]
    } else {
        decimal_digits(n / 10).push((48 + n % 10) as u8)
    }
}

pub proof fn lemma_decimal_digits_ascii(n: nat)
    ensures
        all_ascii(decimal_digits(n)),
        decimal_digits(n).len() >= 1,
    decreases n,
{
    if n >= 10 {
        lemma_decimal_digits_ascii(n / 10);
    }
}

/// ASCII upper-casing of a byte string (what `to_ascii_uppercase` does).
pub fn to_ascii_uppercase(s: &[u8]) -> (out: Vec<u8>)
    ensures
        out@ == upper_bytes(s@),
{
    let mut out: Vec<u8> = Vec::with_capacity(s.len());
    let mut i: usize = 0;
    while i < s.len()
        invariant
            i <= s.len(),
            out@ == upper_bytes(s@.take(i as int)),
        decreases s.len() - i,
    {
        let b = s[i];
        let u: u8 = if 97 <= b && b <= 122 { b - 32 } else { b };
        out.push(u);
        assert(s@.take(i as int + 1) == s@.take(i as int).push(b));
        i = i + 1;
    }
    assert(s@.take(s.len() as int) == s@);
    out
}

/// ASCII lower-casing of a byte string (what `to_ascii_lowercase` does).
pub fn to_ascii_lowercase(s: &[u8]) -> (out: Vec<u8>)
    ensures
        out@ == lower_bytes(s@),
{
    let mut out: Vec<u8> = Vec::with_capacity(s.len());
    let mut i: usize = 0;
    while i < s.len()
        invariant
            i <= s.len(),
            out@ == lower_bytes(s@.take(i as int)),
        decreases s.len() - i,
    {
        let b = s[i];
        let l: u8 = if 65 <= b && b <= 90 { b + 32 } else { b };
        out.push(l);
        assert(s@.take(i as int + 1) == s@.take(i as int).push(b));
        i = i + 1;
    }
    assert(s@.take(s.len() as int) == s@);
    out
}

/// Appends the decimal digits of `n` to `out`.
pub fn push_decimal(out: &mut Vec<u8>, n: u64)
    ensures
        final(out)@ == old(out)@ + decimal_digits(n as nat),
    decreases n,
{
    if n >= 10 {
        push_decimal(out, n / 10);
    }
    let d: u8 = (n % 10) as u8;
    out.push(48 + d);
    assert(old(out)@ + decimal_digits(n as nat) =~= final(out)@) by {
        if n >= 10 {
            assert(decimal_digits(n as nat) == decimal_digits((n / 10) as nat).push((48 + n % 10) as u8));
        }
    }
}

/// The decimal digits of `n` as a `String`.
pub fn decimal_string(n: u64) -> (s: String)
    ensures
        s@ == ascii_chars(decimal_digits(n as nat)),
{
    let mut digits: Vec<u8> = Vec::new();
    push_decimal(&mut digits, n);
    proof {
        lemma_decimal_digits_ascii(n as nat);
        assert(digits@ == decimal_digits(n as nat));
    }
    string_from_ascii(digits)
}

/// Turns ASCII bytes into a `String` holding the same characters.
/// Trusted: `String::from_utf8` accepts every ASCII byte string and keeps
/// each byte as one character.
#[verifier::external_body]
pub fn string_from_ascii(bytes: Vec<u8>) -> (s: String)
    requires
        all_ascii(bytes@),
    ensures
        s@ == ascii_chars(bytes@),
{
    String::from_utf8(bytes).unwrap()
}

} // verus!
