//! Hexadecimal text form of a signature.
//!
//! Encoding writes each byte of `R`, then of `s`, as two digits in one case.
//! Decoding checks the length, then scans the text once for characters that
//! are neither ASCII digits nor letters and for letters of both cases, then
//! reads it two digits at a time.
use vstd::prelude::*;

use vstd::utf8::encode_utf8;

use crate::sig::{Signature, BYTE_SIZE};

verus! {

/// Length in characters of the hex text of a signature.
pub const HEX_LEN: usize = 228;

/// Why a text is not the hex form of a signature.
#[derive(Clone, Copy, Debug, PartialEq, Eq)]
pub enum HexError {
    /// The text does not have exactly two characters per signature byte.
    InvalidLength,
    /// A character is neither an ASCII digit nor an ASCII letter.
    InvalidCharacter,
    /// Letters of both cases occur in the text.
    MixedCase,
    /// A pair of characters is not a base-16 byte (a letter beyond `f`).
    InvalidDigit,
}

/// Case of the letters seen so far while scanning a text.
#[derive(Clone, Copy, Debug, PartialEq, Eq)]
pub enum LetterCase {
    Unknown,
    Lower,
    Upper,
}

pub open spec fn is_digit(b: u8) -> bool {
    0x30 <= b <= 0x39
}

pub open spec fn is_lower(b: u8) -> bool {
    0x61 <= b <= 0x7a
}

pub open spec fn is_upper(b: u8) -> bool {
    0x41 <= b <= 0x5a
}

/// One step of the scan: the case after reading `b`, or why `b` is refused.
pub open spec fn scan_step(case: LetterCase, b: u8) -> Result<LetterCase, HexError> {
    if is_digit(b) {
        Ok(case)
    } else if is_lower(b) {
        if case == LetterCase::Upper {
            Err(HexError::MixedCase)
        } else {
            Ok(LetterCase::Lower)
        }
    } else if is_upper(b) {
        if case == LetterCase::Lower {
            Err(HexError::MixedCase)
        } else {
            Ok(LetterCase::Upper)
        }
    } else {
        Err(HexError::InvalidCharacter)
    }
}

/// The scan of the first `n` bytes of `t`, stopping at the first refusal.
pub open spec fn scan_prefix(t: Seq<u8>, n: nat) -> Result<LetterCase, HexError>
    decreases n,
{
    if n == 0 {
        Ok(LetterCase::Unknown)
    } else {
        match scan_prefix(t, (n - 1) as nat) {
            Ok(case) => scan_step(case, t[n - 1]),
            Err(e) => Err(e),
        }
    }
}

/// The scan of the whole of `t`.
pub open spec fn scan(t: Seq<u8>) -> Result<LetterCase, HexError> {
    scan_prefix(t, t.len())
}

/// Value of a base-16 digit, in either case.
pub open spec fn digit_value(b: u8) -> Option<u8> {
    if is_digit(b) {
        Some((b - 0x30) as u8)
    } else if 0x61 <= b <= 0x66 {
        Some((b - 0x57) as u8)
    } else if 0x41 <= b <= 0x46 {
        Some((b - 0x37) as u8)
    } else {
        None
    }
}

pub open spec fn is_hex_digit(b: u8) -> bool {
    digit_value(b) is Some
}

/// The byte written by the digit pair at `2 * i` and `2 * i + 1`.
pub open spec fn pair_value(t: Seq<u8>, i: int) -> u8 {
    (digit_value(t[2 * i])->Some_0 * 16 + digit_value(t[2 * i + 1])->Some_0) as u8
}

/// The bytes written by `t`, two digits each.
pub open spec fn pairs(t: Seq<u8>) -> Seq<u8> {
    Seq::new(t.len() / 2, |i: int| pair_value(t, i))
}

/// What decoding the bytes `t` of a text gives: the signature's flat bytes,
/// or the first reason to refuse the text.
pub open spec fn decode_spec(t: Seq<u8>) -> Result<Seq<u8>, HexError> {
    if t.len() != HEX_LEN {
        Err(HexError::InvalidLength)
    } else {
        match scan(t) {
            Err(e) => Err(e),
            Ok(_) => if forall|i: int| 0 <= i < t.len() ==> is_hex_digit(#[trigger] t[i]) {
                Ok(pairs(t))
            } else {
                Err(HexError::InvalidDigit)
            },
        }
    }
}

/// What decoding the text `t` gives.
pub open spec fn decode_text(t: Seq<char>) -> Result<Seq<u8>, HexError> {
    decode_spec(encode_utf8(t))
}

fn scan_byte(case: LetterCase, b: u8) -> (r: Result<LetterCase, HexError>)
    ensures
        r == scan_step(case, b),
{
    if 0x30 <= b && b <= 0x39 {
        Ok(case)
    } else if 0x61 <= b && b <= 0x7a {
        match case {
            LetterCase::Upper => Err(HexError::MixedCase),
            _ => Ok(LetterCase::Lower),
        }
    } else if 0x41 <= b && b <= 0x5a {
        match case {
            LetterCase::Lower => Err(HexError::MixedCase),
            _ => Ok(LetterCase::Upper),
        }
    } else {
        Err(HexError::InvalidCharacter)
    }
}

/// Scans `t` left to right, and stops at the first character that is neither
/// an ASCII digit nor an ASCII letter, or at the first letter whose case
/// differs from that of the letters before it.
pub fn check_case(t: &[u8]) -> (r: Result<LetterCase, HexError>)
    ensures
        r == scan(t@),
{
    let mut case = LetterCase::Unknown;
    let mut i: usize = 0;
    while i < t.len()
        invariant
            i <= t@.len(),
            scan_prefix(t@, i as nat) == Ok::<LetterCase, HexError>(case),
        decreases t@.len() - i,
    {
        match scan_byte(case, t[i]) {
            Ok(c) => {
                case = c;
            },
            Err(e) => {
                proof {
                    lemma_scan_err_stays(t@, (i + 1) as nat, t@.len());
                }
                return Err(e);
            },
        }
        i = i + 1;
    }
    Ok(case)
}

/// Once the scan has refused a prefix, it refuses every longer one the same way.
proof fn lemma_scan_err_stays(t: Seq<u8>, n: nat, m: nat)
    requires
        n <= m,
        scan_prefix(t, n) is Err,
    ensures
        scan_prefix(t, m) == scan_prefix(t, n),
    decreases m - n,
{
    if n < m {
        lemma_scan_err_stays(t, n, (m - 1) as nat);
    }
}

/// The value of a base-16 digit in either case, or `None`.
pub fn hex_digit_value(b: u8) -> (r: Option<u8>)
    ensures
        r == digit_value(b),
{
    if 0x30 <= b && b <= 0x39 {
        Some(b - 0x30)
    } else if 0x61 <= b && b <= 0x66 {
        Some(b - 0x61 + 10)
    } else if 0x41 <= b && b <= 0x46 {
        Some(b - 0x41 + 10)
    } else {
        None
    }
}

/// Decodes the hex text whose bytes are `hex` into a signature, or says why
/// the text was refused: the length first, then the scan, then each digit pair.
pub fn decode_hex(hex: &[u8]) -> (r: Result<Signature, HexError>)
    ensures
        match r {
            Ok(sig) => decode_spec(hex@) == Ok::<Seq<u8>, HexError>(sig.bytes()),
            Err(e) => decode_spec(hex@) == Err::<Seq<u8>, HexError>(e),
        },
{
    if hex.len() != HEX_LEN {
        return Err(HexError::InvalidLength);
    }
    match check_case(hex) {
        Err(e) => {
            return Err(e);
        },
        Ok(_) => {},
    }
    let mut flat = [0u8; BYTE_SIZE];
    let mut i: usize = 0;
    while i < BYTE_SIZE
        invariant
            i <= BYTE_SIZE,
            hex@.len() == HEX_LEN,
            scan(hex@) is Ok,
            forall|j: int| 0 <= j < 2 * i ==> is_hex_digit(#[trigger] hex@[j]),
            forall|j: int| 0 <= j < i ==> flat@[j] == pair_value(hex@, j),
        decreases BYTE_SIZE - i,
    {
        let hi = hex_digit_value(hex[2 * i]);
        let lo = hex_digit_value(hex[2 * i + 1]);
        match (hi, lo) {
            (Some(h), Some(l)) => {
                flat[i] = h * 16 + l;
            },
            _ => {
                assert(!is_hex_digit(hex@[2 * i as int]) || !is_hex_digit(hex@[2 * i + 1]));
                return Err(HexError::InvalidDigit);
            },
        }
        i = i + 1;
    }
    assert(flat@ =~= pairs(hex@));
    Ok(Signature::from_bytes(&flat))
}

/// The base-16 digit of `v` (below 16) as a character: `0`-`9`, then
/// `A`-`F` where `upper` holds, else `a`-`f`.
pub open spec fn digit_char(v: u8, upper: bool) -> char {
    (if v < 10 {
        0x30 + v
    } else if upper {
        0x37 + v
    } else {
        0x57 + v
    }) as u32 as char
}

/// The hex text of the bytes `b`: two digits per byte, high digit first.
pub open spec fn encode_text(b: Seq<u8>, upper: bool) -> Seq<char> {
    Seq::new(
        2 * b.len(),
        |i: int|
            if i % 2 == 0 {
                digit_char(b[i / 2] / 16, upper)
            } else {
                digit_char(b[i / 2] % 16, upper)
            },
    )
}

/// Relies on `String::push`: appends one character to the string.
#[verifier::external_body]
fn push_char(out: &mut String, c: char)
    ensures
        final(out)@ == old(out)@.push(c),
{
    out.push(c)
}

fn digit_of(v: u8, upper: bool) -> (c: char)
    requires
        v < 16,
    ensures
        c == digit_char(v, upper),
{
    let b: u8 = if v < 10 {
        0x30 + v
    } else if upper {
        0x37 + v
    } else {
        0x57 + v
    };
    b as char
}

fn encode_hex(bytes: &[u8; BYTE_SIZE], upper: bool) -> (out: String)
    ensures
        out@ == encode_text(bytes@, upper),
{
    let mut out = String::new();
    let mut i: usize = 0;
    while i < BYTE_SIZE
        invariant
            i <= BYTE_SIZE,
            out@.len() == 2 * i,
            forall|j: int| 0 <= j < 2 * i ==> out@[j] == encode_text(bytes@, upper)[j],
        decreases BYTE_SIZE - i,
    {
        let b = bytes[i];
        push_char(&mut out, digit_of(b / 16, upper));
        push_char(&mut out, digit_of(b % 16, upper));
        i = i + 1;
    }
    assert(out@ =~= encode_text(bytes@, upper));
    out
}

impl Signature {
    /// The lower-case hex text of the signature.
    pub fn to_lower_hex(&self) -> (r: String)
        ensures
            r@ == encode_text(self.bytes(), false),
    {
        encode_hex(&self.to_bytes(), false)
    }

    /// The upper-case hex text of the signature.
    pub fn to_upper_hex(&self) -> (r: String)
        ensures
            r@ == encode_text(self.bytes(), true),
    {
        encode_hex(&self.to_bytes(), true)
    }

    /// Decodes a signature from hex text. Both cases are accepted, but not
    /// both in one text. Every refusal gives the same opaque error.
    pub fn from_hex(hex: &str) -> (r: Result<Signature, signature::Error>)
        ensures
            r is Ok <==> decode_text(hex@) is Ok,
            r matches Ok(sig) ==> decode_text(hex@) == Ok::<Seq<u8>, HexError>(sig.bytes()),
    {
        match decode_hex(hex.as_bytes()) {
            Ok(sig) => Ok(sig),
            Err(_) => Err(signature::Error::new()),
        }
    }
}

impl core::str::FromStr for Signature {
    type Err = signature::Error;

    /// Decodes a signature from hex text, as `Signature::from_hex` does.
    fn from_str(hex: &str) -> (r: Result<Signature, signature::Error>)
        ensures
            r is Ok <==> decode_text(hex@) is Ok,
            r matches Ok(sig) ==> decode_text(hex@) == Ok::<Seq<u8>, HexError>(sig.bytes()),
    {
        Signature::from_hex(hex)
    }
}

/// What a successful scan of a prefix shows of it: every byte is an ASCII
/// digit or letter, and the case found is that of all the letters in it.
proof fn lemma_scan_ok_shows(t: Seq<u8>, n: nat)
    requires
        n <= t.len(),
    ensures
        scan_prefix(t, n) matches Ok(case) ==> {
            &&& forall|k: int| 0 <= k < n ==> is_digit(#[trigger] t[k]) || is_lower(t[k]) || is_upper(t[k])
            &&& case == LetterCase::Unknown ==> forall|k: int| 0 <= k < n ==> is_digit(#[trigger] t[k])
            &&& case == LetterCase::Lower ==> forall|k: int| 0 <= k < n ==> !is_upper(#[trigger] t[k])
            &&& case == LetterCase::Upper ==> forall|k: int| 0 <= k < n ==> !is_lower(#[trigger] t[k])
        },
    decreases n,
{
    if n > 0 {
        lemma_scan_ok_shows(t, (n - 1) as nat);
    }
}

/// The scan accepts a prefix made of ASCII digits and letters of one case.
proof fn lemma_scan_single_case(t: Seq<u8>, n: nat, upper: bool)
    requires
        n <= t.len(),
        forall|k: int| 0 <= k < n ==> is_digit(#[trigger] t[k]) || (if upper { is_upper(t[k]) } else { is_lower(t[k]) }),
    ensures
        scan_prefix(t, n) matches Ok(case) && (case == LetterCase::Unknown || case == (if upper { LetterCase::Upper } else { LetterCase::Lower })),
    decreases n,
{
    if n > 0 {
        lemma_scan_single_case(t, (n - 1) as nat, upper);
    }
}

/// Decoding the hex text of a signature, written in either case, gives back
/// its bytes, and the bytes determine the signature.
pub proof fn lemma_round_trip(v: Signature, upper: bool)
    ensures
        decode_text(encode_text(v.bytes(), upper)) == Ok::<Seq<u8>, HexError>(v.bytes()),
        forall|w: Signature| w.bytes() == v.bytes() ==> w == v,
{
    let b = v.bytes();
    let t = encode_text(b, upper);
    assert forall|i: int| 0 <= i < t.len() implies '\0' <= #[trigger] t[i] <= '\u{7f}' by {}
    vstd::utf8::is_ascii_chars_encode_utf8(t);
    let u = encode_utf8(t);
    assert forall|k: int| 0 <= k < u.len() implies is_hex_digit(#[trigger] u[k]) && (is_digit(u[k]) || (if upper {
        is_upper(u[k])
    } else {
        is_lower(u[k])
    })) by {
        assert(t[k] as u8 == u[k]);
    }
    lemma_scan_single_case(u, u.len(), upper);
    assert(pairs(u) =~= b) by {
        assert forall|i: int| 0 <= i < b.len() implies #[trigger] pairs(u)[i] == b[i] by {
            assert(t[2 * i] as u8 == u[2 * i]);
            assert(t[2 * i + 1] as u8 == u[2 * i + 1]);
        }
    }
    assert forall|w: Signature| w.bytes() == v.bytes() implies w == v by {
        Signature::lemma_bytes_determine(w, v);
    }
}

/// A text of the wrong length is refused, whatever it holds.
pub proof fn lemma_length_rejection(t: Seq<u8>)
    requires
        t.len() != HEX_LEN,
    ensures
        decode_spec(t) == Err::<Seq<u8>, HexError>(HexError::InvalidLength),
{
}

/// A text holding a byte that is not a base-16 digit is refused, wherever the
/// byte stands.
pub proof fn lemma_character_rejection(t: Seq<u8>, k: int)
    requires
        0 <= k < t.len(),
        !is_hex_digit(t[k]),
    ensures
        decode_spec(t) is Err,
{
}

/// Upper-casing one letter of a lower-case hex text that holds another letter
/// makes the text refused.
pub proof fn lemma_case_rejection(t: Seq<u8>, i: int, j: int)
    requires
        t.len() == HEX_LEN,
        forall|k: int| 0 <= k < t.len() ==> is_digit(#[trigger] t[k]) || 0x61 <= t[k] <= 0x66,
        0 <= i < t.len(),
        0 <= j < t.len(),
        i != j,
        is_lower(t[i]),
        is_lower(t[j]),
    ensures
        decode_spec(t.update(i, (t[i] - 0x20) as u8)) is Err,
{
    let m = t.update(i, (t[i] - 0x20) as u8);
    lemma_scan_ok_shows(m, m.len());
    assert(is_upper(m[i]) && is_lower(m[j]));
}

/// A text of the right length made of digits alone is accepted: it has no
/// letter, so no case to hold to.
pub proof fn lemma_digits_accepted(t: Seq<u8>)
    requires
        t.len() == HEX_LEN,
        forall|k: int| 0 <= k < t.len() ==> is_digit(#[trigger] t[k]),
    ensures
        decode_spec(t) == Ok::<Seq<u8>, HexError>(pairs(t)),
{
    lemma_scan_single_case(t, t.len(), false);
}

} // verus!
