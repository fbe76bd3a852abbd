//! Parsing of the transform key: a hex string, optionally prefixed with
//! `0x` or `0X`, decoded to the byte sequence that drives the XOR.

use vstd::prelude::*;
use vstd::string::StringSliceAdditionalSpecFns;

verus! {

/// Why a hex key string was rejected.
#[derive(Clone, Copy, Debug, PartialEq, Eq, Structural)]
pub enum KeyParseError {
    /// A byte that is not a hexadecimal digit, as a character, with its byte
    /// index in the string handed to the decoder.
    InvalidDigit { c: char, index: usize },
    /// The digits do not pair up into whole bytes.
    OddLength,
    /// The decoded bytes would not fit a fixed-size destination; decoding
    /// into a growable vector never reports this.
    BadLength,
}

/// Whether `b` is the ASCII code of a hexadecimal digit, upper or lower
/// case: `'0'..='9'` (48..=57), `'a'..='f'` (97..=102) or `'A'..='F'`
/// (65..=70).
pub open spec fn is_hex_digit(b: u8) -> bool {
    (48 <= b && b <= 57) || (97 <= b && b <= 102) || (65 <= b && b <= 70)
}

/// The value of the hexadecimal digit with ASCII code `b`.
pub open spec fn hex_digit_val(b: u8) -> u8
    recommends
        is_hex_digit(b),
{
    if 48 <= b && b <= 57 {
        (b - 48) as u8
    } else if 97 <= b && b <= 102 {
        (b - 97 + 10) as u8
    } else {
        (b - 65 + 10) as u8
    }
}

/// Whether every byte of `s` is a hexadecimal digit.
pub open spec fn all_hex_digits(s: Seq<u8>) -> bool {
    forall|i: int| 0 <= i < s.len() ==> is_hex_digit(s[i])
}

/// The bytes that an even-length sequence of hexadecimal digits encodes:
/// one byte per digit pair, high digit first.
pub open spec fn hex_decoded(s: Seq<u8>) -> Seq<u8>
    recommends
        s.len() % 2 == 0,
        all_hex_digits(s),
{
    Seq::new(s.len() / 2, |i: int| (hex_digit_val(s[2 * i]) * 16 + hex_digit_val(s[2 * i + 1])) as u8)
}

/// The index of the first byte of `s` that is not a hexadecimal digit
/// (`s.len()` when every byte is one).
pub open spec fn first_non_hex(s: Seq<u8>) -> int
    decreases s.len(),
{
    if s.len() == 0 {
        0
    } else if !is_hex_digit(s[0]) {
        0
    } else {
        1 + first_non_hex(s.skip(1))
    }
}

/// `s` with one leading `0x` or `0X` marker (ASCII 48 then 120 or 88)
/// removed, if it has one.
pub open spec fn strip_hex_prefix(s: Seq<u8>) -> Seq<u8> {
    if s.len() >= 2 && s[0] == 48 && (s[1] == 120 || s[1] == 88) {
        s.skip(2)
    } else {
        s
    }
}

/// Relies on `hex::decode`: an even-length sequence of hexadecimal digits
/// (upper or lower case) decodes to one byte per digit pair; an odd-length
/// input is rejected as such before anything is read; otherwise the first
/// byte that is not a digit is reported with its index.
#[verifier::external_body]
fn decode_hex(bytes: &Vec<u8>) -> (r: Result<Vec<u8>, KeyParseError>)
    ensures
        (r is Ok) <==> (bytes@.len() % 2 == 0 && all_hex_digits(bytes@)),
        r matches Ok(k) ==> k@ == hex_decoded(bytes@),
        (r == Err::<Vec<u8>, KeyParseError>(KeyParseError::OddLength)) <==> bytes@.len() % 2 != 0,
        bytes@.len() % 2 == 0 && !all_hex_digits(bytes@) ==> (r == Err::<Vec<u8>, KeyParseError>(
            (KeyParseError::InvalidDigit {
                c: bytes@[first_non_hex(bytes@)] as char,
                index: first_non_hex(bytes@) as usize,
            }),
        )),
{
    match hex::decode(bytes.as_slice()) {
        Ok(k) => Ok(k),
        Err(hex::FromHexError::InvalidHexCharacter { c, index }) => Err(
            KeyParseError::InvalidDigit { c, index },
        ),
        Err(hex::FromHexError::OddLength) => Err(KeyParseError::OddLength),
        Err(hex::FromHexError::InvalidStringLength) => Err(KeyParseError::BadLength),
    }
}

/// Parses a hex key string into the key bytes. A leading `0x` or `0X` is
/// allowed and ignored; what remains must be an even number of hexadecimal
/// digits. `0x` alone decodes to the empty key, under which the transform
/// is the identity: a documented degenerate case, not an error.
pub fn parse_hex_key(hex_str: &str) -> (r: Result<Vec<u8>, KeyParseError>)
    ensures
        (r is Ok) <==> (strip_hex_prefix(hex_str.spec_bytes()).len() % 2 == 0 && all_hex_digits(
            strip_hex_prefix(hex_str.spec_bytes()),
        )),
        r matches Ok(k) ==> k@ == hex_decoded(strip_hex_prefix(hex_str.spec_bytes())),
        (r == Err::<Vec<u8>, KeyParseError>(KeyParseError::OddLength)) <==> strip_hex_prefix(
            hex_str.spec_bytes(),
        ).len() % 2 != 0,
        strip_hex_prefix(hex_str.spec_bytes()).len() % 2 == 0 && !all_hex_digits(
            strip_hex_prefix(hex_str.spec_bytes()),
        ) ==> (r == Err::<Vec<u8>, KeyParseError>(
            (KeyParseError::InvalidDigit {
                c: strip_hex_prefix(hex_str.spec_bytes())[first_non_hex(
                    strip_hex_prefix(hex_str.spec_bytes()),
                )] as char,
                index: first_non_hex(strip_hex_prefix(hex_str.spec_bytes())) as usize,
            }),
        )),
{
    let bytes: Vec<u8> = vstd::slice::slice_to_vec(hex_str.as_bytes());
    let stripped: Vec<u8> = if bytes.len() >= 2 && bytes[0] == 48 && (bytes[1] == 120 || bytes[1]
        == 88) {
        let mut v: Vec<u8> = Vec::new();
        let mut i: usize = 2;
        while i < bytes.len()
            invariant
                2 <= i <= bytes@.len(),
                v@ == bytes@.subrange(2, i as int),
            decreases bytes@.len() - i,
        {
            v.push(bytes[i]);
            assert(v@ =~= bytes@.subrange(2, i + 1));
            i = i + 1;
        }
        proof {
            assert(v@ =~= bytes@.skip(2));
        }
        v
    } else {
        bytes
    };
    assert(stripped@ == strip_hex_prefix(hex_str.spec_bytes()));
    decode_hex(&stripped)
}

} // verus!
