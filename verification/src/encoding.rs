//! Text encodings and digests that the codecs borrow from other crates.
//!
//! Nothing in this module is proved: each function hands its arguments to
//! the crate that implements the encoding, and its contract records what
//! that crate documents.

use vstd::prelude::*;
use vstd::string::*;

verus! {

/// The padded standard base64 text of `bytes`.
pub uninterp spec fn base64_text(bytes: Seq<u8>) -> Seq<char>;

/// The bytes that a padded standard base64 `text` stands for, if it is one.
pub uninterp spec fn base64_bytes(text: Seq<char>) -> Option<Seq<u8>>;

/// Calls `base64::Engine::encode` on the `STANDARD` engine.
///
/// The result is named `base64_text`. The engine decodes what it encoded, so
/// `base64_bytes` of the result is the input. It writes four letters for
/// every three bytes, and four for what is left of them. The call panics
/// only when the encoded length overflows `usize`, which the precondition
/// excludes.
#[verifier::external_body]
pub(crate) fn base64_encode(bytes: &Vec<u8>) -> (text: String)
    requires
        (bytes.len() / 3) * 4 + 4 <= usize::MAX,
    ensures
        text@ == base64_text(bytes@),
        base64_bytes(text@) == Some(bytes@),
        text@.len() == 4 * ((bytes@.len() + 2) / 3),
{
    base64::Engine::encode(&base64::engine::general_purpose::STANDARD, bytes)
}

/// Calls `base64::Engine::decode` on the `STANDARD` engine.
///
/// The result is named `base64_bytes`. The engine requires canonical padding
/// and rejects set trailing bits, so a text that decodes is the very text
/// that encoding the decoded bytes gives, and has its length.
#[verifier::external_body]
pub(crate) fn base64_decode(text: &str) -> (bytes: Option<Vec<u8>>)
    ensures
        match bytes {
            Some(b) => {
                &&& base64_bytes(text@) == Some(b@)
                &&& base64_text(b@) == text@
                &&& text@.len() == 4 * ((b@.len() + 2) / 3)
            },
            None => base64_bytes(text@).is_none(),
        },
{
    base64::Engine::decode(&base64::engine::general_purpose::STANDARD, text).ok()
}

/// The value of the digit that the byte `byte` spells in the radix 10 or
/// 16, if it spells one: `0` to `9`, and in radix 16 also `a` to `f` and
/// `A` to `F`.
pub open spec fn digit_value(byte: u8, radix: nat) -> Option<nat> {
    if 0x30 <= byte <= 0x39 {
        Some((byte - 0x30) as nat)
    } else if radix == 16 && 0x61 <= byte <= 0x66 {
        Some((byte - 0x61 + 10) as nat)
    } else if radix == 16 && 0x41 <= byte <= 0x46 {
        Some((byte - 0x41 + 10) as nat)
    } else {
        None
    }
}

/// The number that the digits `digits` spell in the radix `radix`, highest
/// digit first, if each of them is a digit.
pub open spec fn digits_value(digits: Seq<u8>, radix: nat) -> Option<nat>
    decreases digits.len(),
{
    if digits.len() == 0 {
        Some(0)
    } else {
        match (digits_value(digits.drop_last(), radix), digit_value(digits.last(), radix)) {
            (Some(value), Some(digit)) => Some(value * radix + digit),
            _ => None,
        }
    }
}

/// The number that `text` spells in the radix `radix`: an optional plus
/// sign and then one digit or more, with a value that fits in 32 bits.
pub open spec fn number_value(text: Seq<u8>, radix: nat) -> Option<u32> {
    let digits = if text.len() > 0 && text[0] == 0x2b {
        text.drop_first()
    } else {
        text
    };
    if digits.len() == 0 {
        None
    } else {
        match digits_value(digits, radix) {
            Some(value) => if value <= u32::MAX {
                Some(value as u32)
            } else {
                None
            },
            None => None,
        }
    }
}

/// The bytes of the characters `text` where each is below 128, which the
/// digits and the sign are; a character from 128 on is given as a byte
/// that is no digit.
pub open spec fn narrow(text: Seq<char>) -> Seq<u8> {
    Seq::new(
        text.len(),
        |i: int|
            if (text[i] as u32) < 128 {
                text[i] as u8
            } else {
                0xffu8
            },
    )
}

/// The number that `text` spells in decimal, as `str::parse::<u32>` reads
/// it, if it spells one.
pub open spec fn decimal_u32(text: Seq<char>) -> Option<u32> {
    number_value(narrow(text), 10)
}

/// The number that the text with the bytes `text` spells in hexadecimal,
/// as `u32::from_str_radix` with radix 16 reads it, if it spells one.
pub open spec fn hex_u32(text: Seq<u8>) -> Option<u32> {
    number_value(text, 16)
}

/// Calls `str::parse::<u32>`, which reads an optional plus sign and then
/// decimal digits, and fails on an empty text, on any other character and
/// on a value beyond 32 bits: `decimal_u32`.
#[verifier::external_body]
pub(crate) fn parse_decimal_u32(text: &str) -> (number: Option<u32>)
    ensures
        number == decimal_u32(text@),
{
    text.parse::<u32>().ok()
}

/// Calls `u32::from_str_radix` with radix 16, which reads an optional plus
/// sign and then hexadecimal digits of either case, and fails on an empty
/// text, on any other character and on a value beyond 32 bits: `hex_u32`.
#[verifier::external_body]
pub(crate) fn parse_hex_u32(text: &str) -> (number: Option<u32>)
    ensures
        number == hex_u32(text.spec_bytes()),
{
    u32::from_str_radix(text, 16).ok()
}

/// The SHA-256 digest of `bytes`.
pub uninterp spec fn sha256_digest(bytes: Seq<u8>) -> Seq<u8>;

/// The character of the decimal digit `digit`.
pub open spec fn digit_char(digit: nat) -> char {
    ((0x30 + digit) as u8) as char
}

/// The decimal digits of `number`, highest first, without leading zeros.
pub open spec fn decimal_digits(number: nat) -> Seq<char>
    decreases number,
{
    if number < 10 {
        seq![digit_char(number)]
    } else {
        decimal_digits(number / 10).push(digit_char(number % 10))
    }
}

/// The decimal text of `number`, as `u32::to_string` writes it.
pub open spec fn decimal_text(number: u32) -> Seq<char> {
    decimal_digits(number as nat)
}

/// Calls `sha2::Digest::digest` for `Sha256`. The result is named
/// `sha256_digest`; it has 32 bytes.
#[verifier::external_body]
pub(crate) fn sha256(bytes: &Vec<u8>) -> (digest: Vec<u8>)
    ensures
        digest@ == sha256_digest(bytes@),
        digest@.len() == 32,
{
    <sha2::Sha256 as sha2::Digest>::digest(bytes).to_vec()
}

/// Calls `u32::to_string`, which writes the decimal digits of the number
/// without leading zeros: `decimal_text`.
#[verifier::external_body]
pub(crate) fn write_decimal_u32(number: u32) -> (text: String)
    ensures
        text@ == decimal_text(number),
{
    number.to_string()
}

/// The byte that the two hexadecimal digits `high` and `low` spell.
pub open spec fn hex_byte(high: u8, low: u8) -> Option<u8> {
    match (digit_value(high, 16), digit_value(low, 16)) {
        (Some(high), Some(low)) => Some((high * 16 + low) as u8),
        _ => None,
    }
}

/// The three bytes that six hexadecimal digits `text` spell, if `text` is
/// six hexadecimal digits.
pub open spec fn hex_triple(text: Seq<char>) -> Option<(u8, u8, u8)> {
    let bytes = narrow(text);
    if bytes.len() != 6 {
        None
    } else {
        match (hex_byte(bytes[0], bytes[1]), hex_byte(bytes[2], bytes[3]), hex_byte(
            bytes[4],
            bytes[5],
        )) {
            (Some(r), Some(g), Some(b)) => Some((r, g, b)),
            _ => None,
        }
    }
}

/// Calls `hex::FromHex::from_hex` for `[u8; 3]`, which reads six
/// hexadecimal digits of either case, two to a byte, and fails on any
/// other text: `hex_triple`.
#[verifier::external_body]
pub(crate) fn parse_hex_triple(text: &str) -> (bytes: Option<(u8, u8, u8)>)
    ensures
        bytes == hex_triple(text@),
{
    <[u8; 3] as hex::FromHex>::from_hex(text).ok().map(|rgb| (rgb[0], rgb[1], rgb[2]))
}

} // verus!
