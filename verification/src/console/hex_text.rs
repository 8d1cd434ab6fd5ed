//! Bytes as hexadecimal text, and bytes as text for display.

use crate::common::scan::{is_white, trimmed, trimmed_back, trimmed_front};
use crate::common::text::dec;
use vstd::prelude::*;
use vstd::utf8::*;

verus! {

/// What is wrong with a hexadecimal text.
#[derive(Clone, Copy, Debug, PartialEq, Eq, Structural)]
pub enum HexError {
    /// Two digits make a byte.
    OddLength,
    /// The byte at this index is no digit.
    InvalidCharacter { c: char, index: usize },
}

/// The value of a hexadecimal digit, in upper or lower case.
pub open spec fn hex_value(c: u8) -> Option<u8> {
    if 0x30 <= c <= 0x39 {
        Some((c - 0x30) as u8)
    } else if 0x41 <= c <= 0x46 {
        Some((c - 0x41 + 10) as u8)
    } else if 0x61 <= c <= 0x66 {
        Some((c - 0x61 + 10) as u8)
    } else {
        None
    }
}

/// All bytes are hexadecimal digits.
pub open spec fn all_hex(s: Seq<u8>) -> bool {
    forall|i: int| 0 <= i < s.len() ==> hex_value(#[trigger] s[i]) is Some
}

/// The bytes that digits spell, the upper half of a byte first.
pub open spec fn hex_bytes(s: Seq<u8>) -> Seq<u8> {
    Seq::new(
        s.len() / 2,
        |i: int| (hex_value(s[2 * i])->0 * 16 + hex_value(s[2 * i + 1])->0) as u8,
    )
}

/// `e` tells what is wrong with `s`: its length, or else its first byte that is
/// no digit.
pub open spec fn hex_fault(s: Seq<u8>, e: HexError) -> bool {
    match e {
        HexError::OddLength => s.len() % 2 != 0,
        HexError::InvalidCharacter { c, index } => {
            &&& s.len() % 2 == 0
            &&& index < s.len()
            &&& hex_value(s[index as int]) is None
            &&& c as u32 == s[index as int] as u32
            &&& all_hex(s.take(index as int))
        },
    }
}

/// `hex::decode`: an even number of hexadecimal digits gives the bytes that they
/// spell. Otherwise the error is the odd length, or else the first byte that is
/// no digit, taken as a character, with its index. The error for buffers of a
/// wrong size does not occur.
#[verifier::external_body]
pub(crate) fn hex_decode(s: &[u8]) -> (r: Result<Vec<u8>, HexError>)
    ensures
        match r {
            Ok(bytes) => s@.len() % 2 == 0 && all_hex(s@) && bytes@ == hex_bytes(s@),
            Err(e) => hex_fault(s@, e),
        },
{
    hex::decode(s).map_err(|e| match e {
        hex::FromHexError::OddLength => HexError::OddLength,
        hex::FromHexError::InvalidHexCharacter { c, index } => HexError::InvalidCharacter {
            c,
            index,
        },
        hex::FromHexError::InvalidStringLength => HexError::OddLength,
    })
}

/// What `hex::FromHexError` shows of an invalid character, whose quoting is that
/// of the character's debug form.
pub uninterp spec fn invalid_character_text(c: char, index: usize) -> Seq<char>;

/// A character that its debug form shows as it is.
pub open spec fn shown_as_is(c: char) -> bool {
    0x20 <= c as u32 <= 0x7E && c != '\'' && c != '\\'
}

/// The text of a `hex::FromHexError`: a fixed one for the odd length; for an
/// invalid character its debug form and its index. Printable ASCII characters
/// other than the single quote and the backslash are shown between single
/// quotes; how others are escaped is not stated.
#[verifier::external_body]
pub(crate) fn hex_error_text(e: HexError) -> (s: String)
    ensures
        match e {
            HexError::OddLength => s@ == "Odd number of digits"@,
            HexError::InvalidCharacter { c, index } => {
                &&& s@ == invalid_character_text(c, index)
                &&& shown_as_is(c) ==> s@ == "Invalid character '"@ + seq![c]
                    + "' at position "@ + dec(index as nat)
            },
        },
{
    match e {
        HexError::OddLength => hex::FromHexError::OddLength.to_string(),
        HexError::InvalidCharacter { c, index } => {
            hex::FromHexError::InvalidHexCharacter { c, index }.to_string()
        },
    }
}

/// The lower-case hexadecimal digit of a value below 16.
pub open spec fn hex_digit(v: u8) -> char {
    if v < 10 {
        (0x30 + v) as char
    } else {
        (0x61 + v - 10) as char
    }
}

/// Bytes in lower-case hexadecimal, two digits for each.
pub open spec fn hex_text(bytes: Seq<u8>) -> Seq<char> {
    Seq::new(
        2 * bytes.len(),
        |i: int|
            hex_digit(
                if i % 2 == 0 {
                    bytes[i / 2] / 16
                } else {
                    bytes[i / 2] % 16
                },
            ),
    )
}

/// `hex::encode`: two lower-case digits for every byte, the upper half first.
#[verifier::external_body]
pub(crate) fn hex_encode(bytes: &[u8]) -> (s: String)
    ensures
        s@ == hex_text(bytes@),
{
    hex::encode(bytes)
}

/// What `String::from_utf8_lossy` makes of bytes.
pub uninterp spec fn lossy_text(bytes: Seq<u8>) -> Seq<char>;

/// `String::from_utf8_lossy`: bytes that are valid UTF-8 give their text. Others
/// give a text in which replacement characters stand for what is invalid; how
/// many is not stated.
#[verifier::external_body]
pub(crate) fn text_lossy(bytes: &[u8]) -> (s: String)
    ensures
        s@ == lossy_text(bytes@),
        valid_utf8(bytes@) ==> s@ == decode_utf8(bytes@),
{
    String::from_utf8_lossy(bytes).into_owned()
}

// ── Laws of hexadecimal text ─────────────────────────────────────
proof fn lemma_hex_digit(v: u8)
    requires
        v < 16,
    ensures
        (hex_digit(v) as u32) < 0x80,
        hex_value(hex_digit(v) as u8) == Some(v),
        !is_white(hex_digit(v)),
{
}

/// Bytes in hexadecimal are read back.
pub proof fn hexadecimal_reads_back(bytes: Seq<u8>)
    ensures
        ({
            let text = encode_utf8(trimmed(hex_text(bytes)));
            text.len() % 2 == 0 && all_hex(text) && hex_bytes(text) == bytes
        }),
{
    let h = hex_text(bytes);
    assert forall|i: int| 0 <= i < h.len() implies (#[trigger] h[i] as u32) < 0x80 && !is_white(
        h[i],
    ) by {
        let v = if i % 2 == 0 {
            bytes[i / 2] / 16
        } else {
            bytes[i / 2] % 16
        };
        lemma_hex_digit(v);
    }
    assert(trimmed_front(h) == h);
    assert(trimmed_back(h) == h);
    assert(is_ascii_chars(h));
    is_ascii_chars_encode_utf8(h);
    let text = encode_utf8(h);
    assert(text =~= Seq::new(h.len(), |i: int| h[i] as u8));
    assert forall|i: int| 0 <= i < text.len() implies hex_value(#[trigger] text[i]) is Some by {
        let v = if i % 2 == 0 {
            bytes[i / 2] / 16
        } else {
            bytes[i / 2] % 16
        };
        lemma_hex_digit(v);
    }
    assert(hex_bytes(text) =~= bytes) by {
        assert forall|i: int| 0 <= i < bytes.len() implies hex_bytes(text)[i] == bytes[i] by {
            lemma_hex_digit(bytes[i] / 16);
            lemma_hex_digit(bytes[i] % 16);
            assert((2 * i) / 2 == i && (2 * i) % 2 == 0);
            assert((2 * i + 1) / 2 == i && (2 * i + 1) % 2 == 1);
            assert(text[2 * i] == h[2 * i] as u8);
            assert(text[2 * i + 1] == h[2 * i + 1] as u8);
        }
    }
}

/// A hexadecimal digit is read in either case alike, and nothing but a digit is
/// read.
pub proof fn hexadecimal_is_read_in_either_case(c: u8)
    ensures
        0x41 <= c <= 0x46 ==> hex_value(c) == hex_value((c + 0x20) as u8) && hex_value(c) is Some,
        hex_value(c) matches Some(v) ==> v < 16,
        hex_value(c) is Some <==> 0x30 <= c <= 0x39 || 0x41 <= c <= 0x46 || 0x61 <= c <= 0x66,
{
}

/// A text of odd length is told to be one, whatever it holds. Of any other text
/// the first byte that is no digit is told, with its place.
pub proof fn first_wrong_digit_is_told(s: Seq<u8>, e: HexError, index: int)
    requires
        hex_fault(s, e),
    ensures
        s.len() % 2 != 0 ==> e is OddLength,
        s.len() % 2 == 0 && 0 <= index < s.len() && hex_value(s[index]) is None && (forall|k: int|
            0 <= k < index ==> hex_value(#[trigger] s[k]) is Some) ==> (
        e matches HexError::InvalidCharacter { c, index: i } && i == index && c as u32
            == s[index] as u32),
{
    if s.len() % 2 == 0 && 0 <= index < s.len() && hex_value(s[index]) is None && (forall|k: int|
        0 <= k < index ==> hex_value(#[trigger] s[k]) is Some) {
        if let HexError::InvalidCharacter { c, index: i } = e {
            if i > index {
                assert(s.take(i as int)[index] == s[index]);
            }
        }
    }
}

} // verus!
