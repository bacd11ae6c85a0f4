//! Bytes as hexadecimal digits.
use crate::bytes::utf8;
use vstd::prelude::*;

verus! {

/// The digit of a value below sixteen, in lower case.
pub open spec fn hex_digit(n: int) -> char {
    if n < 10 {
        (0x30 + n) as char
    } else {
        (0x57 + n) as char
    }
}

/// The digits of bytes, two for each, the high one first, in lower case.
pub open spec fn hex_text(bytes: Seq<u8>) -> Seq<char> {
    Seq::new(
        2 * bytes.len(),
        |i: int|
            if i % 2 == 0 {
                hex_digit(bytes[i / 2] as int / 16)
            } else {
                hex_digit(bytes[i / 2] as int % 16)
            },
    )
}

/// The value of the ASCII code of a digit, in lower or upper case.
pub open spec fn hex_value(b: u8) -> Option<int> {
    if 0x30 <= b <= 0x39 {
        Some(b - 0x30)
    } else if 0x41 <= b <= 0x46 {
        Some(b - 0x37)
    } else if 0x61 <= b <= 0x66 {
        Some(b - 0x57)
    } else {
        None
    }
}

/// What is wrong with a text that does not write bytes.
#[derive(Clone, Copy, PartialEq, Eq, Structural, Debug)]
pub enum HexError {
    /// A byte of the text is no digit.
    InvalidHexCharacter { c: char, index: usize },
    /// The text has an odd number of bytes.
    OddLength,
    /// The text has the wrong length.
    InvalidStringLength,
}

/// The bytes that digits write, which are given by their ASCII codes.
pub open spec fn hex_bytes(digits: Seq<u8>) -> Seq<u8> {
    Seq::new(
        digits.len() / 2,
        |i: int| (16 * hex_value(digits[2 * i])->0 + hex_value(digits[2 * i + 1])->0) as u8,
    )
}

/// Whether all codes are those of digits.
pub open spec fn all_digits(digits: Seq<u8>) -> bool {
    forall|i: int| 0 <= i < digits.len() ==> hex_value(#[trigger] digits[i]) is Some
}

/// Whether reading digits gives a result: the bytes, or the first thing that is wrong.
pub open spec fn hex_reads(digits: Seq<u8>, r: Result<Seq<u8>, HexError>) -> bool {
    if digits.len() % 2 != 0 {
        r == Err::<Seq<u8>, HexError>(HexError::OddLength)
    } else if all_digits(digits) {
        r == Ok::<Seq<u8>, HexError>(hex_bytes(digits))
    } else {
        r matches Err(HexError::InvalidHexCharacter { c, index }) && index < digits.len()
            && hex_value(digits[index as int]) is None && c == digits[index as int] as char && (
        forall|i: int| 0 <= i < index ==> hex_value(#[trigger] digits[i]) is Some)
    }
}

/// The model of a result that holds bytes.
pub open spec fn bytes_result(r: Result<Vec<u8>, HexError>) -> Result<Seq<u8>, HexError> {
    match r {
        Ok(bytes) => Ok(bytes@),
        Err(e) => Err(e),
    }
}

/// `hex::encode` gives two lower-case digits for each byte, the high one first.
#[verifier::external_body]
pub(crate) fn encode(bytes: &[u8]) -> (r: String)
    ensures
        r@ == hex_text(bytes@),
{
    hex::encode(bytes)
}

/// `hex::decode` reads the bytes of a text as pairs of digits in either case. It
/// fails on an odd number of them, else on the first that is no digit.
#[verifier::external_body]
pub(crate) fn decode(s: &str) -> (r: Result<Vec<u8>, HexError>)
    ensures
        hex_reads(utf8(s@), bytes_result(r)),
{
    hex::decode(s).map_err(
        |e|
            match e {
                hex::FromHexError::InvalidHexCharacter { c, index } => HexError::InvalidHexCharacter {
                    c,
                    index,
                },
                hex::FromHexError::OddLength => HexError::OddLength,
                hex::FromHexError::InvalidStringLength => HexError::InvalidStringLength,
            },
    )
}

/// The display of `hex::FromHexError` puts an error in words. Nothing is known of the words.
#[verifier::external_body]
pub(crate) fn describe(e: HexError) -> (r: String) {
    match e {
        HexError::InvalidHexCharacter { c, index } => hex::FromHexError::InvalidHexCharacter {
            c,
            index,
        },
        HexError::OddLength => hex::FromHexError::OddLength,
        HexError::InvalidStringLength => hex::FromHexError::InvalidStringLength,
    }.to_string()
}

/// What hexadecimal digits read, whatever their number or kind.
pub open spec fn hex_decoded(s: Seq<char>) -> Option<Seq<u8>> {
    let digits = utf8(s);
    if digits.len() % 2 == 0 && all_digits(digits) {
        Some(hex_bytes(digits))
    } else {
        None
    }
}

/// The bytes that a text writes, if it does.
pub(crate) fn decode_opt(s: &str) -> (r: Option<Vec<u8>>)
    ensures
        match hex_decoded(s@) {
            Some(bytes) => r is Some && r->0@ == bytes,
            None => r is None,
        },
{
    match decode(s) {
        Ok(bytes) => Some(bytes),
        Err(_) => None,
    }
}

/// The digits that bytes are written with are ASCII and read back as the bytes.
pub proof fn lemma_hex_round_trip(bytes: Seq<u8>)
    ensures
        hex_decoded(hex_text(bytes)) == Some(bytes),
        utf8(hex_text(bytes)).len() == 2 * bytes.len(),
{
    let s = hex_text(bytes);
    assert forall|i: int| 0 <= i < s.len() implies 0x30 <= (#[trigger] s[i]) as int <= 0x66 by {
        let b = bytes[i / 2];
        assert(0 <= b as int / 16 < 16);
    }
    assert(vstd::utf8::is_ascii_chars(s));
    vstd::utf8::is_ascii_chars_encode_utf8(s);
    let digits = utf8(s);
    assert forall|i: int| 0 <= i < digits.len() implies hex_value(#[trigger] digits[i]) is Some by {
        let b = bytes[i / 2];
        assert(digits[i] == s[i] as u8);
        assert(0 <= b as int / 16 < 16);
    }
    assert forall|i: int| 0 <= i < bytes.len() implies #[trigger] hex_bytes(digits)[i]
        == bytes[i] by {
        let b = bytes[i];
        assert(digits[2 * i] == s[2 * i] as u8);
        assert(digits[2 * i + 1] == s[2 * i + 1] as u8);
        assert((2 * i) / 2 == i && (2 * i + 1) / 2 == i);
        assert(0 <= b as int / 16 < 16);
        assert(hex_value(digits[2 * i]) == Some(b as int / 16));
        assert(hex_value(digits[2 * i + 1]) == Some(b as int % 16));
    }
    assert(hex_bytes(digits) =~= bytes);
}

/// No digit is a colon.
pub proof fn lemma_hex_no_colon(bytes: Seq<u8>)
    ensures
        !hex_text(bytes).contains(':'),
{
    let s = hex_text(bytes);
    assert forall|i: int| 0 <= i < s.len() implies s[i] != ':' by {
        let b = bytes[i / 2];
        assert(0 <= b as int / 16 < 16);
    }
}

/// The first five bytes of an identifier as hexadecimal digits.
pub open spec fn short_text(id: Seq<u8>) -> Seq<char> {
    hex_text(id.take(5))
}

/// The first five bytes of an identifier as hexadecimal digits.
pub fn short(id: &[u8; 32]) -> (r: String)
    ensures
        r@ == short_text(id@),
{
    let mut head: Vec<u8> = Vec::new();
    let mut i: usize = 0;
    assert(head@ =~= id@.take(0));
    while i < 5
        invariant
            i <= 5,
            id@.len() == 32,
            head@ == id@.take(i as int),
        decreases 5 - i,
    {
        head.push(id[i]);
        assert(head@ =~= id@.take(i + 1));
        i += 1;
    }
    encode(head.as_slice())
}

} // verus!
