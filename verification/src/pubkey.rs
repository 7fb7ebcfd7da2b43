//! A public key given as hexadecimal text.
use vstd::prelude::*;
use vstd::utf8::encode_utf8;

verus! {

/// Why a text is no hexadecimal number of whole bytes.
#[derive(Clone, Copy, Debug)]
pub enum HexError {
    InvalidHexCharacter { c: char, index: usize },
    OddLength,
    InvalidStringLength,
}

/// The value of a hexadecimal digit, in either case.
pub open spec fn hex_digit(c: u8) -> Option<int> {
    if 48 <= c <= 57 {
        Some(c - 48)
    } else if 65 <= c <= 70 {
        Some(c - 55)
    } else if 97 <= c <= 102 {
        Some(c - 87)
    } else {
        None
    }
}

/// The bytes that a text of hexadecimal digits stands for, two digits to a byte.
pub open spec fn hex_bytes(text: Seq<u8>) -> Seq<u8> {
    Seq::new(
        text.len() / 2,
        |i: int| (16 * hex_digit(text[2 * i])->0 + hex_digit(text[2 * i + 1])->0) as u8,
    )
}

/// Whether `decoded` is what the text stands for or the reason why it stands for nothing: that
/// its length is odd, or else the first character that is no digit.
pub open spec fn is_hex_decoding(text: Seq<u8>, decoded: Result<Vec<u8>, HexError>) -> bool {
    match decoded {
        Ok(bytes) => {
            &&& text.len() % 2 == 0
            &&& forall|i: int| 0 <= i < text.len() ==> hex_digit(#[trigger] text[i]) is Some
            &&& bytes@ == hex_bytes(text)
        },
        Err(HexError::OddLength) => text.len() % 2 == 1,
        Err(HexError::InvalidHexCharacter { c, index }) => {
            &&& text.len() % 2 == 0
            &&& index < text.len()
            &&& hex_digit(text[index as int]) is None
            &&& c == text[index as int] as char
            &&& forall|i: int| 0 <= i < index ==> hex_digit(#[trigger] text[i]) is Some
        },
        Err(HexError::InvalidStringLength) => false,
    }
}

/// Calls `hex::decode`: the bytes that the digits stand for, or else that the length is odd or
/// which character is the first that is no digit.
#[verifier::external_body]
fn hex_decode(text: &[u8]) -> (decoded: Result<Vec<u8>, HexError>)
    ensures
        is_hex_decoding(text@, decoded),
{
    match hex::decode(text) {
        Ok(bytes) => Ok(bytes),
        Err(hex::FromHexError::InvalidHexCharacter { c, index }) => Err(
            HexError::InvalidHexCharacter { c, index },
        ),
        Err(hex::FromHexError::OddLength) => Err(HexError::OddLength),
        Err(hex::FromHexError::InvalidStringLength) => Err(HexError::InvalidStringLength),
    }
}

/// A text without the marks `0x` that it starts with, however many.
pub open spec fn without_marks(text: Seq<u8>) -> Seq<u8>
    decreases text.len(),
{
    if text.len() >= 2 && text[0] == 48 && text[1] == 120 {
        without_marks(text.skip(2))
    } else {
        text
    }
}

/// The bytes of a public key given in hexadecimal, with or without a leading `0x`.
pub fn decode_pubkey(hex_str: &str) -> (decoded: Result<Vec<u8>, HexError>)
    ensures
        is_hex_decoding(without_marks(encode_utf8(hex_str@)), decoded),
{
    let text = hex_str.as_bytes();
    let mut start: usize = 0;
    proof {
        assert(text@.skip(0) =~= text@);
    }
    while text.len() - start >= 2 && text[start] == 48 && text[start + 1] == 120
        invariant
            start <= text@.len(),
            without_marks(text@) == without_marks(text@.skip(start as int)),
        decreases text@.len() - start,
    {
        proof {
            assert(text@.skip(start as int).skip(2) =~= text@.skip(start + 2));
        }
        start = start + 2;
    }
    proof {
        assert(text@.skip(start as int) =~= text@.subrange(start as int, text@.len() as int));
    }
    hex_decode(vstd::slice::slice_subrange(text, start, text.len()))
}

/// The mark `0x` may be left out.
pub proof fn law_mark_is_optional(text: Seq<u8>)
    ensures
        without_marks(seq![48u8, 120u8] + text) == without_marks(text),
{
    let marked = seq![48u8, 120u8] + text;
    assert(marked.skip(2) =~= text);
}

/// What a text stands for, or why it stands for nothing, is determined.
pub proof fn law_hex_decoding_is_unique(
    text: Seq<u8>,
    a: Result<Vec<u8>, HexError>,
    b: Result<Vec<u8>, HexError>,
)
    requires
        is_hex_decoding(text, a),
        is_hex_decoding(text, b),
    ensures
        match (a, b) {
            (Ok(x), Ok(y)) => x@ == y@,
            (Err(x), Err(y)) => x == y,
            _ => false,
        },
{
    if let Err(HexError::InvalidHexCharacter { c, index }) = a {
        assert(hex_digit(text[index as int]) is None);
    }
    if let Err(HexError::InvalidHexCharacter { c, index }) = b {
        assert(hex_digit(text[index as int]) is None);
    }
}

/// The digits are those of the decimal numbers and the letters from a to f in either case, worth
/// ten to fifteen.
pub proof fn law_hex_digits(c: u8)
    ensures
        hex_digit(c) matches Some(d) ==> 0 <= d < 16 && (c == 48 + d && d < 10 || d >= 10 && (c
            == 65 + (d - 10) || c == 97 + (d - 10))),
        hex_digit(c) is None ==> !(48 <= c < 58) && !(65 <= c < 71) && !(97 <= c < 103),
{
}

/// A key whose text has no mark in front is decoded two digits to a byte, if it is made of pairs
/// of digits. Else it is refused: for its odd length, or for the first character that is no
/// digit.
pub proof fn law_key_without_mark(hex_str: &str, decoded: Result<Vec<u8>, HexError>)
    requires
        call_ensures(decode_pubkey, (hex_str,), decoded),
        ({
            let text = encode_utf8(hex_str@);
            !(text.len() >= 2 && text[0] == 48 && text[1] == 120)
        }),
    ensures
        ({
            let text = encode_utf8(hex_str@);
            let digits = forall|i: int|
                0 <= i < text.len() ==> hex_digit(#[trigger] text[i]) is Some;
            &&& decoded is Ok <==> text.len() % 2 == 0 && digits
            &&& decoded matches Ok(bytes) ==> text.len() == 2 * bytes@.len() && forall|i: int|
                0 <= i < bytes@.len() ==> #[trigger] bytes@[i] == 16 * hex_digit(text[2 * i])->0
                    + hex_digit(text[2 * i + 1])->0
            &&& decoded == Err::<Vec<u8>, _>(HexError::OddLength) <==> text.len() % 2 == 1
            &&& decoded matches Err(HexError::InvalidHexCharacter { c, index }) ==> {
                &&& index < text.len()
                &&& c == text[index as int] as char
                &&& hex_digit(text[index as int]) is None
                &&& forall|i: int| 0 <= i < index ==> hex_digit(#[trigger] text[i]) is Some
            }
            &&& decoded != Err::<Vec<u8>, _>(HexError::InvalidStringLength)
        }),
{
    let text = encode_utf8(hex_str@);
    if let Ok(bytes) = decoded {
        assert forall|i: int| 0 <= i < bytes@.len() implies #[trigger] bytes@[i] == 16
            * hex_digit(text[2 * i])->0 + hex_digit(text[2 * i + 1])->0 by {
            assert(hex_digit(text[2 * i]) is Some);
            assert(hex_digit(text[2 * i + 1]) is Some);
        }
    }
}

/// A key with a mark in front is decoded, or refused, as the key without it.
pub proof fn law_key_with_mark(
    marked: &str,
    plain: &str,
    a: Result<Vec<u8>, HexError>,
    b: Result<Vec<u8>, HexError>,
)
    requires
        encode_utf8(marked@) == seq![48u8, 120u8] + encode_utf8(plain@),
        call_ensures(decode_pubkey, (marked,), a),
        call_ensures(decode_pubkey, (plain,), b),
    ensures
        a is Ok <==> b is Ok,
        a is Ok ==> a->Ok_0@ == b->Ok_0@,
        a is Err ==> a->Err_0 == b->Err_0,
{
    law_mark_is_optional(encode_utf8(plain@));
    law_hex_decoding_is_unique(without_marks(encode_utf8(plain@)), a, b);
}

} // verus!
