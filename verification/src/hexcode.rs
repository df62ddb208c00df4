//! Hexadecimal text for keys and digests.

use vstd::prelude::*;
use crate::digest::views;
use crate::wire::read_bytes32;

verus! {

/// The lower-case hexadecimal digit for a value below sixteen.
pub open spec fn hex_digit(n: u8) -> char {
    if n < 10 {
        (48 + n) as char
    } else {
        (87 + n) as char
    }
}

/// The value of a hexadecimal digit of either case, or -1 for any other
/// character.
pub open spec fn hex_value(c: char) -> int {
    if '0' <= c <= '9' {
        c as int - 48
    } else if 'a' <= c <= 'f' {
        c as int - 87
    } else if 'A' <= c <= 'F' {
        c as int - 55
    } else {
        -1
    }
}

/// Two lower-case digits per byte, high nibble first.
pub open spec fn hex_text(data: Seq<u8>) -> Seq<char> {
    Seq::new(
        2 * data.len(),
        |i: int|
            if i % 2 == 0 {
                hex_digit(data[i / 2] >> 4)
            } else {
                hex_digit(data[i / 2] & 0x0f)
            },
    )
}

/// Text that stands for a byte string: an even number of hexadecimal digits.
pub open spec fn is_hex_text(text: Seq<char>) -> bool {
    &&& text.len() % 2 == 0
    &&& forall|i: int| 0 <= i < text.len() ==> hex_value(#[trigger] text[i]) >= 0
}

/// The byte string that hexadecimal text stands for.
pub open spec fn hex_bytes(text: Seq<char>) -> Seq<u8> {
    Seq::new(
        (text.len() / 2) as nat,
        |i: int| (16 * hex_value(text[2 * i]) + hex_value(text[2 * i + 1])) as u8,
    )
}

#[verifier::external_type_specification]
#[verifier::external_body]
pub struct ExFromHexError(hex::FromHexError);

/// Writes bytes as text with `hex::encode`.
///
/// Trusted: the text holds two lower-case hexadecimal digits for each byte,
/// in order, the high nibble first.
#[verifier::external_body]
pub(crate) fn hex_encode(data: &[u8]) -> (text: String)
    ensures
        text@ == hex_text(data@),
{
    hex::encode(data)
}

/// Reads text as bytes with `hex::decode`.
///
/// Trusted: the call succeeds exactly on an even number of hexadecimal
/// digits, upper or lower case, and then yields one byte per pair of digits,
/// the first digit of a pair being the high nibble.
#[verifier::external_body]
pub(crate) fn hex_decode(text: &str) -> (r: Result<Vec<u8>, hex::FromHexError>)
    ensures
        r is Ok <==> is_hex_text(text@),
        r matches Ok(bytes) ==> bytes@ == hex_bytes(text@),
{
    hex::decode(text)
}

/// Text that stands for 32 bytes.
pub open spec fn is_digest_text(text: Seq<char>) -> bool {
    is_hex_text(text) && text.len() == 64
}

/// Writes bytes as hexadecimal text, two lower-case digits per byte.
pub fn to_hex(data: &[u8]) -> (text: String)
    ensures
        text@ == hex_text(data@),
{
    hex_encode(data)
}

/// Reads hexadecimal text of either case as bytes, or nothing if the text is
/// not an even number of hexadecimal digits.
pub fn from_hex(text: &str) -> (r: Option<Vec<u8>>)
    ensures
        r is Some <==> is_hex_text(text@),
        r matches Some(bytes) ==> bytes@ == hex_bytes(text@),
{
    match hex_decode(text) {
        Ok(bytes) => Some(bytes),
        Err(_) => None,
    }
}

/// Reads hexadecimal text as a 32-byte string, or nothing if the text does
/// not stand for exactly 32 bytes.
pub fn parse_bytes32(text: &str) -> (r: Option<[u8; 32]>)
    ensures
        r is Some <==> is_digest_text(text@),
        r matches Some(bytes) ==> bytes@ == hex_bytes(text@),
{
    match from_hex(text) {
        Some(bytes) => {
            if bytes.len() == 32 {
                let out = read_bytes32(bytes.as_slice(), 0);
                Some(out)
            } else {
                None
            }
        },
        None => None,
    }
}

/// The hexadecimal text of each digest of a list.
pub fn hex_list(digests: &Vec<[u8; 32]>) -> (texts: Vec<String>)
    ensures
        texts@.len() == digests@.len(),
        forall|i: int|
            0 <= i < texts@.len() ==> (#[trigger] texts@[i])@ == hex_text(views(digests@)[i]),
{
    let mut texts: Vec<String> = Vec::new();
    let mut i: usize = 0;
    while i < digests.len()
        invariant
            i <= digests@.len(),
            texts@.len() == i,
            forall|k: int| 0 <= k < i ==> (#[trigger] texts@[k])@ == hex_text(views(digests@)[k]),
        decreases digests@.len() - i,
    {
        texts.push(to_hex(&digests[i]));
        i = i + 1;
    }
    texts
}

/// Reads a list of digests from their hexadecimal text, or nothing if one of
/// the texts does not stand for exactly 32 bytes.
pub fn parse_digest_list(texts: &Vec<String>) -> (r: Option<Vec<[u8; 32]>>)
    ensures
        r is Some <==> (forall|i: int|
            0 <= i < texts@.len() ==> is_digest_text((#[trigger] texts@[i])@)),
        r matches Some(digests) ==> {
            &&& digests@.len() == texts@.len()
            &&& forall|i: int|
                0 <= i < texts@.len() ==> views(digests@)[i] == hex_bytes((#[trigger] texts@[i])@)
        },
{
    let mut digests: Vec<[u8; 32]> = Vec::new();
    let mut i: usize = 0;
    while i < texts.len()
        invariant
            i <= texts@.len(),
            digests@.len() == i,
            forall|k: int| 0 <= k < i ==> is_digest_text((#[trigger] texts@[k])@),
            forall|k: int| 0 <= k < i ==> views(digests@)[k] == hex_bytes((#[trigger] texts@[k])@),
        decreases texts@.len() - i,
    {
        match parse_bytes32(texts[i].as_str()) {
            Some(d) => {
                digests.push(d);
            },
            None => {
                return None;
            },
        }
        i = i + 1;
    }
    Some(digests)
}

proof fn lemma_nibbles(b: u8)
    ensures
        (b >> 4) < 16,
        (b & 0x0f) < 16,
        16 * (b >> 4) + (b & 0x0f) == b,
{
    assert((b & 0x0f) < 16) by (bit_vector);
    assert(16 * (b >> 4) + (b & 0x0f) == b) by (bit_vector);
}

/// Hexadecimal text written from bytes is always readable, and reads back as
/// the same bytes.
pub proof fn lemma_hex_round_trip(data: Seq<u8>)
    ensures
        is_hex_text(hex_text(data)),
        hex_bytes(hex_text(data)) == data,
        hex_text(data).len() == 2 * data.len(),
{
    let text = hex_text(data);
    assert forall|i: int| 0 <= i < text.len() implies hex_value(#[trigger] text[i]) >= 0 by {
        lemma_nibbles(data[i / 2]);
    }
    assert forall|i: int| 0 <= i < data.len() implies hex_bytes(text)[i] == data[i] by {
        lemma_nibbles(data[i]);
    }
}

/// Hexadecimal text written from bytes is plain ASCII.
pub proof fn lemma_hex_text_is_ascii(data: Seq<u8>)
    ensures
        vstd::utf8::is_ascii_chars(hex_text(data)),
{
    let text = hex_text(data);
    assert forall|i: int| 0 <= i < text.len() implies '\0' <= #[trigger] text[i] <= '\u{7f}' by {
        lemma_nibbles(data[i / 2]);
    }
}

} // verus!
