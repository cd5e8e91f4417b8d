//! One segment of a requested path: undoing its percent-encoding, and the
//! rules on what it may hold.
use crate::path::SEPARATOR;
use crate::text::{chars_of, string_from_utf8};
use vstd::prelude::*;
use vstd::string::StringSliceAdditionalSpecFns;
use vstd::utf8::{
    char_is_scalar, char_u32_cast, decode_utf8, encode_scalar, encode_utf8,
    encode_utf8_decode_utf8, encode_utf8_valid_utf8, valid_utf8,
};

verus! {

/// Why a segment is refused.
#[derive(Clone, Copy, Debug, PartialEq, Eq, Structural)]
pub enum SegmentError {
    /// What the percent-encoding stands for is no valid UTF-8.
    InvalidEncoding,
    /// The segment holds `..` inside a longer text.
    IllegalCharacterSequence,
    /// The segment starts with `*`.
    IllegalLeadingCharacter,
    /// The segment ends with `:`, `>` or `<`.
    IllegalTrailingCharacter,
    /// The segment holds a separator of paths.
    IllegalCharacter,
}

/// What a decoded segment asks for.
#[derive(Clone, Copy, Debug, PartialEq, Eq, Structural)]
pub enum SegmentCheck {
    /// The segment is a name to go down by.
    Accept,
    /// The segment is `..`: go up by one name.
    Parent,
    /// The segment is refused.
    Reject(SegmentError),
}

/// The byte `%`, which starts an escape.
pub const PERCENT: u8 = 0x25;

/// A byte that is a digit to base 16: `0` to `9`, `a` to `f` or `A` to `F`.
pub open spec fn is_hex_digit(byte: u8) -> bool {
    ||| 0x30 <= byte <= 0x39
    ||| 0x41 <= byte <= 0x46
    ||| 0x61 <= byte <= 0x66
}

/// The number that a digit to base 16 stands for.
pub open spec fn hex_value(byte: u8) -> int {
    if byte <= 0x39 {
        byte - 0x30
    } else if byte <= 0x46 {
        byte - 0x41 + 10
    } else {
        byte - 0x61 + 10
    }
}

/// The bytes start with an escape: `%` and two digits to base 16.
pub open spec fn starts_with_escape(bytes: Seq<u8>) -> bool {
    bytes.len() >= 3 && bytes[0] == PERCENT && is_hex_digit(bytes[1]) && is_hex_digit(bytes[2])
}

/// The bytes with each escape replaced by the byte that its two digits
/// give, read from the left. A `%` that starts no escape stays.
pub open spec fn percent_decoded(bytes: Seq<u8>) -> Seq<u8>
    decreases bytes.len(),
{
    if bytes.len() == 0 {
        Seq::empty()
    } else if starts_with_escape(bytes) {
        seq![(16 * hex_value(bytes[1]) + hex_value(bytes[2])) as u8] + percent_decoded(
            bytes.skip(3),
        )
    } else {
        seq![bytes[0]] + percent_decoded(bytes.skip(1))
    }
}

/// The text that a raw segment stands for: its bytes in UTF-8 with the
/// escapes undone, read as UTF-8 again. None where they are no valid UTF-8.
pub open spec fn decoded_segment(raw: Seq<char>) -> Option<Seq<char>> {
    let bytes = percent_decoded(encode_utf8(raw));
    if valid_utf8(bytes) {
        Some(decode_utf8(bytes))
    } else {
        None
    }
}

/// Bytes without a `%` hold no escape: decoding leaves them as they are.
pub proof fn lemma_percent_decoded_plain(bytes: Seq<u8>)
    requires
        !bytes.contains(PERCENT),
    ensures
        percent_decoded(bytes) == bytes,
    decreases bytes.len(),
{
    if bytes.len() > 0 {
        assert(bytes.contains(bytes[0]));
        let rest = bytes.skip(1);
        assert forall|i: int| 0 <= i < rest.len() implies rest[i] != PERCENT by {
            assert(bytes.contains(bytes[i + 1]));
        }
        lemma_percent_decoded_plain(rest);
        assert(seq![bytes[0]] + rest == bytes);
    }
}

/// The bytes that encode a scalar value other than that of `%` in UTF-8
/// are all other than `%`: one byte for a value up to 0x7F, else a leading
/// byte from 0xC0 on and continuation bytes from 0x80 on.
proof fn lemma_scalar_bytes(scalar: u32)
    by (bit_vector)
    requires
        scalar != 0x25,
    ensures
        scalar <= 0x7F ==> (scalar & 0x7F) as u8 != 0x25u8,
        0xC0u8 | ((scalar >> 6) & 0x1F) as u8 != 0x25u8,
        0xE0u8 | ((scalar >> 12) & 0x0F) as u8 != 0x25u8,
        0xF0u8 | ((scalar >> 18) & 0x7) as u8 != 0x25u8,
        0x80u8 | (scalar & 0x3F) as u8 != 0x25u8,
        0x80u8 | ((scalar >> 6) & 0x3F) as u8 != 0x25u8,
        0x80u8 | ((scalar >> 12) & 0x3F) as u8 != 0x25u8,
{
}

/// A text without `%` has no `%` among the bytes that encode it in UTF-8.
pub proof fn lemma_encoded_plain(text: Seq<char>)
    requires
        !text.contains('%'),
    ensures
        !encode_utf8(text).contains(PERCENT),
    decreases text.len(),
{
    if text.len() > 0 {
        let rest = text.drop_first();
        assert forall|i: int| 0 <= i < rest.len() implies rest[i] != '%' by {
            assert(text.contains(text[i + 1]));
        }
        lemma_encoded_plain(rest);
        assert(text.contains(text[0]));
        let scalar = text[0] as u32;
        char_is_scalar(text[0]);
        if scalar == 0x25 {
            char_u32_cast(text[0], scalar);
            char_u32_cast('%', scalar);
        }
        lemma_scalar_bytes(scalar);
        let first = encode_scalar(scalar);
        let bytes = encode_utf8(text);
        assert(bytes == first + encode_utf8(rest));
        assert forall|i: int| 0 <= i < bytes.len() implies bytes[i] != PERCENT by {
            if i < first.len() {
                assert(bytes[i] == first[i]);
            } else {
                assert(encode_utf8(rest).contains(bytes[i]));
            }
        }
    }
}

/// A text without `%` stands for itself.
pub proof fn lemma_decoded_plain_text(text: Seq<char>)
    requires
        !text.contains('%'),
    ensures
        decoded_segment(text) == Some(text),
{
    lemma_encoded_plain(text);
    lemma_percent_decoded_plain(encode_utf8(text));
    encode_utf8_valid_utf8(text);
    encode_utf8_decode_utf8(text);
}

/// The text holds two dots side by side.
pub open spec fn holds_dot_dot(text: Seq<char>) -> bool {
    exists|i: int| 0 <= i && i + 1 < text.len() && #[trigger] text[i] == '.' && text[i + 1] == '.'
}

/// What a decoded segment asks for. The first rule that applies decides:
/// `..` alone asks for the parent; `..` inside a longer text, `*` at the
/// start, `:`, `>` or `<` at the end, and a separator anywhere are refused.
/// The backslash counts as a separator where `backslash_separates`.
pub open spec fn segment_check(text: Seq<char>, backslash_separates: bool) -> SegmentCheck {
    if text == seq!['.', '.'] {
        SegmentCheck::Parent
    } else if holds_dot_dot(text) {
        SegmentCheck::Reject(SegmentError::IllegalCharacterSequence)
    } else if text.len() > 0 && text[0] == '*' {
        SegmentCheck::Reject(SegmentError::IllegalLeadingCharacter)
    } else if text.len() > 0 && (text.last() == ':' || text.last() == '>' || text.last() == '<') {
        SegmentCheck::Reject(SegmentError::IllegalTrailingCharacter)
    } else if text.contains(SEPARATOR) {
        SegmentCheck::Reject(SegmentError::IllegalCharacter)
    } else if backslash_separates && text.contains('\\') {
        SegmentCheck::Reject(SegmentError::IllegalCharacter)
    } else {
        SegmentCheck::Accept
    }
}

/// The number that `byte` stands for as a digit to base 16, if it is one.
fn hex_digit(byte: u8) -> (value: Option<u8>)
    ensures
        value is Some <==> is_hex_digit(byte),
        value matches Some(v) ==> v == hex_value(byte),
{
    if 0x30 <= byte && byte <= 0x39 {
        Some(byte - 0x30)
    } else if 0x41 <= byte && byte <= 0x46 {
        Some(byte - 0x41 + 10)
    } else if 0x61 <= byte && byte <= 0x66 {
        Some(byte - 0x61 + 10)
    } else {
        None
    }
}

/// The byte that the escape at `bytes[at..]` stands for, if one starts
/// there.
fn escape_at(bytes: &[u8], at: usize) -> (value: Option<u8>)
    requires
        at < bytes.len(),
    ensures
        value is Some <==> starts_with_escape(bytes@.skip(at as int)),
        value matches Some(v) ==> v == (16 * hex_value(bytes@[at + 1]) + hex_value(
            bytes@[at + 2],
        )) as u8,
{
    if bytes[at] != PERCENT || bytes.len() - at < 3 {
        return None;
    }
    match (hex_digit(bytes[at + 1]), hex_digit(bytes[at + 2])) {
        (Some(high), Some(low)) => Some(16 * high + low),
        _ => None,
    }
}

/// The bytes with each escape replaced by the byte that it stands for.
pub fn percent_decode_bytes(bytes: &[u8]) -> (decoded: Vec<u8>)
    ensures
        decoded@ == percent_decoded(bytes@),
{
    let mut decoded: Vec<u8> = Vec::new();
    let mut at: usize = 0;
    assert(bytes@.skip(0) == bytes@);
    assert(decoded@ + percent_decoded(bytes@) == percent_decoded(bytes@));
    while at < bytes.len()
        invariant
            at <= bytes.len(),
            percent_decoded(bytes@) == decoded@ + percent_decoded(bytes@.skip(at as int)),
        decreases bytes.len() - at,
    {
        let ghost rest = bytes@.skip(at as int);
        let ghost done = decoded@;
        match escape_at(bytes, at) {
            Some(value) => {
                decoded.push(value);
                assert(rest.skip(3) == bytes@.skip(at + 3));
                at += 3;
                assert(done + (seq![value] + percent_decoded(rest.skip(3))) == done.push(value)
                    + percent_decoded(rest.skip(3)));
            },
            None => {
                decoded.push(bytes[at]);
                assert(rest.skip(1) == bytes@.skip(at + 1));
                at += 1;
                assert(done + (seq![rest[0]] + percent_decoded(rest.skip(1))) == done.push(rest[0])
                    + percent_decoded(rest.skip(1)));
            },
        }
    }
    assert(bytes@.skip(bytes@.len() as int) == Seq::<u8>::empty());
    decoded
}

/// The text that a raw segment stands for, with its percent-encoding
/// undone.
pub fn percent_decode(raw: &str) -> (decoded: Result<String, SegmentError>)
    ensures
        match decoded_segment(raw@) {
            Some(text) => decoded matches Ok(found) && found@ == text,
            None => decoded == Err::<String, SegmentError>(SegmentError::InvalidEncoding),
        },
{
    let bytes = percent_decode_bytes(raw.as_bytes());
    match string_from_utf8(bytes) {
        Some(text) => Ok(text),
        None => Err(SegmentError::InvalidEncoding),
    }
}

/// Whether two dots stand side by side in `chars`.
fn has_dot_dot(chars: &Vec<char>) -> (found: bool)
    ensures
        found == holds_dot_dot(chars@),
{
    let mut i: usize = 1;
    while i < chars.len()
        invariant
            1 <= i,
            forall|j: int| 0 <= j && j + 1 < i && j + 1 < chars.len() ==> !(#[trigger] chars@[j] == '.'
                && chars@[j + 1] == '.'),
        decreases chars.len() - i,
    {
        if chars[i - 1] == '.' && chars[i] == '.' {
            assert(chars@[i - 1] == '.' && chars@[i - 1 + 1] == '.');
            return true;
        }
        i += 1;
    }
    false
}

/// Whether `wanted` occurs in `chars`.
fn has_char(chars: &Vec<char>, wanted: char) -> (found: bool)
    ensures
        found == chars@.contains(wanted),
{
    let mut i: usize = 0;
    while i < chars.len()
        invariant
            i <= chars.len(),
            forall|j: int| 0 <= j < i ==> chars@[j] != wanted,
        decreases chars.len() - i,
    {
        if chars[i] == wanted {
            return true;
        }
        i += 1;
    }
    false
}

/// What a decoded segment asks for.
pub fn validate_segment(decoded: &str, backslash_separates: bool) -> (check: SegmentCheck)
    ensures
        check == segment_check(decoded@, backslash_separates),
{
    let chars = chars_of(decoded);
    let len = chars.len();
    if len == 2 && chars[0] == '.' && chars[1] == '.' {
        assert(chars@ == seq!['.', '.']);
        SegmentCheck::Parent
    } else if has_dot_dot(&chars) {
        SegmentCheck::Reject(SegmentError::IllegalCharacterSequence)
    } else if len > 0 && chars[0] == '*' {
        SegmentCheck::Reject(SegmentError::IllegalLeadingCharacter)
    } else if len > 0 && (chars[len - 1] == ':' || chars[len - 1] == '>' || chars[len - 1] == '<') {
        SegmentCheck::Reject(SegmentError::IllegalTrailingCharacter)
    } else if has_char(&chars, SEPARATOR) {
        SegmentCheck::Reject(SegmentError::IllegalCharacter)
    } else if backslash_separates && has_char(&chars, '\\') {
        SegmentCheck::Reject(SegmentError::IllegalCharacter)
    } else {
        SegmentCheck::Accept
    }
}

} // verus!
