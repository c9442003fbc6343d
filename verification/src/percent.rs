//! Percent-decoding of path segments, query values and form values.
//!
//! A value is decoded on its UTF-8 bytes: `%` followed by two hexadecimal
//! digits stands for the byte they spell, every other byte for itself. The
//! decoded bytes must again be UTF-8.

use vstd::prelude::*;
use vstd::utf8::{
    char_is_scalar, char_u32_cast, decode_utf8, encode_scalar, encode_utf8,
    encode_utf8_decode_utf8, encode_utf8_valid_utf8, has_width_1_encoding, is_scalar,
    last_continuation_byte, leading_byte_width_1, leading_byte_width_2, leading_byte_width_3,
    leading_byte_width_4, second_last_continuation_byte, third_last_continuation_byte,
    valid_utf8,
};

verus! {

/// The value of a hexadecimal digit, in either case.
pub open spec fn hex_digit(b: u8) -> Option<u8> {
    if 0x30 <= b <= 0x39 {
        Some((b - 0x30) as u8)
    } else if 0x41 <= b <= 0x46 {
        Some((b - 0x41 + 10) as u8)
    } else if 0x61 <= b <= 0x66 {
        Some((b - 0x61 + 10) as u8)
    } else {
        None
    }
}

/// `bytes` with every well-formed escape replaced by the byte it spells. A `%`
/// that two hexadecimal digits do not follow stands for itself.
pub open spec fn unescaped(bytes: Seq<u8>) -> Seq<u8>
    decreases bytes.len(),
{
    if bytes.len() == 0 {
        bytes
    } else if bytes.len() >= 3 && bytes[0] == 0x25 && hex_digit(bytes[1]) is Some && hex_digit(
        bytes[2],
    ) is Some {
        seq![(hex_digit(bytes[1])->0 * 16 + hex_digit(bytes[2])->0) as u8] + unescaped(
            bytes.skip(3),
        )
    } else {
        seq![bytes[0]] + unescaped(bytes.skip(1))
    }
}

/// `bytes` with every `+` replaced by a space, as form encoding writes one.
pub open spec fn spaced(bytes: Seq<u8>) -> Seq<u8> {
    Seq::new(
        bytes.len(),
        |i: int|
            if bytes[i] == 0x2b {
                0x20u8
            } else {
                bytes[i]
            },
    )
}

/// The text that `bytes` encode, if they are UTF-8.
pub open spec fn utf8_text(bytes: Seq<u8>) -> Option<Seq<char>> {
    if valid_utf8(bytes) {
        Some(decode_utf8(bytes))
    } else {
        None
    }
}

/// A percent-encoded value decoded, or `None` where the result is no text.
pub open spec fn percent_decoded(raw: Seq<char>) -> Option<Seq<char>> {
    utf8_text(unescaped(encode_utf8(raw)))
}

/// A form-encoded value decoded: `+` is a space, then as `percent_decoded`.
pub open spec fn form_decoded(raw: Seq<char>) -> Option<Seq<char>> {
    utf8_text(unescaped(spaced(encode_utf8(raw))))
}

/// A byte below `0x80` stands in the encoding of a scalar only as the whole
/// encoding of the scalar of that value.
proof fn lemma_low_byte_of_scalar(scalar: u32, i: int)
    requires
        is_scalar(scalar),
        0 <= i < encode_scalar(scalar).len(),
        encode_scalar(scalar)[i] < 0x80,
    ensures
        scalar == encode_scalar(scalar)[i],
{
    let byte = encode_scalar(scalar)[i];
    if has_width_1_encoding(scalar) {
        assert(leading_byte_width_1(scalar) == scalar) by (bit_vector)
            requires
                scalar <= 0x7F,
        ;
    } else {
        assert(leading_byte_width_2(scalar) >= 0x80) by (bit_vector);
        assert(leading_byte_width_3(scalar) >= 0x80) by (bit_vector);
        assert(leading_byte_width_4(scalar) >= 0x80) by (bit_vector);
        assert(last_continuation_byte(scalar) >= 0x80) by (bit_vector);
        assert(second_last_continuation_byte(scalar) >= 0x80) by (bit_vector);
        assert(third_last_continuation_byte(scalar) >= 0x80) by (bit_vector);
    }
}

/// A text without `%` has no `%` among its bytes.
proof fn lemma_bytes_lack_percent(text: Seq<char>)
    requires
        !text.contains('%'),
    ensures
        !encode_utf8(text).contains(0x25u8),
    decreases text.len(),
{
    if text.len() > 0 {
        let first = encode_scalar(text[0] as u32);
        let rest = text.drop_first();
        assert forall|i: int| 0 <= i < rest.len() implies rest[i] != '%' by {
            assert(rest[i] == text[i + 1]);
        }
        lemma_bytes_lack_percent(rest);
        let bytes = encode_utf8(text);
        assert(bytes == first + encode_utf8(rest));
        assert forall|i: int| 0 <= i < bytes.len() implies bytes[i] != 0x25u8 by {
            if i < first.len() {
                if first[i] == 0x25u8 {
                    char_is_scalar(text[0]);
                    lemma_low_byte_of_scalar(text[0] as u32, i);
                    char_u32_cast(text[0], 0x25u32);
                    assert(text[0] == '%');
                }
            } else {
                assert(bytes[i] == encode_utf8(rest)[i - first.len()]);
            }
        }
    }
}

/// Bytes without `%` hold no escape.
proof fn lemma_unescaped_plain(bytes: Seq<u8>)
    requires
        !bytes.contains(0x25u8),
    ensures
        unescaped(bytes) == bytes,
    decreases bytes.len(),
{
    if bytes.len() > 0 {
        let rest = bytes.skip(1);
        assert forall|i: int| 0 <= i < rest.len() implies rest[i] != 0x25u8 by {
            assert(rest[i] == bytes[i + 1]);
        }
        lemma_unescaped_plain(rest);
        assert(bytes[0] != 0x25u8);
        assert(seq![bytes[0]] + rest == bytes);
    }
}

/// A text without `%` decodes to itself.
pub proof fn lemma_plain_text_decodes_to_itself(text: Seq<char>)
    requires
        !text.contains('%'),
    ensures
        percent_decoded(text) == Some(text),
{
    lemma_bytes_lack_percent(text);
    lemma_unescaped_plain(encode_utf8(text));
    encode_utf8_valid_utf8(text);
    encode_utf8_decode_utf8(text);
}

/// Turns bytes into a string with `String::from_utf8`, which fails exactly
/// when the bytes are not valid UTF-8 and otherwise keeps them as they are.
#[verifier::external_body]
pub(crate) fn text_from_utf8(bytes: Vec<u8>) -> (r: Option<String>)
    ensures
        r is Some <==> valid_utf8(bytes@),
        r matches Some(s) ==> s@ == decode_utf8(bytes@),
{
    String::from_utf8(bytes).ok()
}

fn hex_value(b: u8) -> (r: Option<u8>)
    ensures
        r == hex_digit(b),
        r matches Some(d) ==> d < 16,
{
    if 0x30 <= b && b <= 0x39 {
        Some(b - 0x30)
    } else if 0x41 <= b && b <= 0x46 {
        Some(b - 0x41 + 10)
    } else if 0x61 <= b && b <= 0x66 {
        Some(b - 0x61 + 10)
    } else {
        None
    }
}

fn unescape(bytes: &[u8]) -> (out: Vec<u8>)
    ensures
        out@ == unescaped(bytes@),
{
    let mut out: Vec<u8> = Vec::new();
    let mut i: usize = 0;
    assert(bytes@.skip(0) == bytes@);
    assert(out@ + unescaped(bytes@) == unescaped(bytes@));
    while i < bytes.len()
        invariant
            i <= bytes.len(),
            out@ + unescaped(bytes@.skip(i as int)) == unescaped(bytes@),
        decreases bytes.len() - i,
    {
        let ghost rest = bytes@.skip(i as int);
        let ghost done = out@;
        assert(rest[0] == bytes[i as int]);
        let mut escape: Option<u8> = None;
        if bytes[i] == 0x25 && bytes.len() - i >= 3 {
            assert(rest[1] == bytes[i + 1] && rest[2] == bytes[i + 2]);
            match (hex_value(bytes[i + 1]), hex_value(bytes[i + 2])) {
                (Some(high), Some(low)) => {
                    escape = Some(high * 16 + low);
                },
                _ => {},
            }
        }
        match escape {
            Some(byte) => {
                out.push(byte);
                assert(rest.skip(3) == bytes@.skip(i + 3));
                assert(out@ + unescaped(rest.skip(3)) == done + unescaped(rest));
                i = i + 3;
            },
            None => {
                out.push(bytes[i]);
                assert(rest.skip(1) == bytes@.skip(i + 1));
                assert(out@ + unescaped(rest.skip(1)) == done + unescaped(rest));
                i = i + 1;
            },
        }
    }
    assert(bytes@.skip(bytes@.len() as int).len() == 0);
    assert(out@ + Seq::<u8>::empty() == out@);
    out
}

fn plus_to_space(bytes: &[u8]) -> (out: Vec<u8>)
    ensures
        out@ == spaced(bytes@),
{
    let mut out: Vec<u8> = Vec::new();
    let mut i: usize = 0;
    while i < bytes.len()
        invariant
            i <= bytes.len(),
            out@ == spaced(bytes@).take(i as int),
        decreases bytes.len() - i,
    {
        let b: u8 = if bytes[i] == 0x2b {
            0x20
        } else {
            bytes[i]
        };
        out.push(b);
        i = i + 1;
        assert(out@ == spaced(bytes@).take(i as int));
    }
    assert(spaced(bytes@).take(bytes@.len() as int) == spaced(bytes@));
    out
}

/// Decodes a percent-encoded path segment or query value.
pub fn percent_decode(raw: &str) -> (r: Option<String>)
    ensures
        r is Some <==> percent_decoded(raw@) is Some,
        r matches Some(s) ==> percent_decoded(raw@) == Some(s@),
{
    text_from_utf8(unescape(raw.as_bytes()))
}

/// Decodes a form-encoded value.
pub fn form_decode(raw: &str) -> (r: Option<String>)
    ensures
        r is Some <==> form_decoded(raw@) is Some,
        r matches Some(s) ==> form_decoded(raw@) == Some(s@),
{
    let replaced = plus_to_space(raw.as_bytes());
    text_from_utf8(unescape(replaced.as_slice()))
}

} // verus!
