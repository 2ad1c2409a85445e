//! Text and the bytes that stand for it in a file: UTF-8.

use crate::error::IoError;
use crate::record::{survives, CR, LF};
use vstd::prelude::*;
use vstd::string::*;
use vstd::utf8::*;

verus! {

/// The text that `bytes` stand for, or the error for bytes that are no text.
pub open spec fn decode(bytes: Seq<u8>) -> Result<Seq<char>, IoError> {
    if valid_utf8(bytes) {
        Ok(decode_utf8(bytes))
    } else {
        Err(IoError::invalid_text())
    }
}

/// The text of each line of `lines`, each of them valid UTF-8.
pub open spec fn decode_all(lines: Seq<Seq<u8>>) -> Seq<Seq<char>> {
    lines.map_values(|line: Seq<u8>| decode_utf8(line))
}

/// The bytes of each line of `lines`.
pub open spec fn encode_all(lines: Seq<Seq<char>>) -> Seq<Seq<u8>> {
    lines.map_values(|line: Seq<char>| encode_utf8(line))
}

/// A line of text that comes back as it was written: it holds no line feed
/// and does not end in a carriage return.
pub open spec fn is_plain_line(line: Seq<char>) -> bool {
    &&& !line.contains('\n')
    &&& line.len() > 0 ==> line.last() != '\r'
}

/// `core::str::Utf8Error`, which says where bytes stop being UTF-8. Nothing
/// here looks into it.
#[verifier::external_type_specification]
#[verifier::external_body]
pub struct ExUtf8Error(core::str::Utf8Error);

/// `core::str::from_utf8` succeeds on the bytes that are valid UTF-8 and on no
/// others, and the string slice that it then gives is made of those bytes.
pub assume_specification[ core::str::from_utf8 ](bytes: &[u8]) -> (text: Result<
    &str,
    core::str::Utf8Error,
>)
    ensures
        text is Ok <==> valid_utf8(bytes@),
        text matches Ok(s) ==> s.spec_bytes() == bytes@,
;

/// Reads `bytes` as text.
pub fn decode_text(bytes: &[u8]) -> (text: Result<String, IoError>)
    ensures
        match decode(bytes@) {
            Ok(chars) => text matches Ok(s) && s@ == chars,
            Err(error) => text == Err::<String, IoError>(error),
        },
{
    match core::str::from_utf8(bytes) {
        Ok(s) => {
            proof {
                encode_utf8_decode_utf8(s@);
            }
            Ok(s.to_owned())
        },
        Err(_) => Err(IoError::invalid_text()),
    }
}

/// The bytes that stand for `text`.
pub fn encode_text(text: &str) -> (bytes: Vec<u8>)
    ensures
        bytes@ == encode_utf8(text@),
{
    text.as_bytes_vec()
}

proof fn lemma_narrow_scalar_bytes(scalar: u32, byte: u8)
    by (bit_vector)
    requires
        scalar <= 0x7f,
        scalar != byte as u32,
    ensures
        leading_byte_width_1(scalar) != byte,
{
}

proof fn lemma_wide_scalar_bytes(scalar: u32, byte: u8)
    by (bit_vector)
    requires
        byte < 0x80,
    ensures
        leading_byte_width_2(scalar) != byte,
        leading_byte_width_3(scalar) != byte,
        leading_byte_width_4(scalar) != byte,
        last_continuation_byte(scalar) != byte,
        second_last_continuation_byte(scalar) != byte,
        third_last_continuation_byte(scalar) != byte,
{
}

/// Among the bytes of one character, a byte below 0x80 occurs only as the
/// character itself.
pub proof fn lemma_scalar_bytes(c: char, byte: u8)
    requires
        byte < 0x80,
        c as u32 != byte as u32,
    ensures
        !encode_scalar(c as u32).contains(byte),
        encode_scalar(c as u32).len() > 0,
{
    let scalar = c as u32;
    char_is_scalar(c);
    if has_width_1_encoding(scalar) {
        lemma_narrow_scalar_bytes(scalar, byte);
    } else {
        lemma_wide_scalar_bytes(scalar, byte);
    }
}

/// The bytes of two texts, one after the other, are the bytes of the texts
/// joined.
pub proof fn lemma_encode_concat(a: Seq<char>, b: Seq<char>)
    ensures
        encode_utf8(a + b) == encode_utf8(a) + encode_utf8(b),
    decreases a.len(),
{
    if a.len() == 0 {
        assert(a + b =~= b);
        assert(encode_utf8(a) + encode_utf8(b) =~= encode_utf8(b));
    } else {
        assert((a + b).drop_first() =~= a.drop_first() + b);
        lemma_encode_concat(a.drop_first(), b);
        assert(encode_utf8(a + b) =~= encode_utf8(a) + encode_utf8(b));
    }
}

/// The bytes of a text hold a byte below 0x80 only where the text holds that
/// character.
pub proof fn lemma_encode_lacks(text: Seq<char>, byte: u8)
    requires
        byte < 0x80,
        forall|i: int| 0 <= i < text.len() ==> text[i] as u32 != byte as u32,
    ensures
        !encode_utf8(text).contains(byte),
    decreases text.len(),
{
    if text.len() > 0 {
        lemma_scalar_bytes(text[0], byte);
        lemma_encode_lacks(text.drop_first(), byte);
        let head = encode_scalar(text[0] as u32);
        let tail = encode_utf8(text.drop_first());
        assert forall|i: int| 0 <= i < (head + tail).len() implies (head + tail)[i] != byte by {
            if i < head.len() {
                assert(head.contains(head[i]));
            } else {
                assert(tail.contains(tail[i - head.len()]));
            }
        }
    }
}

/// The bytes of a plain line survive as a record.
pub proof fn lemma_plain_line_survives(line: Seq<char>)
    requires
        is_plain_line(line),
    ensures
        survives(encode_utf8(line)),
{
    assert forall|i: int| 0 <= i < line.len() implies line[i] as u32 != LF as u32 by {
        if line[i] as u32 == LF as u32 {
            char_u32_cast(line[i], 0x0a);
            assert(line.contains('\n'));
        }
    }
    lemma_encode_lacks(line, LF);
    if line.len() > 0 {
        let front = line.drop_last();
        let last = line.last();
        assert(line =~= front + seq![last]);
        lemma_encode_concat(front, seq![last]);
        assert(encode_utf8(seq![last]) =~= encode_scalar(last as u32)) by {
            assert(seq![last].drop_first() =~= Seq::<char>::empty());
            reveal_with_fuel(encode_utf8, 2);
        }
        if last as u32 == CR as u32 {
            char_u32_cast(last, 0x0d);
        }
        lemma_scalar_bytes(last, CR);
        let tail = encode_scalar(last as u32);
        assert(encode_utf8(line).last() == tail.last());
        assert(tail.contains(tail.last()));
    }
}

} // verus!
