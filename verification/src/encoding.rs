//! Facts about UTF-8 byte sequences that the span operations rest on.

use vstd::prelude::*;
use vstd::utf8::*;

verus! {

/// Whether `start..end` is a window of `bytes` that cuts no character.
pub open spec fn is_window(bytes: Seq<u8>, start: int, end: int) -> bool {
    &&& valid_utf8(bytes)
    &&& 0 <= start <= end <= bytes.len()
    &&& is_char_boundary(bytes, start)
    &&& is_char_boundary(bytes, end)
}

/// Whether `bytes` may be cut at `index` without cutting a character: the
/// index is the start or the end, or the byte there does not continue a
/// character.
pub open spec fn is_cut_point(bytes: Seq<u8>, index: int) -> bool {
    &&& 0 <= index <= bytes.len()
    &&& 0 < index < bytes.len() ==> !is_continuation_byte(bytes[index])
}

/// In valid UTF-8 the cut points are the character boundaries.
pub proof fn lemma_cut_point_is_boundary(bytes: Seq<u8>, index: int)
    requires
        valid_utf8(bytes),
    ensures
        is_cut_point(bytes, index) == is_char_boundary(bytes, index),
{
    if 0 < index < bytes.len() {
        is_char_boundary_iff_not_is_continuation_byte(bytes, index);
    } else if index == bytes.len() {
        is_char_boundary_start_end_of_seq(bytes);
    }
}

/// A prefix that ends on a character boundary keeps the boundaries inside it.
pub proof fn lemma_boundary_in_prefix(bytes: Seq<u8>, i: int, end: int)
    requires
        is_window(bytes, 0, end),
        0 <= i <= end,
    ensures
        valid_utf8(bytes.subrange(0, end)),
        is_char_boundary(bytes.subrange(0, end), i) == is_char_boundary(bytes, i),
{
    valid_utf8_split(bytes, end);
    let head = bytes.subrange(0, end);
    if i == end {
        is_char_boundary_start_end_of_seq(head);
    } else {
        is_char_boundary_iff_not_is_continuation_byte(bytes, i);
        is_char_boundary_iff_not_is_continuation_byte(head, i);
    }
}

/// A window is valid UTF-8 by itself.
pub proof fn lemma_window_valid(bytes: Seq<u8>, start: int, end: int)
    requires
        is_window(bytes, start, end),
    ensures
        valid_utf8(bytes.subrange(start, end)),
{
    lemma_boundary_in_prefix(bytes, start, end);
    let head = bytes.subrange(0, end);
    valid_utf8_split(head, start);
    assert(head.subrange(start, head.len() as int) =~= bytes.subrange(start, end));
}

/// A position inside a window is a character boundary of the window exactly
/// when it is one of the whole sequence.
pub proof fn lemma_boundary_in_window(bytes: Seq<u8>, start: int, end: int, i: int)
    requires
        is_window(bytes, start, end),
        0 <= i <= end - start,
    ensures
        is_char_boundary(bytes.subrange(start, end), i) == is_char_boundary(bytes, start + i),
{
    lemma_window_valid(bytes, start, end);
    let window = bytes.subrange(start, end);
    if i == end - start {
        is_char_boundary_start_end_of_seq(window);
    } else {
        is_char_boundary_iff_not_is_continuation_byte(bytes, start + i);
        is_char_boundary_iff_not_is_continuation_byte(window, i);
    }
}

/// Where one valid sequence ends and the next begins is a character boundary
/// of the two joined.
pub proof fn lemma_joint_is_boundary(left: Seq<u8>, right: Seq<u8>)
    requires
        valid_utf8(left),
        valid_utf8(right),
    ensures
        valid_utf8(left + right),
        is_char_boundary(left + right, left.len() as int),
{
    valid_utf8_concat(left, right);
    let whole = left + right;
    if right.len() == 0 {
        is_char_boundary_start_end_of_seq(whole);
    } else {
        is_char_boundary_start_end_of_seq(right);
        is_char_boundary_iff_not_is_continuation_byte(right, 0);
        is_char_boundary_iff_not_is_continuation_byte(whole, left.len() as int);
    }
}

/// Decoding two valid sequences joined gives the two decodings joined.
pub proof fn lemma_decode_concat(left: Seq<u8>, right: Seq<u8>)
    requires
        valid_utf8(left),
        valid_utf8(right),
    ensures
        valid_utf8(left + right),
        decode_utf8(left + right) == decode_utf8(left) + decode_utf8(right),
{
    lemma_joint_is_boundary(left, right);
    let whole = left + right;
    let mid = left.len() as int;
    decode_utf8_split(whole, mid);
    assert(whole.subrange(0, mid) =~= left);
    assert(whole.subrange(mid, whole.len() as int) =~= right);
}

/// Encoding two texts joined gives the two encodings joined.
pub proof fn lemma_encode_concat(left: Seq<char>, right: Seq<char>)
    ensures
        encode_utf8(left + right) == encode_utf8(left) + encode_utf8(right),
{
    let l = encode_utf8(left);
    let r = encode_utf8(right);
    encode_utf8_valid_utf8(left);
    encode_utf8_valid_utf8(right);
    lemma_decode_concat(l, r);
    encode_utf8_decode_utf8(left);
    encode_utf8_decode_utf8(right);
    decode_utf8_encode_utf8(l + r);
}

/// A valid sequence decodes to no characters exactly when it has no bytes.
pub proof fn lemma_decode_empty(bytes: Seq<u8>)
    requires
        valid_utf8(bytes),
    ensures
        (decode_utf8(bytes).len() == 0) == (bytes.len() == 0),
{
    if bytes.len() != 0 {
        let first = seq![decode_first_scalar(bytes) as char];
        assert(decode_utf8(bytes) == first + decode_utf8(pop_first_scalar(bytes)));
        assert(first.len() == 1);
    }
}

/// Whether every character is an ASCII decimal digit.
pub open spec fn all_ascii_digits(chars: Seq<char>) -> bool {
    forall|i: int| 0 <= i < chars.len() ==> '0' <= #[trigger] chars[i] <= '9'
}

/// Whether every byte is the code of an ASCII decimal digit.
pub open spec fn all_digit_bytes(bytes: Seq<u8>) -> bool {
    forall|i: int| 0 <= i < bytes.len() ==> 0x30 <= #[trigger] bytes[i] <= 0x39
}

/// The range of the first byte of a scalar's encoding, by its width.
pub proof fn lemma_leading_byte_range(scalar: u32)
    requires
        is_scalar(scalar),
    ensures
        encode_scalar(scalar).len() >= 1,
        has_width_1_encoding(scalar) ==> encode_scalar(scalar)[0] <= 0x7F,
        has_width_2_encoding(scalar) ==> 0xC0 <= encode_scalar(scalar)[0] <= 0xDF,
        has_width_3_encoding(scalar) ==> 0xE0 <= encode_scalar(scalar)[0] <= 0xEF,
        has_width_4_encoding(scalar) ==> 0xF0 <= encode_scalar(scalar)[0] <= 0xF7,
{
    let b1 = leading_byte_width_1(scalar);
    let b2 = leading_byte_width_2(scalar);
    let b3 = leading_byte_width_3(scalar);
    let b4 = leading_byte_width_4(scalar);
    assert(b1 <= 0x7F) by (bit_vector)
        requires
            b1 == (scalar & 0x7F) as u8,
    ;
    assert(0xC0 <= b2 <= 0xDF) by (bit_vector)
        requires
            b2 == 0xC0 | ((scalar >> 6) & 0x1F) as u8,
    ;
    assert(0xE0 <= b3 <= 0xEF) by (bit_vector)
        requires
            b3 == 0xE0 | ((scalar >> 12) & 0x0F) as u8,
    ;
    assert(0xF0 <= b4 <= 0xF7) by (bit_vector)
        requires
            b4 == 0xF0 | ((scalar >> 18) & 0x7) as u8,
    ;
}

/// A text whose encoding holds only bytes below 0x80 is ASCII.
pub proof fn lemma_low_bytes_are_ascii(chars: Seq<char>)
    requires
        forall|i: int| 0 <= i < encode_utf8(chars).len() ==> #[trigger] encode_utf8(chars)[i] < 0x80,
    ensures
        is_ascii_chars(chars),
    decreases chars.len(),
{
    if chars.len() > 0 {
        let first = chars[0] as u32;
        let rest = chars.drop_first();
        let bytes = encode_utf8(chars);
        let head = encode_scalar(first);
        let tail = encode_utf8(rest);
        assert(bytes == head + tail);
        assert(head.len() >= 1);
        assert(bytes[0] == head[0]);
        char_is_scalar(chars[0]);
        lemma_leading_byte_range(first);
        assert(encode_utf8(chars)[0] < 0x80);
        assert(first <= 0x7F);
        assert forall|i: int| 0 <= i < tail.len() implies #[trigger] tail[i] < 0x80 by {
            assert(bytes[head.len() + i] == tail[i]);
        }
        lemma_low_bytes_are_ascii(rest);
        assert forall|i: int| 0 <= i < chars.len() implies '\0' <= #[trigger] chars[i]
            <= '\u{7f}' by {
            if i > 0 {
                assert(chars[i] == rest[i - 1]);
            } else {
                assert(chars[0] as u32 <= 0x7F);
                char_u32_cast(chars[0], first);
                assert(first as char == chars[0]);
                assert(first as char <= '\u{7f}');
            }
        }
    }
}

/// A text is all ASCII digits exactly when its encoding is all digit bytes.
pub proof fn lemma_digits_by_bytes(chars: Seq<char>)
    ensures
        all_ascii_digits(chars) == all_digit_bytes(encode_utf8(chars)),
{
    let bytes = encode_utf8(chars);
    if all_ascii_digits(chars) {
        assert(is_ascii_chars(chars));
        is_ascii_chars_encode_utf8(chars);
        assert forall|i: int| 0 <= i < bytes.len() implies 0x30 <= #[trigger] bytes[i]
            <= 0x39 by {
            assert('0' <= chars[i] <= '9');
            assert(chars[i] as u8 == bytes[i]);
        }
    }
    if all_digit_bytes(bytes) {
        assert forall|i: int| 0 <= i < bytes.len() implies #[trigger] bytes[i] < 0x80 by {
            assert(0x30 <= bytes[i] <= 0x39);
        }
        lemma_low_bytes_are_ascii(chars);
        is_ascii_chars_encode_utf8(chars);
        assert forall|i: int| 0 <= i < chars.len() implies '0' <= #[trigger] chars[i]
            <= '9' by {
            assert(chars[i] as u8 == bytes[i]);
            assert(0x30 <= bytes[i] <= 0x39);
            assert('\0' <= chars[i] <= '\u{7f}');
        }
    }
}

} // verus!
