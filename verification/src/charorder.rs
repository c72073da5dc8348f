//! UTF-8 keeps the order of texts: where two texts first differ, their
//! encodings first differ, and the differing bytes stand as the differing
//! characters do.

use crate::compare::{common_prefix_len, lemma_common_prefix, lemma_first_difference_is};
use crate::encoding::{lemma_encode_concat, lemma_leading_byte_range};
use vstd::prelude::*;
use vstd::utf8::*;

verus! {

/// Two different one-byte scalars: the bytes stand as the scalars do.
proof fn lemma_order_width_1(c: u32, d: u32)
    requires
        has_width_1_encoding(c),
        has_width_1_encoding(d),
        c != d,
    ensures
        leading_byte_width_1(c) != leading_byte_width_1(d),
        (leading_byte_width_1(c) < leading_byte_width_1(d)) == (c < d),
{
    let (lc, ld) = (leading_byte_width_1(c), leading_byte_width_1(d));
    assert(lc != ld && ((lc < ld) == (c < d))) by (bit_vector)
        requires
            lc == (c & 0x7F) as u8,
            ld == (d & 0x7F) as u8,
            c <= 0x7F,
            d <= 0x7F,
            c != d,
    ;
}

/// Two different two-byte scalars: the first bytes that differ stand as the
/// scalars do.
proof fn lemma_order_width_2(c: u32, d: u32)
    requires
        has_width_2_encoding(c),
        has_width_2_encoding(d),
        c != d,
    ensures
        ({
            let (lc, ld) = (leading_byte_width_2(c), leading_byte_width_2(d));
            let (tc, td) = (last_continuation_byte(c), last_continuation_byte(d));
            if lc != ld {
                (lc < ld) == (c < d)
            } else {
                tc != td && (tc < td) == (c < d)
            }
        }),
{
    let (lc, ld) = (leading_byte_width_2(c), leading_byte_width_2(d));
    let (tc, td) = (last_continuation_byte(c), last_continuation_byte(d));
    assert(if lc != ld {
        (lc < ld) == (c < d)
    } else {
        tc != td && (tc < td) == (c < d)
    }) by (bit_vector)
        requires
            lc == 0xC0 | ((c >> 6) & 0x1F) as u8,
            ld == 0xC0 | ((d >> 6) & 0x1F) as u8,
            tc == 0x80 | (c & 0x3F) as u8,
            td == 0x80 | (d & 0x3F) as u8,
            0x80 <= c <= 0x7FF,
            0x80 <= d <= 0x7FF,
            c != d,
    ;
}

/// Two different three-byte scalars: the first bytes that differ stand as
/// the scalars do.
proof fn lemma_order_width_3(c: u32, d: u32)
    requires
        has_width_3_encoding(c),
        has_width_3_encoding(d),
        c != d,
    ensures
        ({
            let (lc, ld) = (leading_byte_width_3(c), leading_byte_width_3(d));
            let (sc, sd) = (second_last_continuation_byte(c), second_last_continuation_byte(d));
            let (tc, td) = (last_continuation_byte(c), last_continuation_byte(d));
            if lc != ld {
                (lc < ld) == (c < d)
            } else if sc != sd {
                (sc < sd) == (c < d)
            } else {
                tc != td && (tc < td) == (c < d)
            }
        }),
{
    let (lc, ld) = (leading_byte_width_3(c), leading_byte_width_3(d));
    let (sc, sd) = (second_last_continuation_byte(c), second_last_continuation_byte(d));
    let (tc, td) = (last_continuation_byte(c), last_continuation_byte(d));
    assert(if lc != ld {
        (lc < ld) == (c < d)
    } else if sc != sd {
        (sc < sd) == (c < d)
    } else {
        tc != td && (tc < td) == (c < d)
    }) by (bit_vector)
        requires
            lc == 0xE0 | ((c >> 12) & 0x0F) as u8,
            ld == 0xE0 | ((d >> 12) & 0x0F) as u8,
            sc == 0x80 | ((c >> 6) & 0x3F) as u8,
            sd == 0x80 | ((d >> 6) & 0x3F) as u8,
            tc == 0x80 | (c & 0x3F) as u8,
            td == 0x80 | (d & 0x3F) as u8,
            0x800 <= c <= 0xFFFF,
            0x800 <= d <= 0xFFFF,
            c != d,
    ;
}

/// Two different four-byte scalars: the first bytes that differ stand as
/// the scalars do.
proof fn lemma_order_width_4(c: u32, d: u32)
    requires
        has_width_4_encoding(c),
        has_width_4_encoding(d),
        c != d,
    ensures
        ({
            let (lc, ld) = (leading_byte_width_4(c), leading_byte_width_4(d));
            let (rc, rd) = (third_last_continuation_byte(c), third_last_continuation_byte(d));
            let (sc, sd) = (second_last_continuation_byte(c), second_last_continuation_byte(d));
            let (tc, td) = (last_continuation_byte(c), last_continuation_byte(d));
            if lc != ld {
                (lc < ld) == (c < d)
            } else if rc != rd {
                (rc < rd) == (c < d)
            } else if sc != sd {
                (sc < sd) == (c < d)
            } else {
                tc != td && (tc < td) == (c < d)
            }
        }),
{
    let (lc, ld) = (leading_byte_width_4(c), leading_byte_width_4(d));
    let (rc, rd) = (third_last_continuation_byte(c), third_last_continuation_byte(d));
    let (sc, sd) = (second_last_continuation_byte(c), second_last_continuation_byte(d));
    let (tc, td) = (last_continuation_byte(c), last_continuation_byte(d));
    assert(if lc != ld {
        (lc < ld) == (c < d)
    } else if rc != rd {
        (rc < rd) == (c < d)
    } else if sc != sd {
        (sc < sd) == (c < d)
    } else {
        tc != td && (tc < td) == (c < d)
    }) by (bit_vector)
        requires
            lc == 0xF0 | ((c >> 18) & 0x7) as u8,
            ld == 0xF0 | ((d >> 18) & 0x7) as u8,
            rc == 0x80 | ((c >> 12) & 0x3F) as u8,
            rd == 0x80 | ((d >> 12) & 0x3F) as u8,
            sc == 0x80 | ((c >> 6) & 0x3F) as u8,
            sd == 0x80 | ((d >> 6) & 0x3F) as u8,
            tc == 0x80 | (c & 0x3F) as u8,
            td == 0x80 | (d & 0x3F) as u8,
            0x10000 <= c <= 0x10FFFF,
            0x10000 <= d <= 0x10FFFF,
            c != d,
    ;
}

/// The first position at which `u` and `v` differ is `m`, given that they
/// agree before `m` byte by byte and differ at `m`, for `m` up to 3.
proof fn lemma_differ_at(u: Seq<u8>, v: Seq<u8>, m: int)
    requires
        0 <= m <= 3,
        m < u.len(),
        m < v.len(),
        forall|i: int| 0 <= i < m ==> u[i] == v[i],
        u[m] != v[m],
    ensures
        common_prefix_len(u, v) == m,
{
    assert(u.subrange(0, m) =~= v.subrange(0, m));
    lemma_first_difference_is(u, v, m);
}

/// The encodings of two different scalars differ at a position that both
/// have, and the bytes there stand as the scalars do: neither encoding is a
/// prefix of the other.
pub proof fn lemma_scalar_order(c: u32, d: u32)
    requires
        is_scalar(c),
        is_scalar(d),
        c != d,
    ensures
        ({
            let (u, v) = (encode_scalar(c), encode_scalar(d));
            let m = common_prefix_len(u, v);
            &&& 0 <= m < u.len()
            &&& m < v.len()
            &&& u[m] != v[m]
            &&& (u[m] < v[m]) == (c < d)
        }),
{
    let (u, v) = (encode_scalar(c), encode_scalar(d));
    lemma_leading_byte_range(c);
    lemma_leading_byte_range(d);
    if has_width_1_encoding(c) && has_width_1_encoding(d) {
        lemma_order_width_1(c, d);
        lemma_differ_at(u, v, 0);
    } else if has_width_2_encoding(c) && has_width_2_encoding(d) {
        lemma_order_width_2(c, d);
        if u[0] != v[0] {
            lemma_differ_at(u, v, 0);
        } else {
            lemma_differ_at(u, v, 1);
        }
    } else if has_width_3_encoding(c) && has_width_3_encoding(d) {
        lemma_order_width_3(c, d);
        if u[0] != v[0] {
            lemma_differ_at(u, v, 0);
        } else if u[1] != v[1] {
            lemma_differ_at(u, v, 1);
        } else {
            lemma_differ_at(u, v, 2);
        }
    } else if has_width_4_encoding(c) && has_width_4_encoding(d) {
        lemma_order_width_4(c, d);
        if u[0] != v[0] {
            lemma_differ_at(u, v, 0);
        } else if u[1] != v[1] {
            lemma_differ_at(u, v, 1);
        } else if u[2] != v[2] {
            lemma_differ_at(u, v, 2);
        } else {
            lemma_differ_at(u, v, 3);
        }
    } else {
        lemma_differ_at(u, v, 0);
    }
}

/// A text that is not empty has an encoding that is not empty, and the
/// encoding starts with that of its first character.
proof fn lemma_encode_first(chars: Seq<char>)
    requires
        chars.len() > 0,
    ensures
        encode_utf8(chars) == encode_scalar(chars[0] as u32) + encode_utf8(chars.drop_first()),
        encode_scalar(chars[0] as u32).len() >= 1,
        encode_utf8(chars).len() >= 1,
{
    char_is_scalar(chars[0]);
    lemma_leading_byte_range(chars[0] as u32);
}

/// Where two texts first differ, their encodings first differ: one
/// encoding ends there exactly when its text does, and otherwise the bytes
/// there stand as the characters do.
pub proof fn lemma_encoding_keeps_order(x: Seq<char>, y: Seq<char>)
    ensures
        ({
            let k = common_prefix_len(x, y);
            let (a, b) = (encode_utf8(x), encode_utf8(y));
            let j = common_prefix_len(a, b);
            &&& 0 <= k <= x.len() && k <= y.len()
            &&& 0 <= j <= a.len() && j <= b.len()
            &&& (k == x.len()) == (j == a.len())
            &&& (k == y.len()) == (j == b.len())
            &&& k < x.len() && k < y.len() ==> (x[k] < y[k]) == (a[j] < b[j])
        }),
{
    let k = common_prefix_len(x, y);
    let (a, b) = (encode_utf8(x), encode_utf8(y));
    lemma_common_prefix(x, y);
    lemma_common_prefix(a, b);
    let shared = x.subrange(0, k);
    let (xs, ys) = (x.subrange(k, x.len() as int), y.subrange(k, y.len() as int));
    assert(x =~= shared + xs);
    assert(y =~= shared + ys);
    lemma_encode_concat(shared, xs);
    lemma_encode_concat(shared, ys);
    let head = encode_utf8(shared);
    let p = head.len() as int;
    let (ta, tb) = (encode_utf8(xs), encode_utf8(ys));
    assert(a.subrange(0, p) =~= head);
    assert(b.subrange(0, p) =~= head);
    if xs.len() == 0 && ys.len() == 0 {
        assert(x =~= y);
    } else if xs.len() == 0 {
        lemma_encode_first(ys);
        lemma_first_difference_is(a, b, p);
    } else if ys.len() == 0 {
        lemma_encode_first(xs);
        lemma_first_difference_is(a, b, p);
    } else {
        let (c, d) = (x[k] as u32, y[k] as u32);
        assert(xs[0] == x[k] && ys[0] == y[k]);
        char_is_scalar(x[k]);
        char_is_scalar(y[k]);
        char_u32_cast(x[k], c);
        char_u32_cast(y[k], d);
        lemma_encode_first(xs);
        lemma_encode_first(ys);
        lemma_scalar_order(c, d);
        let (u, v) = (encode_scalar(c), encode_scalar(d));
        let m = common_prefix_len(u, v);
        lemma_common_prefix(u, v);
        assert forall|i: int| 0 <= i < p + m implies a[i] == b[i] by {
            if i >= p {
                assert(a[i] == u[i - p]);
                assert(b[i] == v[i - p]);
                assert(u.subrange(0, m)[i - p] == v.subrange(0, m)[i - p]);
            } else {
                assert(a[i] == head[i] && b[i] == head[i]);
            }
        }
        assert(a.subrange(0, p + m) =~= b.subrange(0, p + m));
        assert(a[p + m] == u[m]);
        assert(b[p + m] == v[m]);
        lemma_first_difference_is(a, b, p + m);
        assert(((c as char) < (d as char)) == (c < d));
    }
}

} // verus!
