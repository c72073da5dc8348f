//! What holds of spans in general, proved from the operations' contracts.

use crate::compare::lemma_common_prefix;
use crate::encoding::lemma_decode_concat;
use crate::order::{lemma_order_by_characters, lex_order, text_order};
use crate::text::{lemma_visible_valid, Text};
use std::cmp::Ordering;
use vstd::prelude::*;
use vstd::std_specs::cmp::{PartialEqSpec, PartialOrdSpec};
use vstd::utf8::*;

verus! {

/// Spans that show the same text are one value: they are equal, neither
/// comes before the other, and they show the same bytes, whatever buffers
/// and offsets they are made of.
pub proof fn law_same_text_same_value(x: Text, y: Text)
    requires
        x.wf(),
        y.wf(),
        x@ == y@,
    ensures
        x.eq_spec(&y),
        x.partial_cmp_spec(&y) == Some(Ordering::Equal),
        text_order(x@, y@) == Ordering::Equal,
        lex_order(x.bytes(), y.bytes()) == Ordering::Equal,
        x.bytes() == y.bytes(),
{
    lemma_visible_valid(x);
    lemma_visible_valid(y);
    lemma_common_prefix(x.bytes(), y.bytes());
    lemma_common_prefix(x@, y@);
}

/// Spans are equal exactly when they show the same bytes, and exactly then
/// the order calls them equal.
pub proof fn law_equality_is_by_bytes(x: Text, y: Text)
    requires
        x.wf(),
        y.wf(),
    ensures
        x.eq_spec(&y) == (x.bytes() == y.bytes()),
        x.eq_spec(&y) == (x.partial_cmp_spec(&y) == Some(Ordering::Equal)),
{
    lemma_visible_valid(x);
    lemma_visible_valid(y);
    lemma_common_prefix(x.bytes(), y.bytes());
    lemma_common_prefix(x@, y@);
}

/// The order of two spans is the lexicographic order of their visible
/// characters, and the lexicographic order of their visible bytes gives
/// the same answer.
pub proof fn law_order_is_by_characters(x: Text, y: Text)
    requires
        x.wf(),
        y.wf(),
    ensures
        x.partial_cmp_spec(&y) == Some(text_order(x@, y@)),
        text_order(x@, y@) == lex_order(x.bytes(), y.bytes()),
{
    lemma_visible_valid(x);
    lemma_visible_valid(y);
    lemma_order_by_characters(x@, y@);
}

/// Every span whose window has no length equals the canonical empty span
/// and shows no text.
pub proof fn law_empty_window_equals_default(x: Text, empty: Text)
    requires
        x.wf(),
        empty.wf(),
        empty.is_canonical_empty(),
        x.end_offset() == x.start_offset(),
    ensures
        x.eq_spec(&empty),
        x@.len() == 0,
        x.bytes().len() == 0,
{
    lemma_visible_valid(x);
    lemma_visible_valid(empty);
    assert(x.bytes() =~= empty.bytes());
}

/// A cut that is empty, reversed or runs past the window gives a span equal
/// to the empty span.
pub proof fn law_invalid_cut_is_empty(s: Text, cut: Text, empty: Text, start: int, end: int)
    requires
        s.wf(),
        cut.wf(),
        empty.wf(),
        empty.is_canonical_empty(),
        cut.is_cut_of(&s, start, end),
        end <= start || end > s.bytes().len(),
    ensures
        cut.is_canonical_empty(),
        cut.eq_spec(&empty),
        cut@.len() == 0,
{
    law_empty_window_equals_default(cut, empty);
}

/// A cut inside the window stays on the base span's buffer and within its
/// window: slicing adds no buffer.
pub proof fn law_cut_shares_buffer(s: Text, cut: Text, start: int, end: int)
    requires
        s.wf(),
        cut.is_cut_of(&s, start, end),
        0 <= start < end <= s.bytes().len(),
    ensures
        cut.buffer() == s.buffer(),
        s.start_offset() <= cut.start_offset() <= cut.end_offset() <= s.end_offset(),
        cut.bytes() == s.bytes().subrange(start, end),
{
    assert(cut.bytes() =~= s.bytes().subrange(start, end));
}

/// The three parts of a split around the match `from..to`, joined in order,
/// show the text of the span that was split; the first part is `from` bytes
/// long and the second `to - from`.
pub proof fn law_split_rebuilds(s: Text, parts: (Text, Text, Text), from: int, to: int)
    requires
        s.wf(),
        s.admits_match(from, to),
        s.is_split_by(parts, from, to),
    ensures
        parts.0.bytes() + parts.1.bytes() + parts.2.bytes() == s.bytes(),
        parts.0@ + parts.1@ + parts.2@ == s@,
        parts.0.bytes().len() == from,
        parts.1.bytes().len() == to - from,
        parts.2.bytes().len() == s.bytes().len() - to,
{
    let (before, matched, after) = parts;
    lemma_visible_valid(before);
    lemma_visible_valid(matched);
    lemma_visible_valid(after);
    assert(before.bytes() + matched.bytes() + after.bytes() =~= s.bytes());
    lemma_decode_concat(before.bytes(), matched.bytes());
    lemma_decode_concat(before.bytes() + matched.bytes(), after.bytes());
}

/// Joining with an empty span on either side changes nothing: the result
/// is one of the two operands as it stands, so no buffer is made, and it
/// equals the other operand.
pub proof fn law_concat_identity(x: Text, empty: Text, sum: Text)
    requires
        x.wf(),
        empty.wf(),
        empty.bytes().len() == 0,
        sum.is_sum_of(&x, &empty) || sum.is_sum_of(&empty, &x),
    ensures
        sum == x || sum == empty,
        sum.eq_spec(&x),
        sum@ == x@,
        sum.bytes() == x.bytes(),
{
    assert(x.bytes() =~= empty.bytes() || x.bytes().len() != 0);
}

} // verus!
