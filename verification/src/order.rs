//! Equality and order of spans: by the visible text alone, never by the
//! buffer or the offsets.

use crate::charorder::lemma_encoding_keeps_order;
use crate::compare::{common_prefix_len, first_difference, lemma_common_prefix, same_bytes};
use crate::text::{lemma_visible_valid, Text};
use std::cmp::Ordering;
use std::hash::{Hash, Hasher};
use vstd::prelude::*;
use vstd::std_specs::cmp::{PartialEqSpecImpl, PartialOrdSpecImpl};
use vstd::string::*;
use vstd::utf8::*;

verus! {

/// The lexicographic order of two byte sequences: the first byte that
/// differs decides; where there is none, the shorter sequence comes first.
pub open spec fn lex_order(a: Seq<u8>, b: Seq<u8>) -> Ordering {
    let k = common_prefix_len(a, b);
    if k == a.len() {
        if k == b.len() {
            Ordering::Equal
        } else {
            Ordering::Less
        }
    } else if k == b.len() {
        Ordering::Greater
    } else if a[k] < b[k] {
        Ordering::Less
    } else {
        Ordering::Greater
    }
}

/// The lexicographic order of two texts: the first character that differs
/// decides; where there is none, the shorter text comes first.
pub open spec fn text_order(x: Seq<char>, y: Seq<char>) -> Ordering {
    let k = common_prefix_len(x, y);
    if k == x.len() {
        if k == y.len() {
            Ordering::Equal
        } else {
            Ordering::Less
        }
    } else if k == y.len() {
        Ordering::Greater
    } else if x[k] < y[k] {
        Ordering::Less
    } else {
        Ordering::Greater
    }
}

/// Two texts stand to each other as their UTF-8 encodings do.
pub proof fn lemma_order_by_characters(x: Seq<char>, y: Seq<char>)
    ensures
        lex_order(encode_utf8(x), encode_utf8(y)) == text_order(x, y),
{
    lemma_encoding_keeps_order(x, y);
    lemma_common_prefix(x, y);
    lemma_common_prefix(encode_utf8(x), encode_utf8(y));
}

/// Compares two byte strings lexicographically.
pub fn lex_compare(a: &[u8], b: &[u8]) -> (r: Ordering)
    ensures
        r == lex_order(a@, b@),
{
    proof {
        lemma_common_prefix(a@, b@);
    }
    let k = first_difference(a, b);
    if k == a.len() {
        if k == b.len() {
            Ordering::Equal
        } else {
            Ordering::Less
        }
    } else if k == b.len() {
        Ordering::Greater
    } else if a[k] < b[k] {
        Ordering::Less
    } else {
        Ordering::Greater
    }
}

impl Text {
    /// The order of two spans: lexicographic over the visible characters,
    /// which is also the lexicographic order of the visible bytes.
    pub fn cmp(&self, other: &Text) -> (r: Ordering)
        ensures
            r == text_order(self@, other@),
            r == lex_order(self.bytes(), other.bytes()),
    {
        proof {
            use_type_invariant(self);
            use_type_invariant(other);
            lemma_visible_valid(*self);
            lemma_visible_valid(*other);
            lemma_order_by_characters(self@, other@);
        }
        lex_compare(self.as_str().as_bytes(), other.as_str().as_bytes())
    }
}

impl PartialEq for Text {
    /// Whether the two spans show the same text.
    fn eq(&self, other: &Text) -> (b: bool) {
        proof {
            use_type_invariant(self);
            use_type_invariant(other);
            lemma_visible_valid(*self);
            lemma_visible_valid(*other);
        }
        same_bytes(self.as_str().as_bytes(), other.as_str().as_bytes())
    }
}

impl PartialEqSpecImpl for Text {
    open spec fn obeys_eq_spec() -> bool {
        true
    }

    open spec fn eq_spec(&self, other: &Text) -> bool {
        self@ == other@
    }
}

impl Eq for Text {}

impl PartialEq<str> for Text {
    /// Whether the span shows exactly `other`.
    fn eq(&self, other: &str) -> (b: bool) {
        proof {
            use_type_invariant(self);
            lemma_visible_valid(*self);
            encode_utf8_decode_utf8(other@);
        }
        same_bytes(self.as_str().as_bytes(), other.as_bytes())
    }
}

impl PartialEqSpecImpl<str> for Text {
    open spec fn obeys_eq_spec() -> bool {
        true
    }

    open spec fn eq_spec(&self, other: &str) -> bool {
        self@ == other@
    }
}

impl PartialEq<&str> for Text {
    /// Whether the span shows exactly `other`.
    fn eq(&self, other: &&str) -> (b: bool) {
        proof {
            use_type_invariant(self);
            lemma_visible_valid(*self);
            encode_utf8_decode_utf8(other@);
        }
        same_bytes(self.as_str().as_bytes(), other.as_bytes())
    }
}

impl PartialEqSpecImpl<&str> for Text {
    open spec fn obeys_eq_spec() -> bool {
        true
    }

    open spec fn eq_spec(&self, other: &&str) -> bool {
        self@ == other@
    }
}

/// Feeds `text` to `state`.
///
/// Wraps `<str as Hash>::hash`. Nothing is claimed of what the hasher makes
/// of the text.
#[verifier::external_body]
fn hash_str<H: Hasher>(text: &str, state: &mut H) {
    text.hash(state)
}

impl Hash for Text {
    /// Feeds the visible text to `state`, and nothing else: spans that show
    /// the same text hand over the same input.
    fn hash<H: Hasher>(&self, state: &mut H) {
        hash_str(self.as_str(), state)
    }
}

impl PartialOrd for Text {
    /// The order of the two spans, which is total: never `None`.
    fn partial_cmp(&self, other: &Text) -> (r: Option<Ordering>) {
        Some(self.cmp(other))
    }
}

impl PartialOrdSpecImpl for Text {
    open spec fn obeys_partial_cmp_spec() -> bool {
        true
    }

    open spec fn partial_cmp_spec(&self, other: &Text) -> Option<Ordering> {
        Some(text_order(self@, other@))
    }
}

} // verus!
