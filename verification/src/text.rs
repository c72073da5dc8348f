//! The span itself.

use crate::buffer::{shared_copy, Str};
use crate::encoding::{
    all_ascii_digits, all_digit_bytes, is_cut_point, is_window, lemma_boundary_in_prefix,
    lemma_boundary_in_window, lemma_cut_point_is_boundary, lemma_decode_concat,
    lemma_decode_empty, lemma_digits_by_bytes, lemma_encode_concat, lemma_window_valid,
};
use crate::pattern::{find_first, first_match};
use lazy_regex::Regex;
use std::ops::Deref;
use vstd::prelude::*;
use vstd::string::*;
use vstd::utf8::*;

verus! {

/// A read-only window `start..end`, in bytes, into a backing buffer.
pub struct Text {
    buf: Str,
    start: usize,
    end: usize,
}

impl Text {
    /// The whole backing buffer, as bytes.
    pub closed spec fn buffer(&self) -> Seq<u8> {
        self.buf.bytes()
    }

    /// Whether the backing buffer is static text.
    pub closed spec fn is_static(&self) -> bool {
        self.buf.is_static()
    }

    /// Where the window starts in the buffer.
    pub closed spec fn start_offset(&self) -> int {
        self.start as int
    }

    /// Where the window ends in the buffer.
    pub closed spec fn end_offset(&self) -> int {
        self.end as int
    }

    /// The window lies inside the buffer and cuts no character.
    #[verifier::type_invariant]
    pub open spec fn wf(&self) -> bool {
        is_window(self.buffer(), self.start_offset(), self.end_offset())
    }

    /// The visible bytes.
    pub open spec fn bytes(&self) -> Seq<u8> {
        self.buffer().subrange(self.start_offset(), self.end_offset())
    }

    /// The one representation of the empty span: static, empty buffer.
    pub open spec fn is_canonical_empty(&self) -> bool {
        &&& self.is_static()
        &&& self.buffer().len() == 0
        &&& self.start_offset() == 0
        &&& self.end_offset() == 0
    }

    /// Whether `self` is the window `start..end` of `base`'s window, on
    /// `base`'s own buffer.
    pub open spec fn is_slice_of(&self, base: &Text, start: int, end: int) -> bool {
        &&& self.buffer() == base.buffer()
        &&& self.is_static() == base.is_static()
        &&& self.start_offset() == base.start_offset() + start
        &&& self.end_offset() == base.start_offset() + end
    }

    /// The bytes that the cut `start..end` of the window shows: none where
    /// the cut is empty, reversed or runs past the window.
    pub open spec fn cut_bytes(&self, start: int, end: int) -> Seq<u8> {
        if start < end <= self.bytes().len() {
            self.bytes().subrange(start, end)
        } else {
            Seq::empty()
        }
    }

    /// Whether `self` is what cutting `start..end` out of `base` gives: a
    /// slice on `base`'s buffer, or the canonical empty span where the cut is
    /// empty, reversed or runs past `base`'s window.
    pub open spec fn is_cut_of(&self, base: &Text, start: int, end: int) -> bool {
        if start < end <= base.bytes().len() {
            self.is_slice_of(base, start, end)
        } else {
            self.is_canonical_empty()
        }
    }

    /// Whether `start..end` may be cut out of the window: where it lies
    /// inside, neither end cuts a character.
    pub open spec fn cut_keeps_characters(&self, start: int, end: int) -> bool {
        start < end <= self.bytes().len() ==> is_cut_point(self.bytes(), start) && is_cut_point(
            self.bytes(),
            end,
        )
    }

    /// Whether `self` is what joining `left` and `right` gives: the other
    /// operand as it is where one is empty, else the whole of a new shared
    /// buffer that holds both texts.
    pub open spec fn is_sum_of(&self, left: &Text, right: &Text) -> bool {
        if left.bytes().len() == 0 {
            *self == *right
        } else if right.bytes().len() == 0 {
            *self == *left
        } else {
            self.is_whole_shared(left.bytes() + right.bytes())
        }
    }

    /// Whether `self` covers the whole of a shared buffer that holds `bytes`.
    pub open spec fn is_whole_shared(&self, bytes: Seq<u8>) -> bool {
        &&& self.buffer() == bytes
        &&& !self.is_static()
        &&& self.start_offset() == 0
        &&& self.end_offset() == bytes.len()
    }
}

impl View for Text {
    type V = Seq<char>;

    /// The visible text.
    open spec fn view(&self) -> Seq<char> {
        decode_utf8(self.bytes())
    }
}

/// A well-formed span shows valid UTF-8, and its bytes and its text
/// determine each other.
pub proof fn lemma_visible_valid(t: Text)
    requires
        t.wf(),
    ensures
        valid_utf8(t.bytes()),
        encode_utf8(t@) == t.bytes(),
        (t@.len() == 0) == (t.bytes().len() == 0),
{
    lemma_window_valid(t.buffer(), t.start_offset(), t.end_offset());
    decode_utf8_encode_utf8(t.bytes());
    lemma_decode_empty(t.bytes());
}

impl Text {
    /// A span over a copy of `value`; the canonical empty span where `value`
    /// is empty.
    pub fn from(value: &str) -> (r: Text)
        ensures
            r.wf(),
            r@ == value@,
            r.bytes() == encode_utf8(value@),
            value@.len() == 0 ==> r.is_canonical_empty(),
            value@.len() != 0 ==> r.is_whole_shared(encode_utf8(value@)),
    {
        let len = value.as_bytes().len();
        proof {
            encode_utf8_valid_utf8(value@);
            encode_utf8_decode_utf8(value@);
            lemma_decode_empty(encode_utf8(value@));
        }
        if len == 0 {
            let r = Text::default();
            proof {
                assert(value@ =~= Seq::<char>::empty());
                assert(encode_utf8(value@) =~= Seq::<u8>::empty());
            }
            r
        } else {
            let buf = Str::String(shared_copy(value));
            proof {
                is_char_boundary_start_end_of_seq(buf.bytes());
            }
            let r = Text { buf, start: 0, end: len };
            proof {
                assert(r.bytes() =~= encode_utf8(value@));
            }
            r
        }
    }

    /// The number of visible bytes.
    pub fn len(&self) -> (n: usize)
        ensures
            n == self.bytes().len(),
            n == self.end_offset() - self.start_offset(),
    {
        proof {
            use_type_invariant(self);
        }
        self.end - self.start
    }

    /// Whether the span shows no text.
    pub fn is_empty(&self) -> (b: bool)
        ensures
            b == (self.bytes().len() == 0),
            b == (self@.len() == 0),
    {
        proof {
            use_type_invariant(self);
            lemma_visible_valid(*self);
        }
        self.end == self.start
    }

    /// Whether the span shows any text.
    pub fn is_not_empty(&self) -> (b: bool)
        ensures
            b == (self.bytes().len() > 0),
            b == (self@.len() > 0),
    {
        !self.is_empty()
    }

    /// The visible text.
    pub fn as_str(&self) -> (s: &str)
        ensures
            s@ == self@,
            s.spec_bytes() == self.bytes(),
    {
        proof {
            use_type_invariant(self);
        }
        let whole = self.buf.as_str();
        let ghost all = whole.spec_bytes();
        proof {
            lemma_boundary_in_prefix(all, self.start as int, self.end as int);
        }
        let (head, _) = whole.split_at(self.end);
        let (_, s) = head.split_at(self.start);
        proof {
            assert(s.spec_bytes() =~= self.bytes());
            encode_utf8_decode_utf8(s@);
        }
        s
    }

    /// The visible text, copied into a `String`.
    pub fn to_string(&self) -> (s: String)
        ensures
            s@ == self@,
    {
        self.as_str().to_owned()
    }

    /// Whether `index` is a place where the visible text may be cut: its
    /// start, its end, or the first byte of a character.
    pub fn is_char_boundary(&self, index: usize) -> (b: bool)
        ensures
            b == is_cut_point(self.bytes(), index as int),
    {
        proof {
            use_type_invariant(self);
            lemma_visible_valid(*self);
            lemma_cut_point_is_boundary(self.bytes(), index as int);
        }
        self.as_str().is_char_boundary(index)
    }

    /// The cut `start..end` of the window, offsets counted from the window's
    /// start. Shares the buffer; an empty, reversed or overlong cut gives the
    /// canonical empty span.
    pub fn sub_str(&self, start: usize, end: usize) -> (r: Text)
        requires
            self.cut_keeps_characters(start as int, end as int),
        ensures
            r.wf(),
            r.is_cut_of(self, start as int, end as int),
            r.bytes() == self.cut_bytes(start as int, end as int),
    {
        proof {
            use_type_invariant(self);
        }
        if end <= start || end > self.len() {
            return Text::default();
        }
        proof {
            let (s, e) = (self.start as int, self.end as int);
            lemma_visible_valid(*self);
            lemma_cut_point_is_boundary(self.bytes(), start as int);
            lemma_cut_point_is_boundary(self.bytes(), end as int);
            lemma_boundary_in_window(self.buffer(), s, e, start as int);
            lemma_boundary_in_window(self.buffer(), s, e, end as int);
        }
        let r = Text { buf: self.buf.clone(), start: self.start + start, end: self.start + end };
        proof {
            assert(r.bytes() =~= self.bytes().subrange(start as int, end as int));
        }
        r
    }

    /// Whether `from..to` can be a match in the visible text: it lies inside
    /// the window and neither end cuts a character.
    pub open spec fn admits_match(&self, from: int, to: int) -> bool {
        &&& 0 <= from <= to <= self.bytes().len()
        &&& is_cut_point(self.bytes(), from)
        &&& is_cut_point(self.bytes(), to)
    }

    /// The three spans around the match `from..to`: what stands before it,
    /// the match, and what stands after it.
    pub fn split_around(&self, from: usize, to: usize) -> (r: (Text, Text, Text))
        requires
            self.admits_match(from as int, to as int),
        ensures
            self.is_split_by(r, from as int, to as int),
    {
        proof {
            use_type_invariant(self);
            lemma_visible_valid(*self);
            lemma_cut_point_is_boundary(self.bytes(), 0);
        }
        let before = self.sub_str(0, from);
        let matched = self.sub_str(from, to);
        let after = self.sub_str(to, self.len());
        (before, matched, after)
    }

    /// What `split_around` gives for the match `from..to`.
    pub open spec fn is_split_by(&self, parts: (Text, Text, Text), from: int, to: int) -> bool {
        let n = self.bytes().len() as int;
        &&& parts.0.wf() && parts.1.wf() && parts.2.wf()
        &&& parts.0.is_cut_of(self, 0, from)
        &&& parts.1.is_cut_of(self, from, to)
        &&& parts.2.is_cut_of(self, to, n)
        &&& parts.0.bytes() == self.cut_bytes(0, from)
        &&& parts.1.bytes() == self.cut_bytes(from, to)
        &&& parts.2.bytes() == self.cut_bytes(to, n)
    }

    /// Splits at the first match of `pat` in the visible text; `None` where
    /// there is no match.
    pub fn split_once(&self, pat: &Regex) -> (r: Option<(Text, Text, Text)>)
        ensures
            match first_match(*pat, self@) {
                None => r is None,
                Some((from, to)) => {
                    &&& self.admits_match(from as int, to as int)
                    &&& r matches Some(parts) && self.is_split_by(parts, from as int, to as int)
                },
            },
    {
        match find_first(pat, self.as_str()) {
            None => None,
            Some((from, to)) => {
                proof {
                    use_type_invariant(self);
                    lemma_visible_valid(*self);
                    lemma_cut_point_is_boundary(self.bytes(), from as int);
                    lemma_cut_point_is_boundary(self.bytes(), to as int);
                }
                Some(self.split_around(from, to))
            },
        }
    }

    /// The two texts joined. Where one is empty the other is returned as it
    /// is; otherwise the result covers a new shared buffer.
    pub fn add(self, rhs: Text) -> (r: Text)
        ensures
            r.wf(),
            r@ == self@ + rhs@,
            r.bytes() == self.bytes() + rhs.bytes(),
            r.is_sum_of(&self, &rhs),
    {
        proof {
            use_type_invariant(&self);
            use_type_invariant(&rhs);
            lemma_visible_valid(self);
            lemma_visible_valid(rhs);
            lemma_decode_concat(self.bytes(), rhs.bytes());
            lemma_encode_concat(self@, rhs@);
        }
        if self.is_empty() {
            proof {
                assert(self.bytes() + rhs.bytes() =~= rhs.bytes());
                assert(self@ + rhs@ =~= rhs@);
            }
            return rhs;
        }
        if rhs.is_empty() {
            proof {
                assert(self.bytes() + rhs.bytes() =~= self.bytes());
                assert(self@ + rhs@ =~= self@);
            }
            return self;
        }
        let joined = self.as_str().to_owned().concat(rhs.as_str());
        let len = joined.as_str().as_bytes().len();
        let buf = Str::String(shared_copy(joined.as_str()));
        proof {
            is_char_boundary_start_end_of_seq(buf.bytes());
        }
        let r = Text { buf, start: 0, end: len };
        proof {
            assert(r.bytes() =~= self.bytes() + rhs.bytes());
        }
        r
    }

    /// Whether the span is non-empty and shows only ASCII decimal digits.
    pub fn is_ascii_digit(&self) -> (b: bool)
        ensures
            b == (self@.len() > 0 && all_ascii_digits(self@)),
            b == (self.bytes().len() > 0 && all_digit_bytes(self.bytes())),
    {
        proof {
            use_type_invariant(self);
            lemma_visible_valid(*self);
            lemma_digits_by_bytes(self@);
        }
        let bytes = self.as_str().as_bytes();
        let n = bytes.len();
        if n == 0 {
            return false;
        }
        let mut i: usize = 0;
        while i < n
            invariant
                i <= n,
                n == bytes@.len(),
                bytes@ == self.bytes(),
                self@.len() > 0,
                all_ascii_digits(self@) == all_digit_bytes(self.bytes()),
                forall|j: int| 0 <= j < i ==> 0x30 <= #[trigger] bytes@[j] <= 0x39,
            decreases n - i,
        {
            let byte = bytes[i];
            if byte < 0x30 || byte > 0x39 {
                proof {
                    assert(self.bytes()[i as int] == byte);
                    assert(!all_digit_bytes(self.bytes()));
                }
                return false;
            }
            i += 1;
        }
        true
    }
}

impl Deref for Text {
    type Target = str;

    /// The visible text.
    fn deref(&self) -> (s: &str)
        ensures
            s@ == self@,
            s.spec_bytes() == self.bytes(),
    {
        self.as_str()
    }
}

impl Clone for Text {
    /// Another span on the same buffer and window; no text is copied.
    fn clone(&self) -> (r: Text)
        ensures
            r == *self,
    {
        proof {
            use_type_invariant(self);
        }
        Text { buf: self.buf.clone(), start: self.start, end: self.end }
    }
}

impl Default for Text {
    /// The canonical empty span.
    fn default() -> (r: Text)
        ensures
            r.wf(),
            r.is_canonical_empty(),
            r.bytes() == Seq::<u8>::empty(),
            r@ == Seq::<char>::empty(),
    {
        let buf = Str::Slice("");
        proof {
            reveal_strlit("");
            assert(buf.text() =~= Seq::<char>::empty());
            assert(buf.bytes() =~= Seq::<u8>::empty());
            assert(is_char_boundary(buf.bytes(), 0));
        }
        let r = Text { buf, start: 0, end: 0 };
        proof {
            assert(r.bytes() =~= Seq::<u8>::empty());
        }
        r
    }
}

} // verus!
