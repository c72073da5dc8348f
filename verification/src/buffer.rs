//! Backing storage of a span: text that lives for the whole process, or
//! text shared by reference count.

use std::sync::Arc;
use vstd::prelude::*;
use vstd::utf8::*;

verus! {

/// The storage behind a span.
pub enum Str {
    /// Text with process-wide lifetime; nothing is owned.
    Slice(&'static str),
    /// An immutable buffer shared by reference count.
    String(Arc<str>),
}

/// Copies `s` into a new reference-counted buffer.
///
/// Wraps `Arc::<str>::from(&str)`, which allocates once and copies the
/// text unchanged; the contract says only that the new buffer holds the
/// same characters.
#[verifier::external_body]
pub(crate) fn shared_copy(s: &str) -> (r: Arc<str>)
    ensures
        r@ == s@,
{
    Arc::from(s)
}

impl Str {
    /// The characters that the storage holds.
    pub open spec fn text(&self) -> Seq<char> {
        match self {
            Str::Slice(it) => it@,
            Str::String(it) => it@,
        }
    }

    /// The storage as bytes: the UTF-8 encoding of its characters.
    pub open spec fn bytes(&self) -> Seq<u8> {
        encode_utf8(self.text())
    }

    /// Whether the storage is static text.
    pub open spec fn is_static(&self) -> bool {
        self is Slice
    }

    /// The whole stored text.
    pub fn as_str(&self) -> (s: &str)
        ensures
            s@ == self.text(),
    {
        match self {
            Str::Slice(it) => *it,
            Str::String(it) => &**it,
        }
    }

    /// The stored text's length in bytes.
    pub fn len(&self) -> (n: usize)
        ensures
            n == self.bytes().len(),
    {
        self.as_str().as_bytes().len()
    }

}

impl Clone for Str {
    /// Another handle on the same storage; no text is copied.
    fn clone(&self) -> (r: Str)
        ensures
            r == *self,
    {
        match self {
            Str::Slice(it) => Str::Slice(*it),
            Str::String(it) => Str::String(Arc::clone(it)),
        }
    }
}

} // verus!
