//! The pattern matcher that `split_once` asks for the first match.

use lazy_regex::Regex;
use vstd::prelude::*;
use vstd::string::*;
use vstd::utf8::*;

verus! {

/// A compiled regular expression; nothing inside it is visible here.
#[verifier::external_type_specification]
#[verifier::external_body]
pub struct ExRegex(lazy_regex::Regex);

/// The byte offsets `(start, end)` of the first match of `pat` in
/// `haystack`, or `None` where nothing matches.
pub uninterp spec fn first_match(pat: Regex, haystack: Seq<char>) -> Option<(usize, usize)>;

/// The first match of `pat` in `haystack`, as byte offsets.
///
/// Wraps `Regex::find` with `Match::start` and `Match::end`. Believed of
/// them: the search depends on the pattern and the haystack alone; the
/// offsets are byte offsets into the haystack with `start <= end`, and both
/// fall on character boundaries, so the haystack can be cut there.
#[verifier::external_body]
pub(crate) fn find_first(pat: &Regex, haystack: &str) -> (r: Option<(usize, usize)>)
    ensures
        r == first_match(*pat, haystack@),
        r matches Some((from, to)) ==> {
            &&& from <= to <= haystack.spec_bytes().len()
            &&& is_char_boundary(haystack.spec_bytes(), from as int)
            &&& is_char_boundary(haystack.spec_bytes(), to as int)
        },
{
    match pat.find(haystack) {
        Some(found) => Some((found.start(), found.end())),
        None => None,
    }
}

} // verus!
