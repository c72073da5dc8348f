//! Comparison of two sequences by their first difference.

use vstd::prelude::*;

verus! {

/// The first position at or after `i` where `a` and `b` differ or one of
/// them ends.
pub open spec fn agree_from<T>(a: Seq<T>, b: Seq<T>, i: int) -> int
    decreases a.len() - i,
{
    if 0 <= i < a.len() && i < b.len() && a[i] == b[i] {
        agree_from(a, b, i + 1)
    } else {
        i
    }
}

/// The length of the longest prefix that `a` and `b` share.
pub open spec fn common_prefix_len<T>(a: Seq<T>, b: Seq<T>) -> int {
    agree_from(a, b, 0)
}

proof fn lemma_agree_from<T>(a: Seq<T>, b: Seq<T>, i: int)
    requires
        0 <= i <= a.len(),
        i <= b.len(),
        a.subrange(0, i) == b.subrange(0, i),
    ensures
        i <= agree_from(a, b, i) <= a.len(),
        agree_from(a, b, i) <= b.len(),
        a.subrange(0, agree_from(a, b, i)) == b.subrange(0, agree_from(a, b, i)),
        agree_from(a, b, i) < a.len() && agree_from(a, b, i) < b.len() ==> a[agree_from(a, b, i)]
            != b[agree_from(a, b, i)],
    decreases a.len() - i,
{
    if i < a.len() && i < b.len() && a[i] == b[i] {
        assert(a.subrange(0, i + 1) =~= a.subrange(0, i).push(a[i]));
        assert(b.subrange(0, i + 1) =~= b.subrange(0, i).push(b[i]));
        lemma_agree_from(a, b, i + 1);
    }
}

/// The shared prefix is shared, and it is the longest: just behind it one
/// sequence ends or the two differ.
pub proof fn lemma_common_prefix<T>(a: Seq<T>, b: Seq<T>)
    ensures
        0 <= common_prefix_len(a, b) <= a.len(),
        common_prefix_len(a, b) <= b.len(),
        a.subrange(0, common_prefix_len(a, b)) == b.subrange(0, common_prefix_len(a, b)),
        common_prefix_len(a, b) < a.len() && common_prefix_len(a, b) < b.len() ==> a[common_prefix_len(
            a,
            b,
        )] != b[common_prefix_len(a, b)],
        (a == b) == (common_prefix_len(a, b) == a.len() && common_prefix_len(a, b) == b.len()),
{
    assert(a.subrange(0, 0) =~= b.subrange(0, 0));
    lemma_agree_from(a, b, 0);
    let k = common_prefix_len(a, b);
    if k == a.len() && k == b.len() {
        assert(a =~= a.subrange(0, k));
        assert(b =~= b.subrange(0, k));
    }
}

/// A prefix that both share, with one sequence ending or the two differing
/// just behind it, is the longest shared prefix.
pub proof fn lemma_first_difference_is<T>(a: Seq<T>, b: Seq<T>, k: int)
    requires
        0 <= k <= a.len(),
        k <= b.len(),
        a.subrange(0, k) == b.subrange(0, k),
        k == a.len() || k == b.len() || a[k] != b[k],
    ensures
        common_prefix_len(a, b) == k,
{
    lemma_common_prefix(a, b);
    let found = common_prefix_len(a, b);
    if found < k {
        assert(a[found] == a.subrange(0, k)[found]);
        assert(b[found] == b.subrange(0, k)[found]);
    } else if found > k {
        assert(a[k] == a.subrange(0, found)[k]);
        assert(b[k] == b.subrange(0, found)[k]);
    }
}

/// The first index at which `a` and `b` differ, or the length of the
/// shorter where one is a prefix of the other.
pub fn first_difference(a: &[u8], b: &[u8]) -> (k: usize)
    ensures
        k == common_prefix_len(a@, b@),
{
    let n = if a.len() < b.len() {
        a.len()
    } else {
        b.len()
    };
    let mut i: usize = 0;
    while i < n
        invariant
            i <= n,
            n <= a@.len(),
            n <= b@.len(),
            n == a@.len() || n == b@.len(),
            agree_from(a@, b@, 0) == agree_from(a@, b@, i as int),
        decreases n - i,
    {
        if a[i] != b[i] {
            return i;
        }
        i += 1;
    }
    i
}

/// Whether `a` and `b` hold the same bytes.
pub fn same_bytes(a: &[u8], b: &[u8]) -> (r: bool)
    ensures
        r == (a@ == b@),
{
    proof {
        lemma_common_prefix(a@, b@);
    }
    let k = first_difference(a, b);
    k == a.len() && k == b.len()
}

} // verus!
