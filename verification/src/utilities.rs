//! Byte-level helpers shared by the configuration scanners.

use vstd::prelude::*;
use vstd::slice::slice_subrange;

verus! {

/// Index of the first occurrence of `b` in `s`, or `s.len()` when absent.
pub open spec fn first_byte_index(s: Seq<u8>, b: u8) -> int
    decreases s.len(),
{
    if s.len() == 0 {
        0
    } else if s[0] == b {
        0
    } else {
        1 + first_byte_index(s.drop_first(), b)
    }
}

pub proof fn lemma_first_byte_index_is(s: Seq<u8>, b: u8, k: int)
    requires
        0 <= k <= s.len(),
        forall|j: int| 0 <= j < k ==> s[j] != b,
        k == s.len() || s[k] == b,
    ensures
        first_byte_index(s, b) == k,
    decreases k,
{
    if k > 0 {
        lemma_first_byte_index_is(s.drop_first(), b, k - 1);
    }
}

/// Splits a byte string at the first occurrence of `needle`, which is
/// dropped; `None` when the needle does not occur.
pub fn split_first<'a>(haystack: &'a [u8], needle: u8) -> (r: Option<(&'a [u8], &'a [u8])>)
    ensures
        r is Some <==> first_byte_index(haystack@, needle) < haystack@.len(),
        r matches Some((before, after)) ==> before@ == haystack@.take(
            first_byte_index(haystack@, needle),
        ) && after@ == haystack@.skip(first_byte_index(haystack@, needle) + 1),
{
    let n = haystack.len();
    let mut i: usize = 0;
    while i < n && haystack[i] != needle
        invariant
            n == haystack@.len(),
            i <= n,
            forall|j: int| 0 <= j < i ==> haystack@[j] != needle,
        decreases n - i,
    {
        i += 1;
    }
    proof {
        lemma_first_byte_index_is(haystack@, needle, i as int);
    }
    if i == n {
        None
    } else {
        let before = slice_subrange(haystack, 0, i);
        let after = slice_subrange(haystack, i + 1, n);
        proof {
            assert(before@ =~= haystack@.take(i as int));
            assert(after@ =~= haystack@.skip(i + 1));
        }
        Some((before, after))
    }
}

} // verus!
