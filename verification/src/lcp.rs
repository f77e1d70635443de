//! Longest common prefixes of module ids, used to shorten the ids shown in
//! the emitted bundle.

use vstd::prelude::*;
use vstd::string::*;

verus! {

/// `n` is the length of the longest common prefix of `a` and `b`.
pub open spec fn is_lcp_len(a: Seq<char>, b: Seq<char>, n: int) -> bool {
    &&& 0 <= n <= a.len()
    &&& n <= b.len()
    &&& forall|i: int| 0 <= i < n ==> a[i] == b[i]
    &&& (n == a.len() || n == b.len() || a[n] != b[n])
}

/// The longest common prefix of two sequences.
pub open spec fn lcp_spec(a: Seq<char>, b: Seq<char>) -> Seq<char>
    decreases a.len(),
{
    if a.len() == 0 || b.len() == 0 || a[0] != b[0] {
        Seq::empty()
    } else {
        seq![a[0]] + lcp_spec(a.skip(1), b.skip(1))
    }
}

/// The recursive definition and the pointwise one agree.
pub proof fn lemma_lcp_spec(a: Seq<char>, b: Seq<char>)
    ensures
        is_lcp_len(a, b, lcp_spec(a, b).len() as int),
        lcp_spec(a, b) == a.subrange(0, lcp_spec(a, b).len() as int),
    decreases a.len(),
{
    if a.len() == 0 || b.len() == 0 || a[0] != b[0] {
        assert(lcp_spec(a, b) =~= a.subrange(0, 0));
    } else {
        lemma_lcp_spec(a.skip(1), b.skip(1));
        let r = lcp_spec(a.skip(1), b.skip(1));
        let n = r.len() as int;
        assert forall|i: int| 0 <= i < n + 1 implies a[i] == b[i] by {
            if i > 0 {
                assert(a.skip(1)[i - 1] == b.skip(1)[i - 1]);
            }
        }
        if n + 1 != a.len() && n + 1 != b.len() {
            assert(a.skip(1)[n] != b.skip(1)[n]);
        }
        assert(lcp_spec(a, b) =~= a.subrange(0, n + 1)) by {
            assert(r == a.skip(1).subrange(0, n));
            assert forall|i: int| 0 <= i < n + 1 implies lcp_spec(a, b)[i] == a[i] by {
                if i > 0 {
                    assert(r[i - 1] == a.skip(1)[i - 1]);
                }
            }
        }
    }
}

/// A length that satisfies `is_lcp_len` is the length of `lcp_spec`.
pub proof fn lemma_lcp_len_unique(a: Seq<char>, b: Seq<char>, n: int)
    requires
        is_lcp_len(a, b, n),
    ensures
        lcp_spec(a, b) == a.subrange(0, n),
{
    lemma_lcp_spec(a, b);
    let m = lcp_spec(a, b).len() as int;
    if m < n {
        assert(a[m] == b[m]);
    } else if n < m {
        assert(a[n] == b[n]);
    }
}

/// The longest common prefix of `a` and `b`, as a slice of `a`.
pub fn lcp<'a>(a: &'a str, b: &'a str) -> (r: &'a str)
    ensures
        r@ == lcp_spec(a@, b@),
{
    let la = a.unicode_len();
    let lb = b.unicode_len();
    let mut len: usize = 0;
    while len < la && len < lb && a.get_char(len) == b.get_char(len)
        invariant
            la == a@.len(),
            lb == b@.len(),
            len <= la,
            len <= lb,
            forall|i: int| 0 <= i < len ==> a@[i] == b@[i],
        decreases la - len,
    {
        len += 1;
    }
    proof {
        lemma_lcp_len_unique(a@, b@, len as int);
    }
    a.substring_char(0, len)
}

/// The longest common prefix of the first `n` texts.
pub open spec fn lcp_of_first(texts: Seq<Seq<char>>, n: int) -> Seq<char>
    decreases n,
{
    if 1 < n <= texts.len() {
        lcp_spec(lcp_of_first(texts, n - 1), texts[n - 1])
    } else if n == 1 && texts.len() >= 1 {
        texts[0]
    } else {
        Seq::empty()
    }
}

/// The longest common prefix of all the texts.
pub fn lcp_of_array(arr: &Vec<String>) -> (r: String)
    requires
        arr@.len() > 0,
    ensures
        r@ == lcp_of_first(arr.deep_view(), arr@.len() as int),
{
    let ghost texts = arr.deep_view();
    let mut longest = arr[0].clone();
    assert(texts[0] == arr@[0]@);
    let mut i: usize = 1;
    while i < arr.len()
        invariant
            1 <= i <= arr@.len(),
            texts == arr.deep_view(),
            longest@ == lcp_of_first(texts, i as int),
        decreases arr@.len() - i,
    {
        assert(texts[i as int] == arr@[i as int]@);
        let next = String::from_str(lcp(longest.as_str(), arr[i].as_str()));
        longest = next;
        i += 1;
    }
    longest
}

} // verus!
