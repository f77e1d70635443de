//! Small operations on text that the rest of the library shares.

use vstd::prelude::*;
use vstd::string::*;

verus! {

/// `prefix` stands at the start of `s`.
pub open spec fn has_prefix(s: Seq<char>, prefix: Seq<char>) -> bool {
    prefix.len() <= s.len() && s.subrange(0, prefix.len() as int) == prefix
}

/// `suffix` stands at the end of `s`.
pub open spec fn has_suffix(s: Seq<char>, suffix: Seq<char>) -> bool {
    suffix.len() <= s.len() && s.subrange(s.len() - suffix.len(), s.len() as int) == suffix
}

/// Whether the characters of `a` from `at` on begin with `b`.
fn matches_at(a: &str, la: usize, at: usize, b: &str, lb: usize) -> (r: bool)
    requires
        la == a@.len(),
        lb == b@.len(),
        at + lb <= la,
    ensures
        r == (a@.subrange(at as int, at + lb) == b@),
{
    let mut i: usize = 0;
    while i < lb
        invariant
            i <= lb,
            la == a@.len(),
            lb == b@.len(),
            at + lb <= la,
            forall|j: int| 0 <= j < i ==> a@[at + j] == b@[j],
        decreases lb - i,
    {
        if a.get_char(at + i) != b.get_char(i) {
            assert(a@.subrange(at as int, at + lb)[i as int] != b@[i as int]);
            return false;
        }
        i += 1;
    }
    assert(a@.subrange(at as int, at + lb) =~= b@);
    true
}

/// Whether `prefix` stands at the start of `s`.
pub fn starts_with(s: &str, prefix: &str) -> (r: bool)
    ensures
        r == has_prefix(s@, prefix@),
{
    let ls = s.unicode_len();
    let lp = prefix.unicode_len();
    if lp > ls {
        return false;
    }
    matches_at(s, ls, 0, prefix, lp)
}

/// Whether `suffix` stands at the end of `s`.
pub fn ends_with(s: &str, suffix: &str) -> (r: bool)
    ensures
        r == has_suffix(s@, suffix@),
{
    let ls = s.unicode_len();
    let lx = suffix.unicode_len();
    if lx > ls {
        return false;
    }
    matches_at(s, ls, ls - lx, suffix, lx)
}

/// Whether two texts are the same.
pub fn same_text(a: &str, b: &str) -> (r: bool)
    ensures
        r == (a@ == b@),
{
    let la = a.unicode_len();
    let lb = b.unicode_len();
    if la != lb {
        return false;
    }
    let r = matches_at(a, la, 0, b, lb);
    assert(a@.subrange(0, la as int) =~= a@);
    r
}

/// `part` occurs in `s`.
pub open spec fn has_part(s: Seq<char>, part: Seq<char>) -> bool {
    exists|i: int| 0 <= i && i + part.len() <= s.len() && #[trigger] s.subrange(i, i + part.len()) == part
}

/// Whether `part` occurs in `s`.
pub fn contains(s: &str, part: &str) -> (r: bool)
    ensures
        r == has_part(s@, part@),
{
    let ls = s.unicode_len();
    let lp = part.unicode_len();
    if lp > ls {
        return false;
    }
    let mut i: usize = 0;
    while i <= ls - lp
        invariant
            ls == s@.len(),
            lp == part@.len(),
            lp <= ls,
            i <= ls - lp + 1,
            forall|j: int| 0 <= j < i ==> #[trigger] s@.subrange(j, j + lp) != part@,
        decreases ls - lp + 1 - i,
    {
        if matches_at(s, ls, i, part, lp) {
            return true;
        }
        if i == ls - lp {
            return false;
        }
        i += 1;
    }
    false
}

/// `s` from place `i` on, with every occurrence of `from` replaced by `to`,
/// the leftmost first and none overlapping another. An empty `from` occurs nowhere.
pub open spec fn replaced_from(s: Seq<char>, from: Seq<char>, to: Seq<char>, i: int) -> Seq<char>
    decreases s.len() - i,
{
    if i < 0 || i >= s.len() {
        Seq::empty()
    } else if from.len() > 0 && i + from.len() <= s.len() && s.subrange(i, i + from.len()) == from {
        to + replaced_from(s, from, to, i + from.len())
    } else {
        seq![s[i]] + replaced_from(s, from, to, i + 1)
    }
}

/// `s` with every occurrence of `from` replaced by `to`.
pub fn replace_all(s: &str, from: &str, to: &str) -> (r: String)
    ensures
        r@ == replaced_from(s@, from@, to@, 0),
{
    let ls = s.unicode_len();
    let lf = from.unicode_len();
    let mut r = String::new();
    let mut i: usize = 0;
    assert(r@ + replaced_from(s@, from@, to@, 0) =~= replaced_from(s@, from@, to@, 0));
    while i < ls
        invariant
            i <= ls,
            ls == s@.len(),
            lf == from@.len(),
            r@ + replaced_from(s@, from@, to@, i as int) == replaced_from(s@, from@, to@, 0),
        decreases ls - i,
    {
        let ghost before = r@;
        if lf > 0 && lf <= ls - i && matches_at(s, ls, i, from, lf) {
            r.append(to);
            assert(r@ + replaced_from(s@, from@, to@, i + lf) =~= before + replaced_from(
                s@,
                from@,
                to@,
                i as int,
            ));
            i += lf;
        } else {
            let one = s.substring_char(i, i + 1);
            assert(one@ =~= seq![s@[i as int]]);
            r.append(one);
            assert(r@ + replaced_from(s@, from@, to@, i + 1) =~= before + replaced_from(
                s@,
                from@,
                to@,
                i as int,
            ));
            i += 1;
        }
    }
    assert(r@ + Seq::<char>::empty() =~= r@);
    r
}

} // verus!
