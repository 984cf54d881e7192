//! Substring search and single replacement over character sequences,
//! used by the HTML rewriter and the response templates.

use vstd::prelude::*;

verus! {

/// True when `pat` occurs in `s` starting at `i`.
pub open spec fn is_match_at(s: Seq<char>, pat: Seq<char>, i: int) -> bool {
    0 <= i && i + pat.len() <= s.len() && s.subrange(i, i + pat.len()) == pat
}

/// True when `pat` occurs somewhere in `s`.
pub open spec fn contains_chars(s: Seq<char>, pat: Seq<char>) -> bool {
    exists|i: int| is_match_at(s, pat, i)
}

/// True when `pat` occurs nowhere before `i`.
pub open spec fn no_match_before(s: Seq<char>, pat: Seq<char>, i: int) -> bool {
    forall|j: int| 0 <= j < i ==> !is_match_at(s, pat, j)
}

/// The position of the first occurrence of `pat` in `s`; meaningful
/// when `contains_chars(s, pat)` holds.
pub open spec fn first_match_index(s: Seq<char>, pat: Seq<char>) -> int {
    choose|i: int| is_match_at(s, pat, i) && no_match_before(s, pat, i)
}

/// A first occurrence is the first occurrence.
pub proof fn lemma_first_match_index(s: Seq<char>, pat: Seq<char>, i: int)
    requires
        is_match_at(s, pat, i),
        no_match_before(s, pat, i),
    ensures
        first_match_index(s, pat) == i,
{
    let w = first_match_index(s, pat);
    assert(is_match_at(s, pat, i) && no_match_before(s, pat, i));
    assert(is_match_at(s, pat, w) && no_match_before(s, pat, w));
}

/// `s` with the first occurrence of `pat` replaced by `sub`; `s` itself
/// when `pat` does not occur.
pub open spec fn replaced_first(s: Seq<char>, pat: Seq<char>, sub: Seq<char>) -> Seq<char> {
    if contains_chars(s, pat) {
        let i = first_match_index(s, pat);
        s.subrange(0, i) + sub + s.subrange(i + pat.len(), s.len() as int)
    } else {
        s
    }
}

/// An occurrence inside the middle part of a concatenation is an
/// occurrence of the whole, shifted by the front part's length.
pub proof fn lemma_match_in_concat(
    a: Seq<char>,
    b: Seq<char>,
    c: Seq<char>,
    pat: Seq<char>,
    i: int,
)
    requires
        is_match_at(b, pat, i),
    ensures
        is_match_at(a + b + c, pat, a.len() + i),
{
    let all = a + b + c;
    assert(all.subrange(a.len() + i, a.len() + i + pat.len()) =~= b.subrange(i, i + pat.len()));
}

/// Whether `pat` occurs in `s` starting at position `i`.
pub fn match_at(s: &str, pat: &str, i: usize) -> (r: bool)
    requires
        i + pat@.len() <= s@.len(),
        s@.len() <= usize::MAX,
    ensures
        r == is_match_at(s@, pat@, i as int),
{
    let m: usize = pat.unicode_len();
    let mut j: usize = 0;
    while j < m
        invariant
            m == pat@.len(),
            i + m <= s@.len(),
            s@.len() <= usize::MAX,
            0 <= j <= m,
            forall|t: int| 0 <= t < j ==> s@[i + t] == pat@[t],
        decreases m - j,
    {
        if s.get_char(i + j) != pat.get_char(j) {
            proof {
                assert(s@[i + j] != pat@[j as int]);
                assert(!is_match_at(s@, pat@, i as int)) by {
                    if is_match_at(s@, pat@, i as int) {
                        assert(s@.subrange(i as int, i + pat@.len())[j as int] == pat@[j as int]);
                    }
                }
            }
            return false;
        }
        j = j + 1;
    }
    proof {
        assert(s@.subrange(i as int, i + pat@.len()) =~= pat@);
    }
    true
}

/// The position of the first occurrence of `pat` in `s`, if any.
pub fn find_str(s: &str, pat: &str) -> (r: Option<usize>)
    ensures
        match r {
            Some(i) => is_match_at(s@, pat@, i as int) && no_match_before(s@, pat@, i as int)
                && first_match_index(s@, pat@) == i,
            None => !contains_chars(s@, pat@),
        },
{
    let n: usize = s.unicode_len();
    let m: usize = pat.unicode_len();
    if m > n {
        proof {
            assert forall|i: int| !is_match_at(s@, pat@, i) by {}
        }
        return None;
    }
    if m == 0 {
        proof {
            assert(s@.subrange(0, 0) =~= pat@);
            lemma_first_match_index(s@, pat@, 0);
        }
        return Some(0);
    }
    let last: usize = n - m;
    let mut i: usize = 0;
    while i <= last
        invariant
            n == s@.len(),
            m == pat@.len(),
            1 <= m <= n,
            last == n - m,
            0 <= i <= last + 1,
            no_match_before(s@, pat@, i as int),
        decreases last - i + 1,
    {
        if match_at(s, pat, i) {
            proof {
                lemma_first_match_index(s@, pat@, i as int);
            }
            return Some(i);
        }
        i = i + 1;
    }
    proof {
        assert forall|j: int| !is_match_at(s@, pat@, j) by {
            if is_match_at(s@, pat@, j) {
                assert(0 <= j <= last);
            }
        }
    }
    None
}

/// Whether `s` begins with `pat`.
pub fn starts_with_str(s: &str, pat: &str) -> (r: bool)
    ensures
        r == is_match_at(s@, pat@, 0),
{
    let n: usize = s.unicode_len();
    let m: usize = pat.unicode_len();
    if m > n {
        return false;
    }
    match_at(s, pat, 0)
}

/// Whether `pat` occurs anywhere in `s`.
pub fn contains_str(s: &str, pat: &str) -> (r: bool)
    ensures
        r == contains_chars(s@, pat@),
{
    match find_str(s, pat) {
        Some(_) => true,
        None => false,
    }
}

/// Replaces the first occurrence of `pat` in `s` with `sub`.
pub fn replace_first(s: &str, pat: &str, sub: &str) -> (r: String)
    ensures
        r@ == replaced_first(s@, pat@, sub@),
{
    match find_str(s, pat) {
        Some(i) => {
            let n: usize = s.unicode_len();
            let m: usize = pat.unicode_len();
            let pre = s.substring_char(0, i);
            let post = s.substring_char(i + m, n);
            let mut out: String = pre.to_owned();
            out.append(sub);
            out.append(post);
            out
        },
        None => s.to_owned(),
    }
}

} // verus!
