//! Character-level helpers shared by the parsing modules: string-to-chars
//! conversion and plain substring search.

use vstd::prelude::*;

verus! {

/// The characters of a string, as a vector.
pub fn str_to_chars(s: &str) -> (v: Vec<char>)
    ensures
        v@ == s@,
{
    let n = s.unicode_len();
    let mut v: Vec<char> = Vec::new();
    let mut i: usize = 0;
    while i < n
        invariant
            0 <= i <= n,
            n == s@.len(),
            v@ == s@.take(i as int),
        decreases n - i,
    {
        v.push(s.get_char(i));
        proof {
            assert(v@ =~= s@.take(i as int + 1));
        }
        i += 1;
    }
    proof {
        assert(s@.take(n as int) =~= s@);
    }
    v
}

/// Whether the pattern occurs in the text starting at position `i`.
pub open spec fn spec_match_at(text: Seq<char>, pat: Seq<char>, i: int) -> bool {
    0 <= i && i + pat.len() <= text.len() && text.subrange(i, i + pat.len()) == pat
}

/// Whether the pattern occurs anywhere in the text.
pub open spec fn spec_contains_seq(text: Seq<char>, pat: Seq<char>) -> bool {
    exists|i: int| spec_match_at(text, pat, i)
}

fn match_at(text: &Vec<char>, pat: &Vec<char>, i: usize) -> (r: bool)
    requires
        i + pat@.len() <= text@.len(),
    ensures
        r == spec_match_at(text@, pat@, i as int),
{
    let m = pat.len();
    let n = text.len();
    let mut j: usize = 0;
    while j < m
        invariant
            0 <= j <= m,
            m == pat@.len(),
            n == text@.len(),
            i + m <= n,
            forall|l: int| 0 <= l < j ==> text@[i + l] == pat@[l],
        decreases m - j,
    {
        if text[i + j] != pat[j] {
            proof {
                assert(text@.subrange(i as int, i + m) != pat@) by {
                    assert(text@.subrange(i as int, i + m)[j as int] == text@[i + j]);
                }
            }
            return false;
        }
        j += 1;
    }
    proof {
        assert(text@.subrange(i as int, i + m) =~= pat@);
    }
    true
}

/// Whether the pattern occurs anywhere in the text.
pub fn contains_substring(text: &Vec<char>, pat: &Vec<char>) -> (r: bool)
    ensures
        r == spec_contains_seq(text@, pat@),
{
    let n = text.len();
    let m = pat.len();
    if m > n {
        proof {
            assert forall|i: int| !spec_match_at(text@, pat@, i) by {}
        }
        return false;
    }
    if m == 0 {
        proof {
            assert(text@.subrange(0, 0) =~= pat@);
            assert(spec_match_at(text@, pat@, 0));
        }
        return true;
    }
    let mut i: usize = 0;
    while i <= n - m
        invariant
            0 <= i <= n - m + 1,
            1 <= m <= n,
            n == text@.len(),
            m == pat@.len(),
            forall|j: int| 0 <= j < i ==> !spec_match_at(text@, pat@, j),
        decreases n - m - i + 1,
    {
        if match_at(text, pat, i) {
            return true;
        }
        i += 1;
    }
    proof {
        assert forall|j: int| !spec_match_at(text@, pat@, j) by {
            if 0 <= j <= n - m {
                assert(!spec_match_at(text@, pat@, j));
            }
        }
    }
    false
}

} // verus!
