//! Character-level string utilities: suffix and containment tests,
//! whitespace recognition, and truncation by character count.
use vstd::prelude::*;

verus! {

broadcast use vstd::seq::group_seq_axioms;

use vstd::string::StrSliceExecFns;

/// `suffix` is the tail of `s`.
pub open spec fn ends_with(s: Seq<char>, suffix: Seq<char>) -> bool {
    &&& s.len() >= suffix.len()
    &&& s.subrange(s.len() - suffix.len(), s.len() as int) == suffix
}

pub fn str_ends_with(s: &str, suffix: &str) -> (r: bool)
    ensures
        r == ends_with(s@, suffix@),
{
    let n = s.unicode_len();
    let m = suffix.unicode_len();
    if m > n {
        return false;
    }
    let mut j: usize = 0;
    while j < m
        invariant
            m <= n,
            n == s@.len(),
            m == suffix@.len(),
            j <= m,
            forall|t: int| 0 <= t < j ==> s@[n - m + t] == suffix@[t],
        decreases m - j,
    {
        if s.get_char(n - m + j) != suffix.get_char(j) {
            proof {
                assert(s@.subrange(n - m, n as int)[j as int] != suffix@[j as int]);
            }
            return false;
        }
        j = j + 1;
    }
    proof {
        assert(s@.subrange(n - m, n as int) =~= suffix@);
    }
    true
}

pub fn str_eq_str(a: &str, b: &str) -> (r: bool)
    ensures
        r == (a@ == b@),
{
    let n = a.unicode_len();
    let m = b.unicode_len();
    if m != n {
        proof {
            assert(a@ != b@);
        }
        return false;
    }
    let mut j: usize = 0;
    while j < m
        invariant
            n == a@.len(),
            m == b@.len(),
            m == n,
            j <= m,
            forall|t: int| 0 <= t < j ==> a@[t] == b@[t],
        decreases m - j,
    {
        if a.get_char(j) != b.get_char(j) {
            return false;
        }
        j = j + 1;
    }
    proof {
        assert(a@ =~= b@);
    }
    true
}

pub fn str_contains_char(s: &str, c: char) -> (r: bool)
    ensures
        r == s@.contains(c),
{
    let n = s.unicode_len();
    let mut j: usize = 0;
    while j < n
        invariant
            n == s@.len(),
            j <= n,
            forall|t: int| 0 <= t < j ==> s@[t] != c,
        decreases n - j,
    {
        if s.get_char(j) == c {
            return true;
        }
        j = j + 1;
    }
    false
}

/// `suffix` is a whole final path component of `s`: it is the tail, and
/// what precedes it (if anything) is a path separator of either kind.
pub open spec fn ends_with_component(s: Seq<char>, suffix: Seq<char>) -> bool {
    &&& ends_with(s, suffix)
    &&& (s.len() == suffix.len() || s[s.len() - suffix.len() - 1] == '/' || s[s.len()
        - suffix.len() - 1] == '\\')
}

/// The characters with the Unicode `White_Space` property, those that
/// trimming a string removes.
pub open spec fn is_space(c: char) -> bool {
    ||| c == ' '
    ||| ('\u{9}' <= c && c <= '\u{d}')
    ||| c == '\u{85}'
    ||| c == '\u{a0}'
    ||| c == '\u{1680}'
    ||| ('\u{2000}' <= c && c <= '\u{200a}')
    ||| c == '\u{2028}'
    ||| c == '\u{2029}'
    ||| c == '\u{202f}'
    ||| c == '\u{205f}'
    ||| c == '\u{3000}'
}

/// Every character of `s` is whitespace; true of the empty string.
pub open spec fn all_space(s: Seq<char>) -> bool {
    forall|i: int| 0 <= i < s.len() ==> is_space(#[trigger] s[i])
}

pub fn char_is_space(c: char) -> (r: bool)
    ensures
        r == is_space(c),
{
    c == ' ' || ('\u{9}' <= c && c <= '\u{d}') || c == '\u{85}' || c == '\u{a0}' || c == '\u{1680}'
        || ('\u{2000}' <= c && c <= '\u{200a}') || c == '\u{2028}' || c == '\u{2029}' || c
        == '\u{202f}' || c == '\u{205f}' || c == '\u{3000}'
}

pub fn str_is_blank(s: &str) -> (r: bool)
    ensures
        r == all_space(s@),
{
    let n = s.unicode_len();
    let mut j: usize = 0;
    while j < n
        invariant
            n == s@.len(),
            j <= n,
            forall|t: int| 0 <= t < j ==> is_space(#[trigger] s@[t]),
        decreases n - j,
    {
        if !char_is_space(s.get_char(j)) {
            return false;
        }
        j = j + 1;
    }
    true
}

/// `s` cut to at most `n` characters.
pub open spec fn crop(s: Seq<char>, n: int) -> Seq<char> {
    if s.len() <= n {
        s
    } else {
        s.take(n)
    }
}

pub fn truncate_chars(s: &str, n: usize) -> (r: String)
    ensures
        r@ == crop(s@, n as int),
{
    let len = s.unicode_len();
    if len <= n {
        s.to_owned()
    } else {
        let cut = s.substring_char(0, n);
        proof {
            assert(s@.subrange(0, n as int) =~= s@.take(n as int));
        }
        cut.to_owned()
    }
}

} // verus!
