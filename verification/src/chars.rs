//! Character classes used by the line grammar, and substring matching
//! over `Seq<char>`.

use vstd::prelude::*;

verus! {

/// A word character: an ASCII letter, an ASCII digit, or an underscore.
pub open spec fn is_word_char(c: char) -> bool {
    c == '_' || ('a' <= c && c <= 'z') || ('A' <= c && c <= 'Z') || ('0' <= c && c <= '9')
}

/// An ASCII decimal digit.
pub open spec fn is_digit_char(c: char) -> bool {
    '0' <= c && c <= '9'
}

/// An ASCII letter, the only shape required of the weekday field.
pub open spec fn is_letter_char(c: char) -> bool {
    ('a' <= c && c <= 'z') || ('A' <= c && c <= 'Z')
}

pub fn word_char(c: char) -> (r: bool)
    ensures
        r == is_word_char(c),
{
    c == '_' || ('a' <= c && c <= 'z') || ('A' <= c && c <= 'Z') || ('0' <= c && c <= '9')
}

pub fn digit_char(c: char) -> (r: bool)
    ensures
        r == is_digit_char(c),
{
    '0' <= c && c <= '9'
}

pub fn letter_char(c: char) -> (r: bool)
    ensures
        r == is_letter_char(c),
{
    ('a' <= c && c <= 'z') || ('A' <= c && c <= 'Z')
}

/// `pat` occurs in `s` starting at position `i`.
pub open spec fn matches_at(s: Seq<char>, i: int, pat: Seq<char>) -> bool {
    &&& 0 <= i
    &&& i + pat.len() <= s.len()
    &&& forall|k: int| 0 <= k < pat.len() ==> s[i + k] == pat[k]
}

/// Tests whether `pat` occurs in `line` at character position `i`.
pub fn pat_at(line: &str, i: usize, pat: &str) -> (r: bool)
    ensures
        r == matches_at(line@, i as int, pat@),
{
    let n = line.unicode_len();
    let m = pat.unicode_len();
    if i > n || m > n - i {
        assert(!matches_at(line@, i as int, pat@));
        return false;
    }
    let mut k: usize = 0;
    while k < m
        invariant
            m == pat@.len(),
            n == line@.len(),
            i + m <= n,
            0 <= k <= m,
            forall|k2: int| 0 <= k2 < k ==> line@[i + k2] == pat@[k2],
        decreases m - k,
    {
        if line.get_char(i + k) != pat.get_char(k) {
            assert(!matches_at(line@, i as int, pat@));
            return false;
        }
        k += 1;
    }
    true
}

} // verus!
