//! Extraction of a header keyword value from a line of the form
//! `#+<KEY>: <value>`.

use vstd::prelude::*;

verus! {

/// Why a header keyword could not be extracted from a line.
#[derive(Debug, Clone, Copy, PartialEq, Eq, Structural)]
pub enum KeywordError {
    /// The line holds no `#+<KEY>: ` marker for the requested key.
    MarkerMissing,
    /// The marker is present but nothing follows the colon and space.
    EmptyValue,
}

/// The marker `#+<key>: ` occurs in `line` starting at position `i`.
pub open spec fn marker_at(line: Seq<char>, key: Seq<char>, i: int) -> bool {
    &&& 0 <= i
    &&& i + key.len() + 4 <= line.len()
    &&& line[i] == '#'
    &&& line[i + 1] == '+'
    &&& (forall|k: int| 0 <= k < key.len() ==> line[i + 2 + k] == key[k])
    &&& line[i + 2 + key.len()] == ':'
    &&& line[i + 3 + key.len()] == ' '
}

pub open spec fn has_marker(line: Seq<char>, key: Seq<char>) -> bool {
    exists|i: int| marker_at(line, key, i)
}

/// The marker occurs at `i` and nowhere earlier.
pub open spec fn first_marker_at(line: Seq<char>, key: Seq<char>, i: int) -> bool {
    &&& marker_at(line, key, i)
    &&& forall|j: int| 0 <= j < i ==> !marker_at(line, key, j)
}

/// Position of the leftmost marker occurrence.
pub open spec fn marker_pos(line: Seq<char>, key: Seq<char>) -> int {
    choose|i: int| first_marker_at(line, key, i)
}

/// Everything after the leftmost marker, to the end of the line.
pub open spec fn keyword_value(line: Seq<char>, key: Seq<char>) -> Seq<char> {
    line.subrange(marker_pos(line, key) + key.len() + 4, line.len() as int)
}

/// What extraction returns on `line` for `key`: the text after the leftmost
/// `#+<key>: ` marker, or the error naming what is wrong with the line.
pub open spec fn keyword_result(key: Seq<char>, line: Seq<char>) -> Result<
    Seq<char>,
    KeywordError,
> {
    if !has_marker(line, key) {
        Err(KeywordError::MarkerMissing)
    } else if keyword_value(line, key).len() == 0 {
        Err(KeywordError::EmptyValue)
    } else {
        Ok(keyword_value(line, key))
    }
}

/// A line with a marker occurrence has a leftmost one.
pub proof fn lemma_first_marker_exists(line: Seq<char>, key: Seq<char>)
    requires
        has_marker(line, key),
    ensures
        first_marker_at(line, key, marker_pos(line, key)),
{
    let i = choose|i: int| marker_at(line, key, i);
    lemma_first_marker_below(line, key, i);
    assert(exists|j: int| first_marker_at(line, key, j));
}

proof fn lemma_first_marker_below(line: Seq<char>, key: Seq<char>, i: int)
    requires
        marker_at(line, key, i),
    ensures
        exists|j: int| 0 <= j <= i && first_marker_at(line, key, j),
    decreases i,
{
    if forall|j: int| 0 <= j < i ==> !marker_at(line, key, j) {
        assert(first_marker_at(line, key, i));
    } else {
        let j = choose|j: int| 0 <= j < i && marker_at(line, key, j);
        lemma_first_marker_below(line, key, j);
    }
}

/// There is at most one leftmost marker position.
pub proof fn lemma_first_marker_unique(line: Seq<char>, key: Seq<char>, i: int, j: int)
    requires
        first_marker_at(line, key, i),
        first_marker_at(line, key, j),
    ensures
        i == j,
{
}

/// Tests whether the marker `#+<key>: ` occurs in `line` at position `i`.
fn marker_check(line: &str, key: &str, i: usize) -> (r: bool)
    ensures
        r == marker_at(line@, key@, i as int),
{
    let n = line.unicode_len();
    let m = key.unicode_len();
    if i > n || m > n - i || (n - i) - m < 4 {
        return false;
    }
    if line.get_char(i) != '#' || line.get_char(i + 1) != '+' {
        return false;
    }
    let mut k: usize = 0;
    while k < m
        invariant
            m == key@.len(),
            n == line@.len(),
            i + m + 4 <= n,
            0 <= k <= m,
            forall|k2: int| 0 <= k2 < k ==> line@[i + 2 + k2] == key@[k2],
        decreases m - k,
    {
        if line.get_char(i + 2 + k) != key.get_char(k) {
            assert(!marker_at(line@, key@, i as int));
            return false;
        }
        k += 1;
    }
    line.get_char(i + 2 + m) == ':' && line.get_char(i + 3 + m) == ' '
}

/// Extracts the value of the header keyword `key` from `line`: everything
/// after the leftmost `#+<key>: ` marker, to the end of the line, untrimmed.
/// Fails when the line holds no such marker, or when nothing follows it.
pub fn parse_keyword(key: &str, line: &str) -> (r: Result<String, KeywordError>)
    ensures
        match r {
            Ok(v) => keyword_result(key@, line@) == Ok::<Seq<char>, KeywordError>(v@),
            Err(e) => keyword_result(key@, line@) == Err::<Seq<char>, KeywordError>(e),
        },
{
    let n = line.unicode_len();
    let m = key.unicode_len();
    let mut i: usize = 0;
    while i < n
        invariant
            n == line@.len(),
            m == key@.len(),
            forall|j: int| 0 <= j < i ==> !marker_at(line@, key@, j),
        decreases n - i,
    {
        if marker_check(line, key, i) {
            proof {
                assert(first_marker_at(line@, key@, i as int));
                lemma_first_marker_exists(line@, key@);
                lemma_first_marker_unique(
                    line@,
                    key@,
                    marker_pos(line@, key@),
                    i as int,
                );
            }
            let start = i + 2 + m + 2;
            if start == n {
                return Err(KeywordError::EmptyValue);
            }
            let v = line.substring_char(start, n).to_owned();
            assert(v@ == keyword_value(line@, key@));
            return Ok(v);
        }
        i += 1;
    }
    proof {
        assert(forall|j: int| marker_at(line@, key@, j) ==> 0 <= j < n);
        assert(!has_marker(line@, key@));
    }
    Err(KeywordError::MarkerMissing)
}

/// Law: for every key and every non-empty value, extraction from the line
/// `#+<key>: <value>` returns exactly `value`, with no trimming.
pub proof fn lemma_keyword_extracts_value(key: Seq<char>, value: Seq<char>)
    requires
        value.len() > 0,
    ensures
        keyword_result(key, seq!['#', '+'] + key + seq![':', ' '] + value) == Ok::<
            Seq<char>,
            KeywordError,
        >(value),
{
    let line = seq!['#', '+'] + key + seq![':', ' '] + value;
    assert(marker_at(line, key, 0));
    assert(first_marker_at(line, key, 0));
    lemma_first_marker_exists(line, key);
    lemma_first_marker_unique(line, key, marker_pos(line, key), 0);
    assert(keyword_value(line, key) =~= value);
}

/// Law: on a line without the marker of `key`, extraction fails with
/// `MarkerMissing`.
pub proof fn lemma_keyword_fails_without_marker(key: Seq<char>, line: Seq<char>)
    requires
        forall|i: int| !marker_at(line, key, i),
    ensures
        keyword_result(key, line) == Err::<Seq<char>, KeywordError>(KeywordError::MarkerMissing),
{
}

/// Law: on the line `#+<key>: ` with nothing after the marker, extraction
/// fails with `EmptyValue` rather than returning the empty string.
pub proof fn lemma_keyword_fails_on_empty_value(key: Seq<char>)
    ensures
        keyword_result(key, seq!['#', '+'] + key + seq![':', ' ']) == Err::<
            Seq<char>,
            KeywordError,
        >(KeywordError::EmptyValue),
{
    let line = seq!['#', '+'] + key + seq![':', ' '];
    assert(marker_at(line, key, 0));
    assert(first_marker_at(line, key, 0));
    lemma_first_marker_exists(line, key);
    lemma_first_marker_unique(line, key, marker_pos(line, key), 0);
    assert(keyword_value(line, key).len() == 0);
}

} // verus!

