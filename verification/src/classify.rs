//! Classification of one line of the document body.
//!
//! A line is an issue header when it matches `* <id> (<description>)`,
//! with `<id>` a run of word characters, a hyphen, and a run of digits;
//! a worklog entry when it matches `CLOCK: [<start>]--[<end>] =>` with both
//! timestamps in the literal `YYYY-MM-DD Www HH:MM` format; and
//! insignificant otherwise. Both patterns are searched for anywhere in the
//! line, leftmost occurrence first, and the free-text captures are greedy:
//! the description runs to the last `)` of the line, and the two bracketed
//! captures take the last `]--[` and `] =>` that still leave a full match.

use vstd::prelude::*;
use crate::chars::{is_word_char, is_digit_char, word_char, digit_char, matches_at, pat_at};
use crate::timestamp::{Timestamp, ts_valid, ts_value, parse_timestamp};

verus! {

/// Why a line could not be classified.
#[derive(Debug, Clone, Copy, PartialEq, Eq, Structural)]
pub enum LineError {
    /// The line has the clock shape, but a bracketed timestamp is not in
    /// the `YYYY-MM-DD Www HH:MM` format or names no real date or time.
    BadTimestamp,
}

/// The classification of one line.
#[derive(Debug, Clone, PartialEq)]
pub enum LineType {
    /// A line neither pattern matches.
    Nothing,
    /// An issue header `* <id> (<description>)`.
    Issue { id: String, description: String },
    /// A clock line with two well-formed timestamps.
    Worklog { start: Timestamp, end: Timestamp },
}

/// The mathematical classification of a line: as `LineType`, with `Bad` for
/// the one failing case, a clock-shaped line with a malformed timestamp.
pub enum SpecLine {
    Nothing,
    Issue { id: Seq<char>, description: Seq<char> },
    Worklog { start: Timestamp, end: Timestamp },
    Bad,
}

impl View for LineType {
    type V = SpecLine;

    open spec fn view(&self) -> SpecLine {
        match self {
            LineType::Nothing => SpecLine::Nothing,
            LineType::Issue { id, description } => SpecLine::Issue {
                id: id@,
                description: description@,
            },
            LineType::Worklog { start, end } => SpecLine::Worklog { start: *start, end: *end },
        }
    }
}

// ---------------------------------------------------------------------------
// The issue-header pattern.
// ---------------------------------------------------------------------------

/// `* <word run>-<digit run> (` occurs at `i`: `we` is the position of the
/// hyphen, `de` the position of the space before the opening parenthesis.
pub open spec fn issue_head_at(s: Seq<char>, i: int, we: int, de: int) -> bool {
    &&& 0 <= i
    &&& i + 2 <= we
    &&& we + 1 <= de
    &&& de + 1 < s.len()
    &&& s[i] == '*'
    &&& s[i + 1] == ' '
    &&& (forall|k: int| i + 2 <= k < we ==> is_word_char(s[k]))
    &&& s[we] == '-'
    &&& (forall|k: int| we + 1 <= k < de ==> is_digit_char(s[k]))
    &&& s[de] == ' '
    &&& s[de + 1] == '('
}

/// Some `)` stands at or after position `from`.
pub open spec fn rparen_after(s: Seq<char>, from: int) -> bool {
    exists|j: int| from <= j < s.len() && s[j] == ')'
}

/// `j` is the last `)` of the line at or after `from`.
pub open spec fn last_rparen_at(s: Seq<char>, from: int, j: int) -> bool {
    &&& from <= j < s.len()
    &&& s[j] == ')'
    &&& (forall|k: int| j < k < s.len() ==> s[k] != ')')
}

pub open spec fn last_rparen(s: Seq<char>, from: int) -> int {
    choose|j: int| last_rparen_at(s, from, j)
}

/// The whole issue pattern matches starting at `i`.
pub open spec fn issue_at(s: Seq<char>, i: int) -> bool {
    exists|we: int, de: int| issue_head_at(s, i, we, de) && rparen_after(s, de + 2)
}

pub open spec fn has_issue(s: Seq<char>) -> bool {
    exists|i: int| issue_at(s, i)
}

/// The issue pattern matches at `i` and nowhere earlier.
pub open spec fn first_issue_at(s: Seq<char>, i: int) -> bool {
    &&& issue_at(s, i)
    &&& (forall|j: int| 0 <= j < i ==> !issue_at(s, j))
}

pub open spec fn issue_pos(s: Seq<char>) -> int {
    choose|i: int| first_issue_at(s, i)
}

/// Hyphen and space positions of the match at `i`.
pub open spec fn issue_bounds(s: Seq<char>, i: int) -> (int, int) {
    choose|we: int, de: int| issue_head_at(s, i, we, de) && rparen_after(s, de + 2)
}

/// The id captured by the leftmost issue match: word run, hyphen, digit run.
pub open spec fn issue_id(s: Seq<char>) -> Seq<char> {
    let i = issue_pos(s);
    let (we, de) = issue_bounds(s, i);
    s.subrange(i + 2, de)
}

/// The description captured by the leftmost issue match: from after the
/// opening parenthesis to the last `)` of the line.
pub open spec fn issue_desc(s: Seq<char>) -> Seq<char> {
    let i = issue_pos(s);
    let (we, de) = issue_bounds(s, i);
    s.subrange(de + 2, last_rparen(s, de + 2))
}

/// The hyphen and space positions of an issue match at `i` are unique: the
/// word run must end at the first non-word character, which must be the
/// hyphen, and likewise for the digit run and the space.
pub proof fn lemma_issue_head_unique(s: Seq<char>, i: int, we1: int, de1: int, we2: int, de2: int)
    requires
        issue_head_at(s, i, we1, de1),
        issue_head_at(s, i, we2, de2),
    ensures
        we1 == we2,
        de1 == de2,
{
    assert(!is_word_char('-'));
    assert(!is_digit_char(' '));
    if we1 < we2 {
        assert(is_word_char(s[we1]));
        assert(false);
    }
    if we2 < we1 {
        assert(is_word_char(s[we2]));
        assert(false);
    }
    if de1 < de2 {
        assert(is_digit_char(s[de1]));
        assert(false);
    }
    if de2 < de1 {
        assert(is_digit_char(s[de2]));
        assert(false);
    }
}

// ---------------------------------------------------------------------------
// The worklog (clock) pattern.
// ---------------------------------------------------------------------------

/// The opening text of a clock line.
pub open spec fn clock_pat() -> Seq<char> {
    seq!['C', 'L', 'O', 'C', 'K', ':', ' ', '[']
}

/// The separator between the two bracketed timestamps.
pub open spec fn sep_pat() -> Seq<char> {
    seq![']', '-', '-', '[']
}

/// The closing bracket and arrow after the second timestamp.
pub open spec fn arrow_pat() -> Seq<char> {
    seq![']', ' ', '=', '>']
}

pub open spec fn clock_at(s: Seq<char>, i: int) -> bool {
    matches_at(s, i, clock_pat())
}

pub open spec fn has_clock(s: Seq<char>) -> bool {
    exists|i: int| clock_at(s, i)
}

pub open spec fn first_clock_at(s: Seq<char>, i: int) -> bool {
    &&& clock_at(s, i)
    &&& (forall|j: int| 0 <= j < i ==> !clock_at(s, j))
}

pub open spec fn clock_pos(s: Seq<char>) -> int {
    choose|i: int| first_clock_at(s, i)
}

pub open spec fn arrow_at(s: Seq<char>, q: int) -> bool {
    matches_at(s, q, arrow_pat())
}

pub open spec fn has_arrow(s: Seq<char>) -> bool {
    exists|q: int| arrow_at(s, q)
}

/// `q` is the last `] =>` of the line.
pub open spec fn last_arrow_at(s: Seq<char>, q: int) -> bool {
    &&& arrow_at(s, q)
    &&& (forall|k: int| k > q ==> !arrow_at(s, k))
}

pub open spec fn arrow_pos(s: Seq<char>) -> int {
    choose|q: int| last_arrow_at(s, q)
}

pub open spec fn sep_at(s: Seq<char>, p: int) -> bool {
    matches_at(s, p, sep_pat())
}

/// `p` can serve as the `]--[` of a match that opens at `i`: it leaves room
/// for the first capture before it and reaches an arrow at `q` or earlier.
pub open spec fn sep_ok(s: Seq<char>, i: int, q: int, p: int) -> bool {
    &&& sep_at(s, p)
    &&& i + 8 <= p
    &&& p + 4 <= q
}

/// `p` is the last feasible separator: the greedy first capture.
pub open spec fn last_sep_at(s: Seq<char>, i: int, q: int, p: int) -> bool {
    &&& sep_ok(s, i, q, p)
    &&& (forall|k: int| k > p ==> !sep_ok(s, i, q, k))
}

pub open spec fn sep_pos(s: Seq<char>) -> int {
    choose|p: int| last_sep_at(s, clock_pos(s), arrow_pos(s), p)
}

/// The line matches `CLOCK: [<a>]--[<b>] =>` somewhere: it has the clock
/// opening, and after the leftmost one a separator with an arrow after it.
pub open spec fn worklog_shape(s: Seq<char>) -> bool {
    &&& has_clock(s)
    &&& has_arrow(s)
    &&& (exists|p: int| sep_ok(s, clock_pos(s), arrow_pos(s), p))
}

/// The first bracketed capture of a clock line.
pub open spec fn worklog_start_str(s: Seq<char>) -> Seq<char> {
    s.subrange(clock_pos(s) + 8, sep_pos(s))
}

/// The second bracketed capture of a clock line.
pub open spec fn worklog_end_str(s: Seq<char>) -> Seq<char> {
    s.subrange(sep_pos(s) + 4, arrow_pos(s))
}

// ---------------------------------------------------------------------------
// Classification.
// ---------------------------------------------------------------------------

/// What classification yields on a line: the issue pattern is tried first,
/// then the clock pattern; a line matching neither is insignificant. The one
/// failing case is a clock-shaped line whose timestamps do not both parse.
pub open spec fn spec_classify(s: Seq<char>) -> SpecLine {
    if has_issue(s) {
        SpecLine::Issue { id: issue_id(s), description: issue_desc(s) }
    } else if worklog_shape(s) {
        let a = worklog_start_str(s);
        let b = worklog_end_str(s);
        if ts_valid(a) && ts_valid(b) {
            SpecLine::Worklog { start: ts_value(a), end: ts_value(b) }
        } else {
            SpecLine::Bad
        }
    } else {
        SpecLine::Nothing
    }
}

// ---------------------------------------------------------------------------
// Executable search.
// ---------------------------------------------------------------------------

/// Finds the last occurrence of `c` in `line`.
fn find_last_char(line: &str, c: char) -> (r: Option<usize>)
    ensures
        match r {
            Some(j) => j < line@.len() && line@[j as int] == c && (forall|k: int|
                j < k < line@.len() ==> line@[k] != c),
            None => forall|k: int| 0 <= k < line@.len() ==> line@[k] != c,
        },
{
    let n = line.unicode_len();
    let mut j = n;
    while j > 0
        invariant
            n == line@.len(),
            j <= n,
            forall|k: int| j <= k < n ==> line@[k] != c,
        decreases j,
    {
        j -= 1;
        if line.get_char(j) == c {
            return Some(j);
        }
    }
    None
}

/// Finds the last occurrence of `pat` in `line` that starts in
/// `[lo, hi_excl)`.
fn find_last_pat_in(line: &str, pat: &str, lo: usize, hi_excl: usize) -> (r: Option<usize>)
    requires
        pat@.len() >= 1,
    ensures
        match r {
            Some(p) => lo <= p && p < hi_excl && matches_at(line@, p as int, pat@) && (forall|
                k: int,
            |
                p < k < hi_excl ==> !matches_at(line@, k, pat@)),
            None => forall|k: int| lo <= k < hi_excl ==> !matches_at(line@, k, pat@),
        },
{
    if hi_excl <= lo {
        return None;
    }
    let mut p = hi_excl;
    while p > lo
        invariant
            lo < hi_excl,
            lo <= p <= hi_excl,
            forall|k: int| p <= k < hi_excl ==> !matches_at(line@, k, pat@),
        decreases p,
    {
        p -= 1;
        if pat_at(line, p, pat) {
            return Some(p);
        }
    }
    None
}

/// Finds the leftmost occurrence of `pat` in `line`.
fn find_first_pat(line: &str, pat: &str) -> (r: Option<usize>)
    requires
        pat@.len() >= 1,
    ensures
        match r {
            Some(i) => matches_at(line@, i as int, pat@) && (forall|j: int|
                0 <= j < i ==> !matches_at(line@, j, pat@)),
            None => forall|j: int| !matches_at(line@, j, pat@),
        },
{
    let n = line.unicode_len();
    let mut i: usize = 0;
    while i < n
        invariant
            n == line@.len(),
            forall|j: int| 0 <= j < i ==> !matches_at(line@, j, pat@),
        decreases n - i,
    {
        if pat_at(line, i, pat) {
            return Some(i);
        }
        i += 1;
    }
    proof {
        assert(forall|j: int| matches_at(line@, j, pat@) ==> 0 <= j < n);
    }
    None
}

/// Tests the structural part of the issue pattern at `i` and returns the
/// hyphen and space positions.
fn check_issue_head(line: &str, i: usize) -> (r: Option<(usize, usize)>)
    ensures
        match r {
            Some(wd) => issue_head_at(line@, i as int, wd.0 as int, wd.1 as int),
            None => forall|we: int, de: int| !issue_head_at(line@, i as int, we, de),
        },
{
    let s_len = line.unicode_len();
    proof {
        assert forall|we: int, de: int| issue_head_at(line@, i as int, we, de) implies i + 4
            < line@.len() by {}
    }
    if i >= s_len || s_len - i < 5 {
        return None;
    }
    if line.get_char(i) != '*' || line.get_char(i + 1) != ' ' {
        return None;
    }
    let mut we = i + 2;
    while we < s_len && word_char(line.get_char(we))
        invariant
            s_len == line@.len(),
            i + 2 <= we <= s_len,
            forall|k: int| i + 2 <= k < we ==> is_word_char(line@[k]),
        decreases s_len - we,
    {
        we += 1;
    }
    if we >= s_len || line.get_char(we) != '-' {
        proof {
            assert forall|we2: int, de2: int| !issue_head_at(line@, i as int, we2, de2) by {
                if issue_head_at(line@, i as int, we2, de2) {
                    assert(!is_word_char('-'));
                    if we2 < we {
                        assert(is_word_char(line@[we2]));
                        assert(false);
                    } else if we2 > we {
                        assert(is_word_char(line@[we as int]));
                        assert(false);
                    } else {
                        assert(line@[we as int] == '-');
                        assert(false);
                    }
                }
            }
        }
        return None;
    }
    let mut de = we + 1;
    while de < s_len && digit_char(line.get_char(de))
        invariant
            s_len == line@.len(),
            we + 1 <= de <= s_len,
            forall|k: int| we + 1 <= k < de ==> is_digit_char(line@[k]),
        decreases s_len - de,
    {
        de += 1;
    }
    if de >= s_len || line.get_char(de) != ' ' || de + 1 >= s_len || line.get_char(de + 1) != '(' {
        proof {
            assert forall|we2: int, de2: int| !issue_head_at(line@, i as int, we2, de2) by {
                if issue_head_at(line@, i as int, we2, de2) {
                    assert(!is_word_char('-'));
                    assert(!is_digit_char(' '));
                    if we2 < we {
                        assert(is_word_char(line@[we2]));
                        assert(false);
                    } else if we2 > we {
                        assert(is_word_char(line@[we as int]));
                        assert(false);
                    }
                    if de2 < de {
                        assert(is_digit_char(line@[de2]));
                        assert(false);
                    } else if de2 > de {
                        assert(is_digit_char(line@[de as int]));
                        assert(false);
                    }
                    assert(false);
                }
            }
        }
        return None;
    }
    Some((we, de))
}

/// Classifies one line of the document body: an issue header, a worklog
/// entry, or insignificant text. The only error is a clock-shaped line
/// whose bracketed timestamps do not both have the exact
/// `YYYY-MM-DD Www HH:MM` format with a real date and time.
pub fn parse_line(line: &str) -> (r: Result<LineType, LineError>)
    ensures
        match r {
            Ok(lt) => lt@ == spec_classify(line@) && !(spec_classify(line@) is Bad),
            Err(e) => spec_classify(line@) is Bad && e == LineError::BadTimestamp,
        },
{
    let ghost s = line@;
    let n = line.unicode_len();
    let rp = find_last_char(line, ')');

    // Issue pattern, leftmost occurrence first.
    let mut i: usize = 0;
    while i < n
        invariant
            n == s.len(),
            s == line@,
            (match rp {
                Some(j) => j < s.len() && s[j as int] == ')' && (forall|k: int|
                    j < k < s.len() ==> s[k] != ')'),
                None => forall|k: int| 0 <= k < s.len() ==> s[k] != ')',
            }),
            forall|j: int| 0 <= j < i ==> !issue_at(s, j),
        decreases n - i,
    {
        match check_issue_head(line, i) {
            Some((we, de)) => {
                let mut hit: Option<usize> = None;
                if let Some(j) = rp {
                    if j >= de + 2 {
                        hit = Some(j);
                    }
                }
                match hit {
                    Some(j) => {
                        proof {
                            assert(rparen_after(s, de as int + 2));
                            assert(issue_at(s, i as int));
                            assert(first_issue_at(s, i as int));
                            assert(exists|k: int| #[trigger] first_issue_at(s, k));
                            let ip = issue_pos(s);
                            assert(first_issue_at(s, ip));
                            if ip < i as int {
                                assert(!issue_at(s, ip));
                                assert(false);
                            }
                            if ip > i as int {
                                assert(!issue_at(s, i as int));
                                assert(false);
                            }
                            let (w2, d2) = issue_bounds(s, i as int);
                            assert(issue_head_at(s, i as int, w2, d2) && rparen_after(s, d2 + 2));
                            lemma_issue_head_unique(s, i as int, w2, d2, we as int, de as int);
                            assert(last_rparen_at(s, de as int + 2, j as int));
                            assert(exists|l: int| #[trigger] last_rparen_at(s, de as int + 2, l));
                            let lr = last_rparen(s, de as int + 2);
                            assert(last_rparen_at(s, de as int + 2, lr));
                            if lr < j as int {
                                assert(s[j as int] != ')');
                                assert(false);
                            }
                            if lr > j as int {
                                assert(s[lr] != ')');
                                assert(false);
                            }
                        }
                        let id = line.substring_char(i + 2, de).to_owned();
                        let description = line.substring_char(de + 2, j).to_owned();
                        return Ok(LineType::Issue { id, description });
                    },
                    None => {
                        proof {
                            assert forall|j2: int| !(issue_head_at(s, i as int, we as int, de as int)
                                && de as int + 2 <= j2 < s.len() && s[j2] == ')') by {
                                if de as int + 2 <= j2 < s.len() && s[j2] == ')' {
                                    match rp {
                                        Some(j) => {
                                            assert(j2 <= j as int);
                                            assert(j < de + 2);
                                            assert(false);
                                        },
                                        None => {
                                            assert(false);
                                        },
                                    }
                                }
                            }
                            assert forall|we2: int, de2: int| !(issue_head_at(s, i as int, we2, de2)
                                && rparen_after(s, de2 + 2)) by {
                                if issue_head_at(s, i as int, we2, de2) && rparen_after(s, de2 + 2) {
                                    lemma_issue_head_unique(
                                        s,
                                        i as int,
                                        we2,
                                        de2,
                                        we as int,
                                        de as int,
                                    );
                                    let j2 = choose|j2: int|
                                        de2 + 2 <= j2 < s.len() && s[j2] == ')';
                                    assert(false);
                                }
                            }
                            assert(!issue_at(s, i as int));
                        }
                    },
                }
            },
            None => {
                proof {
                    assert(!issue_at(s, i as int));
                }
            },
        }
        i += 1;
    }
    proof {
        assert(forall|j: int| issue_at(s, j) ==> 0 <= j < s.len());
        assert(!has_issue(s));
    }

    // Clock pattern.
    proof {
        reveal_strlit("CLOCK: [");
        reveal_strlit("]--[");
        reveal_strlit("] =>");
        assert("CLOCK: ["@ =~= clock_pat());
        assert("]--["@ =~= sep_pat());
        assert("] =>"@ =~= arrow_pat());
    }
    let ci = match find_first_pat(line, "CLOCK: [") {
        Some(ci) => ci,
        None => {
            proof {
                assert(!has_clock(s));
            }
            return Ok(LineType::Nothing);
        },
    };
    proof {
        assert(first_clock_at(s, ci as int));
        assert(exists|k: int| #[trigger] first_clock_at(s, k));
        let cp = clock_pos(s);
        assert(first_clock_at(s, cp));
        if cp < ci as int {
            assert(!clock_at(s, cp));
            assert(false);
        }
        if cp > ci as int {
            assert(!clock_at(s, ci as int));
            assert(false);
        }
    }
    let q = match find_last_pat_in(line, "] =>", 0, n) {
        Some(q) => q,
        None => {
            proof {
                assert(forall|k: int| arrow_at(s, k) ==> 0 <= k < s.len());
                assert(!has_arrow(s));
            }
            return Ok(LineType::Nothing);
        },
    };
    proof {
        assert(last_arrow_at(s, q as int)) by {
            assert forall|k: int| k > q as int implies !arrow_at(s, k) by {
                if arrow_at(s, k) {
                    assert(0 <= k < s.len());
                }
            }
        }
        assert(exists|k: int| #[trigger] last_arrow_at(s, k));
        let ap = arrow_pos(s);
        assert(last_arrow_at(s, ap));
        if ap < q as int {
            assert(!arrow_at(s, q as int));
            assert(false);
        }
        if ap > q as int {
            assert(!arrow_at(s, ap));
            assert(false);
        }
    }
    if q < 4 || q - 4 < ci + 8 {
        proof {
            assert forall|p: int| !sep_ok(s, ci as int, q as int, p) by {}
            assert(!worklog_shape(s));
        }
        return Ok(LineType::Nothing);
    }
    let p = match find_last_pat_in(line, "]--[", ci + 8, q - 4 + 1) {
        Some(p) => p,
        None => {
            proof {
                assert forall|p: int| !sep_ok(s, ci as int, q as int, p) by {
                    if sep_ok(s, ci as int, q as int, p) {
                        assert(ci as int + 8 <= p < q as int - 4 + 1);
                    }
                }
                assert(!worklog_shape(s));
            }
            return Ok(LineType::Nothing);
        },
    };
    proof {
        assert(sep_ok(s, ci as int, q as int, p as int));
        assert(worklog_shape(s));
        assert(last_sep_at(s, ci as int, q as int, p as int)) by {
            assert forall|k: int| k > p as int implies !sep_ok(s, ci as int, q as int, k) by {
                if sep_ok(s, ci as int, q as int, k) {
                    assert(k <= q as int - 4);
                    assert(!matches_at(s, k, sep_pat()));
                }
            }
        }
        assert(exists|k: int| #[trigger] last_sep_at(s, ci as int, q as int, k));
        let sp = sep_pos(s);
        assert(last_sep_at(s, ci as int, q as int, sp));
        if sp < p as int {
            assert(!sep_ok(s, ci as int, q as int, p as int));
            assert(false);
        }
        if sp > p as int {
            assert(!sep_ok(s, ci as int, q as int, sp));
            assert(false);
        }
        assert(sep_pos(s) == p as int);
    }
    let start_str = line.substring_char(ci + 8, p);
    let end_str = line.substring_char(p + 4, q);
    proof {
        assert(start_str@ == worklog_start_str(s));
        assert(end_str@ == worklog_end_str(s));
    }
    match (parse_timestamp(start_str), parse_timestamp(end_str)) {
        (Some(start), Some(end)) => Ok(LineType::Worklog { start, end }),
        _ => Err(LineError::BadTimestamp),
    }
}

} // verus!
