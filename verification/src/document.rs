//! The document assembler: two header keyword lines, then a scan that folds
//! the classified body lines into a sequence of issues.

use vstd::prelude::*;
use crate::classify::{LineType, LineError, SpecLine, spec_classify, parse_line};
use crate::keyword::{KeywordError, keyword_result, parse_keyword};
use crate::timestamp::Timestamp;

verus! {

/// One recorded work interval against an issue. The parser enforces no
/// ordering between `start` and `end`.
#[derive(Debug, Clone, Copy, PartialEq, Eq, Structural)]
pub struct Worklog {
    pub start: Timestamp,
    pub end: Timestamp,
}

/// A tracked unit of work with the worklogs that followed its header line.
#[derive(Debug, Clone, PartialEq)]
pub struct Issue {
    pub id: String,
    pub description: String,
    pub worklogs: Vec<Worklog>,
}

/// The parsed document: the two header keyword values and the issues in
/// file order.
#[derive(Debug, Clone, PartialEq)]
pub struct ParsedData {
    pub jira_url: String,
    pub username: String,
    pub issues: Vec<Issue>,
}

/// Mathematical model of an issue.
pub struct SpecIssue {
    pub id: Seq<char>,
    pub description: Seq<char>,
    pub worklogs: Seq<Worklog>,
}

/// Mathematical model of a parsed document.
pub struct SpecDoc {
    pub jira_url: Seq<char>,
    pub username: Seq<char>,
    pub issues: Seq<SpecIssue>,
}

impl View for Issue {
    type V = SpecIssue;

    open spec fn view(&self) -> SpecIssue {
        SpecIssue { id: self.id@, description: self.description@, worklogs: self.worklogs@ }
    }
}

pub open spec fn issues_view(v: Seq<Issue>) -> Seq<SpecIssue> {
    v.map_values(|iss: Issue| iss@)
}

impl View for ParsedData {
    type V = SpecDoc;

    open spec fn view(&self) -> SpecDoc {
        SpecDoc {
            jira_url: self.jira_url@,
            username: self.username@,
            issues: issues_view(self.issues@),
        }
    }
}

/// Why a document could not be parsed, naming the stage that failed and
/// carrying the cause.
#[derive(Debug, Clone, Copy, PartialEq, Eq, Structural)]
pub enum DocError {
    /// The first line did not yield the `JIRA_URL` keyword.
    JiraUrl(KeywordError),
    /// The second line did not yield the `USERNAME` keyword.
    Username(KeywordError),
    /// A body line was clock-shaped but held a malformed timestamp.
    Line(LineError),
}

impl KeywordError {
    /// Human-readable description of this failure.
    pub fn message(&self) -> (m: &'static str)
        ensures
            m@ == match self {
                KeywordError::MarkerMissing => "keyword marker not found in line"@,
                KeywordError::EmptyValue => "keyword has an empty value"@,
            },
    {
        match self {
            KeywordError::MarkerMissing => "keyword marker not found in line",
            KeywordError::EmptyValue => "keyword has an empty value",
        }
    }
}

impl DocError {
    /// One-line context message naming the stage that failed.
    pub fn context_message(&self) -> (m: &'static str)
        ensures
            m@ == match self {
                DocError::JiraUrl(_) => "unable to parse JIRA_URL"@,
                DocError::Username(_) => "unable to parse USERNAME"@,
                DocError::Line(_) => "unable to parse line"@,
            },
    {
        match self {
            DocError::JiraUrl(_) => "unable to parse JIRA_URL",
            DocError::Username(_) => "unable to parse USERNAME",
            DocError::Line(_) => "unable to parse line",
        }
    }

    /// Human-readable description of the root cause.
    pub fn cause_message(&self) -> (m: &'static str)
        ensures
            m@ == match self {
                DocError::JiraUrl(e) => match e {
                    KeywordError::MarkerMissing => "keyword marker not found in line"@,
                    KeywordError::EmptyValue => "keyword has an empty value"@,
                },
                DocError::Username(e) => match e {
                    KeywordError::MarkerMissing => "keyword marker not found in line"@,
                    KeywordError::EmptyValue => "keyword has an empty value"@,
                },
                DocError::Line(_) => "a clock timestamp is malformed"@,
            },
    {
        match self {
            DocError::JiraUrl(e) => e.message(),
            DocError::Username(e) => e.message(),
            DocError::Line(_) => "a clock timestamp is malformed",
        }
    }
}

// ---------------------------------------------------------------------------
// The scanning state machine.
// ---------------------------------------------------------------------------

/// State of the body scan: the current issue identity, the worklogs
/// accumulated for it, and the finished issues.
pub struct ScanState {
    pub cur_id: Seq<char>,
    pub cur_desc: Seq<char>,
    pub pending: Seq<Worklog>,
    pub done: Seq<SpecIssue>,
}

/// The scan starts with an empty identity and nothing accumulated.
pub open spec fn init_state() -> ScanState {
    ScanState {
        cur_id: Seq::empty(),
        cur_desc: Seq::empty(),
        pending: Seq::empty(),
        done: Seq::empty(),
    }
}

/// Flushing appends the current identity with its pending worklogs — but
/// only when some worklog is pending: an issue that accumulated none is
/// dropped, not emitted.
pub open spec fn flush(st: ScanState) -> Seq<SpecIssue> {
    if st.pending.len() > 0 {
        st.done.push(SpecIssue { id: st.cur_id, description: st.cur_desc, worklogs: st.pending })
    } else {
        st.done
    }
}

/// An issue header flushes the pending worklogs and replaces the identity.
pub open spec fn step_issue(st: ScanState, id: Seq<char>, description: Seq<char>) -> ScanState {
    ScanState { cur_id: id, cur_desc: description, pending: Seq::empty(), done: flush(st) }
}

/// A worklog entry is appended to the pending list.
pub open spec fn step_worklog(st: ScanState, w: Worklog) -> ScanState {
    ScanState {
        cur_id: st.cur_id,
        cur_desc: st.cur_desc,
        pending: st.pending.push(w),
        done: st.done,
    }
}

/// Folds the classified body lines into the finished issues, flushing once
/// at end of input; `None` when some line fails to classify.
pub open spec fn scan_lines(lines: Seq<Seq<char>>, st: ScanState) -> Option<Seq<SpecIssue>>
    decreases lines.len(),
{
    if lines.len() == 0 {
        Some(flush(st))
    } else {
        match spec_classify(lines[0]) {
            SpecLine::Bad => None,
            SpecLine::Nothing => scan_lines(lines.drop_first(), st),
            SpecLine::Issue { id, description } => scan_lines(
                lines.drop_first(),
                step_issue(st, id, description),
            ),
            SpecLine::Worklog { start, end } => scan_lines(
                lines.drop_first(),
                step_worklog(st, Worklog { start, end }),
            ),
        }
    }
}

pub open spec fn jira_url_key() -> Seq<char> {
    "JIRA_URL"@
}

pub open spec fn username_key() -> Seq<char> {
    "USERNAME"@
}

/// Line `i` of the document, the empty line past end of input.
pub open spec fn line_at(lines: Seq<Seq<char>>, i: int) -> Seq<char> {
    if 0 <= i < lines.len() {
        lines[i]
    } else {
        Seq::empty()
    }
}

/// Every line after the two header lines.
pub open spec fn body_lines(lines: Seq<Seq<char>>) -> Seq<Seq<char>> {
    if lines.len() >= 2 {
        lines.subrange(2, lines.len() as int)
    } else {
        Seq::empty()
    }
}

/// What parsing yields on a document given as its lines: line one must
/// carry `JIRA_URL`, line two `USERNAME`, and the remaining lines are
/// folded into issues; the first failure aborts the whole parse.
pub open spec fn spec_document(lines: Seq<Seq<char>>) -> Result<SpecDoc, DocError> {
    match keyword_result(jira_url_key(), line_at(lines, 0)) {
        Err(e) => Err(DocError::JiraUrl(e)),
        Ok(url) => match keyword_result(username_key(), line_at(lines, 1)) {
            Err(e) => Err(DocError::Username(e)),
            Ok(user) => match scan_lines(body_lines(lines), init_state()) {
                None => Err(DocError::Line(LineError::BadTimestamp)),
                Some(issues) => Ok(SpecDoc { jira_url: url, username: user, issues }),
            },
        },
    }
}

/// Parses a whole document given as its lines, without terminators: the
/// first line must carry `#+JIRA_URL: `, the second `#+USERNAME: `, and
/// every further line is an issue header, a worklog entry, or ignored.
#[verifier::loop_isolation(false)]
pub fn parse_document(lines: &Vec<String>) -> (r: Result<ParsedData, DocError>)
    ensures
        match r {
            Ok(pd) => spec_document(lines.deep_view()) == Ok::<SpecDoc, DocError>(pd@),
            Err(e) => spec_document(lines.deep_view()) == Err::<SpecDoc, DocError>(e),
        },
{
    let ghost ls = lines.deep_view();
    proof {
        reveal_strlit("");
        assert(""@ =~= Seq::<char>::empty());
    }

    let first: &str = if lines.len() >= 1 {
        lines[0].as_str()
    } else {
        ""
    };
    proof {
        assert(first@ == line_at(ls, 0));
    }
    let jira_url = match parse_keyword("JIRA_URL", first) {
        Ok(v) => v,
        Err(e) => {
            return Err(DocError::JiraUrl(e));
        },
    };

    let second: &str = if lines.len() >= 2 {
        lines[1].as_str()
    } else {
        ""
    };
    proof {
        assert(second@ == line_at(ls, 1));
    }
    let username = match parse_keyword("USERNAME", second) {
        Ok(v) => v,
        Err(e) => {
            return Err(DocError::Username(e));
        },
    };

    let ghost body = body_lines(ls);
    let mut issues: Vec<Issue> = Vec::new();
    let mut worklogs: Vec<Worklog> = Vec::new();
    let mut last_id: String = String::new();
    let mut last_description: String = String::new();

    let mut idx: usize = 2;
    proof {
        assert(body.subrange(0, body.len() as int) =~~= body);
        assert(issues_view(issues@) =~= Seq::<SpecIssue>::empty());
        assert((ScanState {
            cur_id: last_id@,
            cur_desc: last_description@,
            pending: worklogs@,
            done: issues_view(issues@),
        }) == init_state());
    }
    while idx < lines.len()
        invariant
            2 <= idx,
            idx <= lines@.len() || idx == 2,
            ls == lines.deep_view(),
            body == body_lines(ls),
            idx - 2 <= body.len(),
            scan_lines(
                body.subrange(idx - 2, body.len() as int),
                (ScanState {
                    cur_id: last_id@,
                    cur_desc: last_description@,
                    pending: worklogs@,
                    done: issues_view(issues@),
                }),
            ) == scan_lines(body, init_state()),
        decreases lines@.len() - idx,
    {
        let ghost st = ScanState {
            cur_id: last_id@,
            cur_desc: last_description@,
            pending: worklogs@,
            done: issues_view(issues@),
        };
        let ghost rest = body.subrange(idx - 2, body.len() as int);
        proof {
            assert(body.len() == ls.len() - 2);
            assert(rest.len() > 0);
            assert(rest[0] == body[idx - 2]);
            assert(body[idx - 2] == ls[idx as int]);
            assert(lines@[idx as int]@ == ls[idx as int]);
            assert(rest.drop_first() =~= body.subrange(idx - 1, body.len() as int));
        }
        let line = &lines[idx];
        match parse_line(line.as_str()) {
            Err(e) => {
                proof {
                    assert(scan_lines(rest, st) is None);
                }
                return Err(DocError::Line(e));
            },
            Ok(lt) => {
                match lt {
                    LineType::Nothing => {
                        proof {
                            assert(scan_lines(rest, st) == scan_lines(rest.drop_first(), st));
                        }
                    },
                    LineType::Issue { id, description } => {
                        proof {
                            assert(spec_classify(rest[0]) == SpecLine::Issue {
                                id: id@,
                                description: description@,
                            });
                            assert(scan_lines(rest, st) == scan_lines(
                                rest.drop_first(),
                                step_issue(st, id@, description@),
                            ));
                        }
                        if worklogs.len() > 0 {
                            let ghost old_issues = issues@;
                            let finished = Issue {
                                id: last_id,
                                description: last_description,
                                worklogs,
                            };
                            issues.push(finished);
                            worklogs = Vec::new();
                            last_id = id;
                            last_description = description;
                            proof {
                                assert(issues_view(issues@) =~= issues_view(old_issues).push(
                                    SpecIssue {
                                        id: st.cur_id,
                                        description: st.cur_desc,
                                        worklogs: st.pending,
                                    },
                                ));
                            }
                        } else {
                            proof {
                                assert(worklogs@ =~= Seq::<Worklog>::empty());
                            }
                            last_id = id;
                            last_description = description;
                        }
                        proof {
                            assert(ScanState {
                                cur_id: last_id@,
                                cur_desc: last_description@,
                                pending: worklogs@,
                                done: issues_view(issues@),
                            } == step_issue(st, last_id@, last_description@));
                        }
                    },
                    LineType::Worklog { start, end } => {
                        proof {
                            assert(spec_classify(rest[0]) == SpecLine::Worklog {
                                start: start,
                                end: end,
                            });
                            assert(scan_lines(rest, st) == scan_lines(
                                rest.drop_first(),
                                step_worklog(st, Worklog { start, end }),
                            ));
                        }
                        worklogs.push(Worklog { start, end });
                    },
                }
            },
        }
        idx += 1;
    }
    proof {
        if ls.len() >= 2 {
            assert(body.subrange(idx - 2, body.len() as int) =~= Seq::<Seq<char>>::empty());
        } else {
            assert(body.subrange(idx - 2, body.len() as int) =~= Seq::<Seq<char>>::empty());
        }
    }
    let ghost final_st = ScanState {
        cur_id: last_id@,
        cur_desc: last_description@,
        pending: worklogs@,
        done: issues_view(issues@),
    };
    proof {
        assert(scan_lines(body, init_state()) == Some(flush(final_st)));
    }
    if worklogs.len() > 0 {
        let ghost old_issues = issues@;
        let finished = Issue { id: last_id, description: last_description, worklogs };
        issues.push(finished);
        proof {
            assert(issues_view(issues@) =~= flush(final_st));
        }
    }
    let result = ParsedData { jira_url, username, issues };
    proof {
        assert(issues_view(result.issues@) == flush(final_st));
    }
    Ok(result)
}

// ---------------------------------------------------------------------------
// Laws of the document fold.
// ---------------------------------------------------------------------------

/// Law: when the first line does not yield the `JIRA_URL` keyword, the whole
/// parse fails with that cause, whatever the remaining lines hold.
pub proof fn lemma_bad_first_line_fails(lines: Seq<Seq<char>>, e: KeywordError)
    requires
        keyword_result(jira_url_key(), line_at(lines, 0)) == Err::<Seq<char>, KeywordError>(e),
    ensures
        spec_document(lines) == Err::<SpecDoc, DocError>(DocError::JiraUrl(e)),
{
}

/// Law: in a document whose body is one issue header, two worklog lines, a
/// second issue header and one worklog line, parsing returns the two issues
/// in file order, each with its worklogs in file order.
pub proof fn lemma_document_two_issues(
    lines: Seq<Seq<char>>,
    url: Seq<char>,
    user: Seq<char>,
    id1: Seq<char>,
    d1: Seq<char>,
    id2: Seq<char>,
    d2: Seq<char>,
    w1: Worklog,
    w2: Worklog,
    w3: Worklog,
)
    requires
        lines.len() == 7,
        keyword_result(jira_url_key(), lines[0]) == Ok::<Seq<char>, KeywordError>(url),
        keyword_result(username_key(), lines[1]) == Ok::<Seq<char>, KeywordError>(user),
        spec_classify(lines[2]) == (SpecLine::Issue { id: id1, description: d1 }),
        spec_classify(lines[3]) == (SpecLine::Worklog { start: w1.start, end: w1.end }),
        spec_classify(lines[4]) == (SpecLine::Worklog { start: w2.start, end: w2.end }),
        spec_classify(lines[5]) == (SpecLine::Issue { id: id2, description: d2 }),
        spec_classify(lines[6]) == (SpecLine::Worklog { start: w3.start, end: w3.end }),
    ensures
        spec_document(lines) == Ok::<SpecDoc, DocError>(
            SpecDoc {
                jira_url: url,
                username: user,
                issues: seq![
                    SpecIssue { id: id1, description: d1, worklogs: seq![w1, w2] },
                    SpecIssue { id: id2, description: d2, worklogs: seq![w3] },
                ],
            },
        ),
{
    let b0 = body_lines(lines);
    assert(b0.len() == 5);
    assert(b0[0] == lines[2] && b0[1] == lines[3] && b0[2] == lines[4] && b0[3] == lines[5]
        && b0[4] == lines[6]);
    let st1 = step_issue(init_state(), id1, d1);
    let b1 = b0.drop_first();
    assert(scan_lines(b0, init_state()) == scan_lines(b1, st1));
    let st2 = step_worklog(st1, w1);
    let b2 = b1.drop_first();
    assert(b1[0] == lines[3]);
    assert(scan_lines(b1, st1) == scan_lines(b2, st2));
    let st3 = step_worklog(st2, w2);
    let b3 = b2.drop_first();
    assert(b2[0] == lines[4]);
    assert(scan_lines(b2, st2) == scan_lines(b3, st3));
    let st4 = step_issue(st3, id2, d2);
    let b4 = b3.drop_first();
    assert(b3[0] == lines[5]);
    assert(scan_lines(b3, st3) == scan_lines(b4, st4));
    let st5 = step_worklog(st4, w3);
    let b5 = b4.drop_first();
    assert(b4[0] == lines[6]);
    assert(scan_lines(b4, st4) == scan_lines(b5, st5));
    assert(b5.len() == 0);
    assert(scan_lines(b5, st5) == Some(flush(st5)));
    assert(st3.pending =~= seq![w1, w2]);
    assert(st5.pending =~= seq![w3]);
    assert(flush(st5) =~= seq![
        SpecIssue { id: id1, description: d1, worklogs: st3.pending },
        SpecIssue { id: id2, description: d2, worklogs: st5.pending },
    ]);
    assert(line_at(lines, 0) == lines[0]);
    assert(line_at(lines, 1) == lines[1]);
}

/// Law (a preserved quirk of the fold): an issue header immediately followed
/// by another issue header is dropped from the result — nothing is flushed
/// for an issue that accumulated no worklog, unless it is the last one.
pub proof fn lemma_leading_issue_without_worklogs_dropped(
    lines: Seq<Seq<char>>,
    url: Seq<char>,
    user: Seq<char>,
    id1: Seq<char>,
    d1: Seq<char>,
    id2: Seq<char>,
    d2: Seq<char>,
    w: Worklog,
)
    requires
        lines.len() == 5,
        keyword_result(jira_url_key(), lines[0]) == Ok::<Seq<char>, KeywordError>(url),
        keyword_result(username_key(), lines[1]) == Ok::<Seq<char>, KeywordError>(user),
        spec_classify(lines[2]) == (SpecLine::Issue { id: id1, description: d1 }),
        spec_classify(lines[3]) == (SpecLine::Issue { id: id2, description: d2 }),
        spec_classify(lines[4]) == (SpecLine::Worklog { start: w.start, end: w.end }),
    ensures
        spec_document(lines) == Ok::<SpecDoc, DocError>(
            SpecDoc {
                jira_url: url,
                username: user,
                issues: seq![SpecIssue { id: id2, description: d2, worklogs: seq![w] }],
            },
        ),
{
    let b0 = body_lines(lines);
    assert(b0.len() == 3);
    assert(b0[0] == lines[2] && b0[1] == lines[3] && b0[2] == lines[4]);
    let st1 = step_issue(init_state(), id1, d1);
    let b1 = b0.drop_first();
    assert(scan_lines(b0, init_state()) == scan_lines(b1, st1));
    let st2 = step_issue(st1, id2, d2);
    let b2 = b1.drop_first();
    assert(b1[0] == lines[3]);
    assert(scan_lines(b1, st1) == scan_lines(b2, st2));
    assert(st2.done =~= Seq::<SpecIssue>::empty());
    let st3 = step_worklog(st2, w);
    let b3 = b2.drop_first();
    assert(b2[0] == lines[4]);
    assert(scan_lines(b2, st2) == scan_lines(b3, st3));
    assert(b3.len() == 0);
    assert(scan_lines(b3, st3) == Some(flush(st3)));
    assert(st3.pending =~= seq![w]);
    assert(flush(st3) =~= seq![SpecIssue { id: id2, description: d2, worklogs: st3.pending }]);
    assert(line_at(lines, 0) == lines[0]);
    assert(line_at(lines, 1) == lines[1]);
}

} // verus!
