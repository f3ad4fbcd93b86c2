use jira_worklog::classify::{parse_line, LineError, LineType};
use jira_worklog::document::{parse_document, DocError, Worklog};
use jira_worklog::keyword::{parse_keyword, KeywordError};
use jira_worklog::timestamp::{parse_timestamp, Timestamp};

fn ts(year: u32, month: u32, day: u32, hour: u32, minute: u32) -> Timestamp {
    Timestamp { year, month, day, hour, minute }
}

#[test]
fn test_parse_keyword() {
    assert_eq!(
        parse_keyword("JIRA_URL", "#+JIRA_URL: https://my_project.atlassian.net/").unwrap(),
        String::from("https://my_project.atlassian.net/")
    );
    assert_eq!(
        parse_keyword("USERNAME", "#+USERNAME: username").unwrap(),
        String::from("username")
    );
    assert!(parse_keyword("USERNAME", "#+JIRA_URL: https://my_project.atlassian.net/").is_err());
    assert!(parse_keyword("USERNAME", "#+USERNAME:").is_err());
}

#[test]
fn test_parse_line() {
    assert_eq!(parse_line("").unwrap(), LineType::Nothing);
    assert_eq!(
        parse_line("* ABC-1 (Take a nap)").unwrap(),
        LineType::Issue {
            id: String::from("ABC-1"),
            description: String::from("Take a nap"),
        }
    );
    assert_eq!(
        parse_line("CLOCK: [2017-07-28 Fri 15:00]--[2017-07-28 Fri 17:30] =>  2:30").unwrap(),
        LineType::Worklog {
            start: ts(2017, 7, 28, 15, 0),
            end: ts(2017, 7, 28, 17, 30),
        }
    );
    assert_eq!(parse_line("* ABC-1").unwrap(), LineType::Nothing);
    assert_eq!(parse_line("CLOCK: [2017-07-28 Fri 15:00]").unwrap(), LineType::Nothing);
}

#[test]
fn keyword_value_is_not_trimmed() {
    assert_eq!(
        parse_keyword("KEY", "#+KEY: a  b ").unwrap(),
        String::from("a  b ")
    );
}

#[test]
fn keyword_marker_anywhere_in_line() {
    assert_eq!(
        parse_keyword("KEY", "prefix #+KEY: v").unwrap(),
        String::from("v")
    );
}

#[test]
fn keyword_marker_missing_error() {
    assert_eq!(
        parse_keyword("USERNAME", "no marker here"),
        Err(KeywordError::MarkerMissing)
    );
    assert_eq!(
        parse_keyword("USERNAME", "#+XUSERNAME: v"),
        Err(KeywordError::MarkerMissing)
    );
}

#[test]
fn keyword_empty_value_error() {
    assert_eq!(
        parse_keyword("USERNAME", "#+USERNAME: "),
        Err(KeywordError::EmptyValue)
    );
}

#[test]
fn issue_description_is_greedy_to_last_rparen() {
    assert_eq!(
        parse_line("* A-1 (a) (b)").unwrap(),
        LineType::Issue {
            id: String::from("A-1"),
            description: String::from("a) (b"),
        }
    );
}

#[test]
fn issue_header_found_past_line_start() {
    assert_eq!(
        parse_line("  * DEF-42 (indented)").unwrap(),
        LineType::Issue {
            id: String::from("DEF-42"),
            description: String::from("indented"),
        }
    );
}

#[test]
fn issue_id_runs_may_be_empty() {
    // The id pattern is a word run, a hyphen, a digit run; both runs may be
    // empty.
    assert_eq!(
        parse_line("* - (bare)").unwrap(),
        LineType::Issue {
            id: String::from("-"),
            description: String::from("bare"),
        }
    );
}

#[test]
fn issue_pattern_wins_over_clock_pattern() {
    // The issue pattern is tried first, even when the clock opening also
    // occurs on the line.
    assert_eq!(
        parse_line("CLOCK: [* A-1 (x)]--[2017-07-28 Fri 15:00] =>").unwrap(),
        LineType::Issue {
            id: String::from("A-1"),
            description: String::from("x"),
        }
    );
}

#[test]
fn leftmost_issue_match_wins() {
    assert_eq!(
        parse_line("* A-1 (x) * B-2 (y)").unwrap(),
        LineType::Issue {
            id: String::from("A-1"),
            description: String::from("x) * B-2 (y"),
        }
    );
}

#[test]
fn leftmost_keyword_marker_wins() {
    assert_eq!(
        parse_keyword("K", "#+K: a #+K: b").unwrap(),
        String::from("a #+K: b")
    );
}

#[test]
fn description_may_hold_non_ascii_text() {
    assert_eq!(
        parse_line("* ABC-1 (d\u{e9}j\u{e0} vu \u{2615})").unwrap(),
        LineType::Issue {
            id: String::from("ABC-1"),
            description: String::from("d\u{e9}j\u{e0} vu \u{2615}"),
        }
    );
}

#[test]
fn keyword_value_may_hold_non_ascii_text() {
    assert_eq!(
        parse_keyword("JIRA_URL", "#+JIRA_URL: https://\u{4f8b}.jp/").unwrap(),
        String::from("https://\u{4f8b}.jp/")
    );
}

#[test]
fn clock_line_without_separator_is_insignificant() {
    assert_eq!(
        parse_line("CLOCK: [2017-07-28 Fri 15:00] => 0:00").unwrap(),
        LineType::Nothing
    );
}

#[test]
fn clock_line_with_bad_month_is_an_error() {
    assert_eq!(
        parse_line("CLOCK: [2017-13-28 Fri 15:00]--[2017-07-28 Fri 17:30] =>"),
        Err(LineError::BadTimestamp)
    );
}

#[test]
fn clock_line_with_malformed_timestamp_is_an_error() {
    assert_eq!(
        parse_line("CLOCK: [2017-7-28 Fri 15:00]--[2017-07-28 Fri 17:30] =>"),
        Err(LineError::BadTimestamp)
    );
}

#[test]
fn clock_captures_are_greedy() {
    // The first capture runs to the last `]--[` that leaves a full match, so
    // neither capture here is a valid timestamp.
    assert_eq!(
        parse_line("CLOCK: [2017-07-28 Fri 15:00]--[2017-07-28 Fri 16:00]--[x] =>"),
        Err(LineError::BadTimestamp)
    );
}

#[test]
fn timestamp_exact_value() {
    assert_eq!(
        parse_timestamp("2017-07-28 Fri 15:00"),
        Some(ts(2017, 7, 28, 15, 0))
    );
    assert_eq!(
        parse_timestamp("0001-01-01 Xyz 00:00"),
        Some(ts(1, 1, 1, 0, 0))
    );
}

#[test]
fn timestamp_rejects_bad_shapes() {
    assert_eq!(parse_timestamp(""), None);
    assert_eq!(parse_timestamp("2017-07-28 Fri 15:0"), None);
    assert_eq!(parse_timestamp("2017-7-28 Fri 15:00"), None);
    assert_eq!(parse_timestamp("2017-07-28 Friday 15:00"), None);
    assert_eq!(parse_timestamp("2017-07-28 F4i 15:00"), None);
    assert_eq!(parse_timestamp("2017-07-28 Fri 15:00 "), None);
}

#[test]
fn timestamp_rejects_bad_fields() {
    assert_eq!(parse_timestamp("2017-00-28 Fri 15:00"), None);
    assert_eq!(parse_timestamp("2017-13-28 Fri 15:00"), None);
    assert_eq!(parse_timestamp("2017-07-00 Fri 15:00"), None);
    assert_eq!(parse_timestamp("2017-07-32 Fri 15:00"), None);
    assert_eq!(parse_timestamp("2017-04-31 Fri 15:00"), None);
    assert_eq!(parse_timestamp("2017-07-28 Fri 24:00"), None);
    assert_eq!(parse_timestamp("2017-07-28 Fri 15:60"), None);
}

#[test]
fn timestamp_leap_years() {
    assert_eq!(
        parse_timestamp("2016-02-29 Mon 00:00"),
        Some(ts(2016, 2, 29, 0, 0))
    );
    assert_eq!(
        parse_timestamp("2000-02-29 Tue 12:30"),
        Some(ts(2000, 2, 29, 12, 30))
    );
    assert_eq!(parse_timestamp("2017-02-29 Wed 00:00"), None);
    assert_eq!(parse_timestamp("1900-02-29 Thu 00:00"), None);
}

fn doc(lines: &[&str]) -> Vec<String> {
    lines.iter().map(|l| String::from(*l)).collect()
}

#[test]
fn document_two_issues_in_order() {
    let lines = doc(&[
        "#+JIRA_URL: https://example.atlassian.net/",
        "#+USERNAME: someone",
        "* ABC-1 (Take a nap)",
        "CLOCK: [2017-07-28 Fri 15:00]--[2017-07-28 Fri 17:30] =>  2:30",
        "CLOCK: [2017-07-29 Sat 09:00]--[2017-07-29 Sat 10:00] =>  1:00",
        "* ABC-2 (Wake up)",
        "CLOCK: [2017-07-30 Sun 11:00]--[2017-07-30 Sun 11:30] =>  0:30",
    ]);
    let data = parse_document(&lines).unwrap();
    assert_eq!(data.jira_url, "https://example.atlassian.net/");
    assert_eq!(data.username, "someone");
    assert_eq!(data.issues.len(), 2);
    assert_eq!(data.issues[0].id, "ABC-1");
    assert_eq!(data.issues[0].description, "Take a nap");
    assert_eq!(
        data.issues[0].worklogs,
        vec![
            Worklog { start: ts(2017, 7, 28, 15, 0), end: ts(2017, 7, 28, 17, 30) },
            Worklog { start: ts(2017, 7, 29, 9, 0), end: ts(2017, 7, 29, 10, 0) },
        ]
    );
    assert_eq!(data.issues[1].id, "ABC-2");
    assert_eq!(data.issues[1].description, "Wake up");
    assert_eq!(
        data.issues[1].worklogs,
        vec![Worklog { start: ts(2017, 7, 30, 11, 0), end: ts(2017, 7, 30, 11, 30) }]
    );
}

#[test]
fn document_ignores_insignificant_lines() {
    let lines = doc(&[
        "#+JIRA_URL: https://example.atlassian.net/",
        "#+USERNAME: someone",
        "",
        "some notes",
        "* ABC-1 (Take a nap)",
        "  outline text",
        "CLOCK: [2017-07-28 Fri 15:00]--[2017-07-28 Fri 17:30] =>  2:30",
        "",
    ]);
    let data = parse_document(&lines).unwrap();
    assert_eq!(data.issues.len(), 1);
    assert_eq!(data.issues[0].id, "ABC-1");
    assert_eq!(data.issues[0].worklogs.len(), 1);
}

// Quirk, preserved from the fold's flush condition: an issue header whose
// pending worklog list is empty when the next header arrives is dropped
// from the result entirely.
#[test]
fn zero_worklog_issue_dropped_quirk() {
    let lines = doc(&[
        "#+JIRA_URL: https://example.atlassian.net/",
        "#+USERNAME: someone",
        "* ABC-1 (First, no clock lines)",
        "* ABC-2 (Second)",
        "CLOCK: [2017-07-28 Fri 15:00]--[2017-07-28 Fri 17:30] =>  2:30",
    ]);
    let data = parse_document(&lines).unwrap();
    assert_eq!(data.issues.len(), 1);
    assert_eq!(data.issues[0].id, "ABC-2");
}

// The same quirk at end of input: the final flush also happens only when a
// worklog is pending, so a trailing header without clock lines is dropped.
#[test]
fn trailing_zero_worklog_issue_dropped_quirk() {
    let lines = doc(&[
        "#+JIRA_URL: https://example.atlassian.net/",
        "#+USERNAME: someone",
        "* ABC-1 (Has a clock line)",
        "CLOCK: [2017-07-28 Fri 15:00]--[2017-07-28 Fri 17:30] =>  2:30",
        "* ABC-2 (Trailing, none)",
    ]);
    let data = parse_document(&lines).unwrap();
    assert_eq!(data.issues.len(), 1);
    assert_eq!(data.issues[0].id, "ABC-1");
}

#[test]
fn malformed_first_line_fails_whole_parse() {
    let lines = doc(&[
        "#+USERNAME: someone",
        "#+JIRA_URL: https://example.atlassian.net/",
        "* ABC-1 (Take a nap)",
    ]);
    assert_eq!(
        parse_document(&lines),
        Err(DocError::JiraUrl(KeywordError::MarkerMissing))
    );
}

#[test]
fn empty_document_fails_on_first_keyword() {
    let lines: Vec<String> = Vec::new();
    assert_eq!(
        parse_document(&lines),
        Err(DocError::JiraUrl(KeywordError::MarkerMissing))
    );
}

#[test]
fn second_line_must_carry_username() {
    let lines = doc(&[
        "#+JIRA_URL: https://example.atlassian.net/",
        "#+JIRA_URL: https://example.atlassian.net/",
    ]);
    assert_eq!(
        parse_document(&lines),
        Err(DocError::Username(KeywordError::MarkerMissing))
    );
}

#[test]
fn empty_username_value_fails() {
    let lines = doc(&[
        "#+JIRA_URL: https://example.atlassian.net/",
        "#+USERNAME: ",
    ]);
    assert_eq!(
        parse_document(&lines),
        Err(DocError::Username(KeywordError::EmptyValue))
    );
}

#[test]
fn bad_clock_line_aborts_document() {
    let lines = doc(&[
        "#+JIRA_URL: https://example.atlassian.net/",
        "#+USERNAME: someone",
        "* ABC-1 (Take a nap)",
        "CLOCK: [2017-02-29 Wed 15:00]--[2017-07-28 Fri 17:30] =>",
    ]);
    assert_eq!(
        parse_document(&lines),
        Err(DocError::Line(LineError::BadTimestamp))
    );
}

#[test]
fn error_messages_name_the_stage_and_cause() {
    let e = DocError::JiraUrl(KeywordError::MarkerMissing);
    assert_eq!(e.context_message(), "unable to parse JIRA_URL");
    assert_eq!(e.cause_message(), "keyword marker not found in line");
    let e = DocError::Username(KeywordError::EmptyValue);
    assert_eq!(e.context_message(), "unable to parse USERNAME");
    assert_eq!(e.cause_message(), "keyword has an empty value");
    let e = DocError::Line(LineError::BadTimestamp);
    assert_eq!(e.context_message(), "unable to parse line");
    assert_eq!(e.cause_message(), "a clock timestamp is malformed");
}
