use man_hours::{estimate_from_log, JobFailure, LogParser, SessionGapPolicy};

const THREE_COMMITS: &str = "commit 3333333333333333333333333333333333333333
Author: Someone <someone@example.com>
Date:   Thu Jan 11 12:00:00 2024 +0000

    third change

commit 2222222222222222222222222222222222222222
Author: Someone <someone@example.com>
Date:   Thu Jan 11 09:00:00 2024 +0000

    second change

commit 1111111111111111111111111111111111111111
Author: Someone <someone@example.com>
Date:   Wed Jan 10 13:00:00 2024 +0000

    first change
";

#[test]
fn end_to_end_three_headers_give_five_hours() {
    let parser = LogParser::new();
    let hours = estimate_from_log(&parser, &SessionGapPolicy::standard(), THREE_COMMITS);
    assert_eq!(hours.unwrap(), 5);
}

#[test]
fn headers_parse_in_log_order() {
    let parser = LogParser::new();
    let stamps = parser.parse_log(THREE_COMMITS).unwrap();
    assert_eq!(stamps.len(), 3);
    assert_eq!(stamps[0].seconds, 1_704_974_400);
    assert_eq!(stamps[1].seconds, 1_704_974_400 - 3 * 3600);
    assert_eq!(stamps[2].seconds, 1_704_974_400 - 23 * 3600);
    assert!(stamps.iter().all(|t| t.subsec_nanos == 0 && t.offset_seconds == 0));
}

#[test]
fn offset_moves_the_instant() {
    let parser = LogParser::new();
    let stamps = parser.parse_log("Date:   Thu Jan 11 12:00:00 2024 +0200").unwrap();
    assert_eq!(stamps.len(), 1);
    assert_eq!(stamps[0].seconds, 1_704_974_400 - 2 * 3600);
    assert_eq!(stamps[0].offset_seconds, 7200);
}

#[test]
fn crlf_line_endings_are_accepted() {
    let parser = LogParser::new();
    let text = "commit 1\r\nDate:   Thu Jan 11 12:00:00 2024 +0000\r\n\r\n    msg\r\n";
    assert_eq!(parser.parse_log(text).unwrap().len(), 1);
}

#[test]
fn other_lines_are_ignored() {
    let parser = LogParser::new();
    let text = "commit abc\nAuthor: x\n\n    Date: not a header\nMerge: 1 2\n";
    assert!(parser.parse_log(text).unwrap().is_empty());
    assert!(parser.parse_log("").unwrap().is_empty());
}

#[test]
fn malformed_header_date_is_an_error() {
    let parser = LogParser::new();
    let bad = "Date:   Xyz Foo 11 12:00:00 2024 +0000";
    let text = format!("commit 1\n{}\n\ncommit 2\nDate:   Thu Jan 11 12:00:00 2024 +0000\n", bad);
    let err = parser.parse_log(&text).unwrap_err();
    assert_eq!(err.line, bad);
}

#[test]
fn wrong_weekday_is_an_error() {
    let parser = LogParser::new();
    let bad = "Date:   Mon Jan 11 12:00:00 2024 +0000";
    match estimate_from_log(&parser, &SessionGapPolicy::standard(), bad) {
        Err(JobFailure::Parse(line)) => assert_eq!(line, bad),
        other => panic!("unexpected {:?}", other),
    }
}
