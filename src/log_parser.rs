//! Turns the raw text of a commit history log into the ordered sequence of
//! commit timestamps it holds.
use vstd::prelude::*;
use vstd::slice::slice_subrange;
use crate::estimator::CommitTimestamp;
use crate::text::{chars_to_string, lemma_split_nonempty, split_on};

verus! {

#[verifier::external_type_specification]
#[verifier::external_body]
pub struct ExRegex(regex::Regex);

#[verifier::external_type_specification]
#[verifier::external_body]
pub struct ExChronoParseError(chrono::ParseError);

/// The shape of a date header line of the history log.
pub const DATE_HEADER_PATTERN: &'static str = r"^Date:\s+\w+\s\w+\s\d+\s\d+:\d+:\d+\s\d+\s.\d+$";

/// The date format of the history log: weekday, month, day, time with
/// optional fractional seconds, four-digit year and signed UTC offset.
pub const LOG_DATE_FORMAT: &'static str = "%a %b %d %H:%M:%S%.3f %Y %z";

/// Whether `DATE_HEADER_PATTERN` matches the line (regex's `is_match`).
pub uninterp spec fn is_date_header(line: Seq<char>) -> bool;

/// What chrono's `DateTime::parse_from_str` makes of the text under
/// `LOG_DATE_FORMAT`: the Unix timestamp, the sub-second nanoseconds and the
/// offset east of UTC in seconds, or nothing when the text does not parse.
pub uninterp spec fn parsed_log_date(text: Seq<char>) -> Option<(i64, u32, i32)>;

/// Relies on regex's `Regex::new`, which accepts `DATE_HEADER_PATTERN`.
#[verifier::external_body]
fn compile_date_header_pattern() -> regex::Regex {
    regex::Regex::new(DATE_HEADER_PATTERN).unwrap()
}

/// Relies on chrono's `DateTime::<FixedOffset>::parse_from_str` under
/// `LOG_DATE_FORMAT`, and on `timestamp`, `timestamp_subsec_nanos` and
/// `FixedOffset::local_minus_utc` to read the parsed instant.
#[verifier::external_body]
fn parse_log_date(text: &[char]) -> (r: Result<CommitTimestamp, chrono::ParseError>)
    ensures
        match r {
            Ok(t) => parsed_log_date(text@) == Some((t.seconds, t.subsec_nanos, t.offset_seconds)),
            Err(_) => parsed_log_date(text@) is None,
        },
{
    let s: String = text.iter().collect();
    match chrono::DateTime::parse_from_str(&s, LOG_DATE_FORMAT) {
        Ok(dt) => Ok(CommitTimestamp {
            seconds: dt.timestamp(),
            subsec_nanos: dt.timestamp_subsec_nanos(),
            offset_seconds: dt.offset().local_minus_utc(),
        }),
        Err(e) => Err(e),
    }
}

/// A date header line whose date text does not parse under `LOG_DATE_FORMAT`.
#[derive(Debug)]
pub struct MalformedDate {
    pub line: String,
}

/// A line ended by `\r\n` loses its `\r`.
pub open spec fn strip_cr(line: Seq<char>) -> Seq<char> {
    if line.len() > 0 && line.last() == '\r' {
        line.drop_last()
    } else {
        line
    }
}

/// The lines that a newline has ended, without their terminators.
pub open spec fn ended_lines(text: Seq<char>) -> Seq<Seq<char>> {
    split_on(text, '\n').drop_last().map_values(|l: Seq<char>| strip_cr(l))
}

/// The lines of the text as `str::lines` gives them: ended by `\n` or
/// `\r\n`, a final unterminated line kept unless it is empty.
pub open spec fn log_lines(text: Seq<char>) -> Seq<Seq<char>> {
    if split_on(text, '\n').last().len() == 0 {
        ended_lines(text)
    } else {
        ended_lines(text).push(split_on(text, '\n').last())
    }
}

/// The prefix that the log puts before each date.
pub open spec fn date_prefix() -> Seq<char> {
    seq!['D', 'a', 't', 'e', ':', ' ', ' ', ' ']
}

/// The date text of a header line: the line without its `Date:` prefix.
pub open spec fn date_text(line: Seq<char>) -> Seq<char> {
    if line.len() >= 8 && line.take(8) == date_prefix() {
        line.skip(8)
    } else {
        line
    }
}

/// The timestamp that a parsed date stands for.
pub open spec fn stamp_of(parts: (i64, u32, i32)) -> CommitTimestamp {
    CommitTimestamp { seconds: parts.0, subsec_nanos: parts.1, offset_seconds: parts.2 }
}

/// Scanning one more line: other lines are ignored, a header adds its
/// timestamp, and a header whose date does not parse is an error.
pub open spec fn scan_step(
    acc: Result<Seq<CommitTimestamp>, Seq<char>>,
    line: Seq<char>,
) -> Result<Seq<CommitTimestamp>, Seq<char>> {
    match acc {
        Err(l) => Err(l),
        Ok(stamps) => if !is_date_header(line) {
            Ok(stamps)
        } else {
            match parsed_log_date(date_text(line)) {
                Some(parts) => Ok(stamps.push(stamp_of(parts))),
                None => Err(line),
            }
        },
    }
}

/// The timestamps of the header lines in log order, or the first header
/// line whose date does not parse.
pub open spec fn scan_lines(lines: Seq<Seq<char>>) -> Result<Seq<CommitTimestamp>, Seq<char>>
    decreases lines.len(),
{
    if lines.len() == 0 {
        Ok(Seq::empty())
    } else {
        scan_step(scan_lines(lines.drop_last()), lines.last())
    }
}

/// What the whole log yields.
pub open spec fn parse_log_spec(text: Seq<char>) -> Result<Seq<CommitTimestamp>, Seq<char>> {
    scan_lines(log_lines(text))
}

/// The lines ended so far stay a prefix of those ended later.
proof fn lemma_lines_prefix(text: Seq<char>, j: int)
    requires
        0 <= j <= text.len(),
    ensures
        split_on(text.take(j), '\n').drop_last().is_prefix_of(split_on(text, '\n').drop_last()),
    decreases text.len(),
{
    lemma_split_nonempty(text, '\n');
    if j < text.len() {
        let shorter = text.drop_last();
        assert(shorter.take(j) =~= text.take(j));
        lemma_lines_prefix(shorter, j);
        lemma_split_nonempty(shorter, '\n');
        let p = split_on(shorter, '\n');
        if text.last() == '\n' {
            assert(split_on(text, '\n').drop_last() =~= p);
        } else {
            assert(split_on(text, '\n').drop_last() =~= p.drop_last());
        }
    } else {
        assert(text.take(j) =~= text);
    }
}

/// The lines ended within a prefix of the text begin the text's lines.
proof fn lemma_ended_lines_prefix(text: Seq<char>, j: int)
    requires
        0 <= j <= text.len(),
    ensures
        ended_lines(text.take(j)).is_prefix_of(log_lines(text)),
{
    lemma_lines_prefix(text, j);
    let a = split_on(text.take(j), '\n').drop_last();
    let b = split_on(text, '\n').drop_last();
    assert(ended_lines(text.take(j)) =~= log_lines(text).subrange(0, a.len() as int)) by {
        assert(b.subrange(0, a.len() as int) == a);
        assert forall|m: int| 0 <= m < a.len() implies #[trigger] ended_lines(text.take(j))[m]
            == log_lines(text)[m] by {
            assert(a[m] == b[m]);
        }
    }
}

/// Once a header fails to parse, later lines do not change the outcome.
proof fn lemma_scan_error_sticks(a: Seq<Seq<char>>, b: Seq<Seq<char>>, l: Seq<char>)
    requires
        a.is_prefix_of(b),
        scan_lines(a) == Err::<Seq<CommitTimestamp>, Seq<char>>(l),
    ensures
        scan_lines(b) == Err::<Seq<CommitTimestamp>, Seq<char>>(l),
    decreases b.len(),
{
    if b.len() == a.len() {
        assert(a =~= b);
    } else {
        assert(a.is_prefix_of(b.drop_last()));
        lemma_scan_error_sticks(a, b.drop_last(), l);
    }
}

/// Matches the history log's date headers and reads their dates.
pub struct LogParser {
    /// Always compiled from `DATE_HEADER_PATTERN`.
    header: regex::Regex,
}

impl LogParser {
    /// A parser for the history log's date headers.
    pub fn new() -> (r: LogParser) {
        LogParser { header: compile_date_header_pattern() }
    }

    /// Relies on regex's `Regex::is_match`; the field holds `DATE_HEADER_PATTERN`.
    #[verifier::external_body]
    fn is_header(&self, line: &[char]) -> (r: bool)
        ensures
            r == is_date_header(line@),
    {
        let s: String = line.iter().collect();
        self.header.is_match(&s)
    }

    /// Where the date text of a line starts.
    fn date_start(line: &Vec<char>) -> (k: usize)
        ensures
            k <= line@.len(),
            line@.skip(k as int) == date_text(line@),
    {
        let prefix = ['D', 'a', 't', 'e', ':', ' ', ' ', ' '];
        if line.len() < 8 {
            return 0;
        }
        let mut j: usize = 0;
        while j < 8
            invariant
                j <= 8 <= line@.len(),
                prefix@ == date_prefix(),
                forall|m: int| 0 <= m < j ==> line@[m] == date_prefix()[m],
            decreases 8 - j,
        {
            if line[j] != prefix[j] {
                assert(line@.take(8)[j as int] != date_prefix()[j as int]);
                assert(line@.skip(0) =~= line@);
                return 0;
            }
            j = j + 1;
        }
        assert(line@.take(8) =~= date_prefix());
        8
    }

    /// Scans one line into `stamps`.
    fn scan_line(&self, line: &Vec<char>, stamps: &mut Vec<CommitTimestamp>) -> (r: Result<(), MalformedDate>)
        ensures
            match (r, scan_step(Ok(old(stamps)@), line@)) {
                (Ok(()), Ok(s)) => final(stamps)@ == s,
                (Err(e), Err(l)) => e.line@ == l,
                _ => false,
            },
    {
        if !self.is_header(line.as_slice()) {
            return Ok(());
        }
        let k = Self::date_start(line);
        match parse_log_date(slice_subrange(line.as_slice(), k, line.len())) {
            Ok(t) => {
                stamps.push(t);
                Ok(())
            },
            Err(_) => Err(MalformedDate { line: chars_to_string(line.as_slice()) }),
        }
    }

    /// Scans a history log, newest entry first, into the timestamps of its
    /// date headers in log order; a header whose date does not parse is an
    /// error that names the line.
    pub fn parse_log(&self, text: &str) -> (r: Result<Vec<CommitTimestamp>, MalformedDate>)
        ensures
            match (r, parse_log_spec(text@)) {
                (Ok(v), Ok(s)) => v@ == s,
                (Err(e), Err(l)) => e.line@ == l,
                _ => false,
            },
    {
        let mut stamps: Vec<CommitTimestamp> = Vec::new();
        let mut cur: Vec<char> = Vec::new();
        for c in it: text.chars()
            invariant
                it.seq() == text@,
                0 <= it.index() <= text@.len(),
                scan_lines(ended_lines(text@.take(it.index() as int))) == Ok::<
                    Seq<CommitTimestamp>,
                    Seq<char>,
                >(stamps@),
                cur@ == split_on(text@.take(it.index() as int), '\n').last(),
        {
            let ghost i = it.index() as int;
            let ghost before = text@.take(i);
            let ghost after = text@.take(i + 1);
            proof {
                assert(after.drop_last() =~= before);
                assert(after.last() == c);
                lemma_split_nonempty(before, '\n');
            }
            if c == '\n' {
                let mut line = cur;
                cur = Vec::new();
                if line.len() > 0 && line[line.len() - 1] == '\r' {
                    line.pop();
                }
                proof {
                    assert(split_on(after, '\n') == split_on(before, '\n').push(Seq::<char>::empty()));
                    assert(split_on(after, '\n').drop_last() =~= split_on(before, '\n'));
                    assert(ended_lines(after) =~= ended_lines(before).push(line@));
                    assert(ended_lines(after).drop_last() =~= ended_lines(before));
                }
                match self.scan_line(&line, &mut stamps) {
                    Ok(()) => {},
                    Err(e) => {
                        proof {
                            lemma_ended_lines_prefix(text@, i + 1);
                            lemma_scan_error_sticks(ended_lines(after), log_lines(text@), e.line@);
                        }
                        return Err(e);
                    },
                }
            } else {
                cur.push(c);
                proof {
                    assert(split_on(after, '\n').drop_last() =~= split_on(before, '\n').drop_last());
                    assert(ended_lines(after) =~= ended_lines(before));
                }
            }
        }
        proof {
            assert(text@.take(text@.len() as int) =~= text@);
            lemma_split_nonempty(text@, '\n');
        }
        if cur.len() > 0 {
            proof {
                assert(log_lines(text@).drop_last() =~= ended_lines(text@));
            }
            match self.scan_line(&cur, &mut stamps) {
                Ok(()) => {},
                Err(e) => {
                    return Err(e);
                },
            }
        }
        Ok(stamps)
    }
}

} // verus!
