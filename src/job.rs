//! The computing part of an estimation job, and the check of project keys.
use vstd::prelude::*;
use crate::coordinator::{JobClaim, JobFailure, QueryDecision, QueryOutcome};
use crate::estimator::{effort_hours, estimate_hours, SessionGapPolicy};
use crate::log_parser::{parse_log_spec, LogParser};

verus! {

/// Whether url's `Url::parse` accepts the text as an absolute URL.
pub uninterp spec fn url_accepts(text: Seq<char>) -> bool;

/// Relies on url's `Url::parse`: whether it returns `Ok`.
#[verifier::external_body]
fn url_parses(text: &str) -> (r: bool)
    ensures
        r == url_accepts(text@),
{
    url::Url::parse(text).is_ok()
}

/// A project key names the project to estimate; it is accepted when it
/// parses as a URL. A rejected key is answered `Invalid` without touching
/// the cache.
pub fn is_valid_project_key(key: &str) -> (r: bool)
    ensures
        r == url_accepts(key@),
{
    url_parses(key)
}

/// The decision for a key that failed validation: answer `Invalid`, with no
/// cache access and no job.
pub open spec fn invalid_key_decision() -> QueryDecision {
    QueryDecision { outcome: QueryOutcome::Invalid, claim: JobClaim::NoJob }
}

/// Screens a project key before the cache is read: a key that url does not
/// accept is decided `Invalid` at once; an accepted key gives nothing, and
/// the query goes on to read the cache.
pub fn screen_key(key: &str) -> (r: Option<QueryDecision>)
    ensures
        r == (if url_accepts(key@) { None } else { Some(invalid_key_decision()) }),
{
    if is_valid_project_key(key) {
        None
    } else {
        Some(QueryDecision { outcome: QueryOutcome::Invalid, claim: JobClaim::NoJob })
    }
}

/// What a job yields for the history text: the estimate of its timestamps
/// under the policy, or the first date header that failed to parse.
pub open spec fn job_result_matches(
    policy: SessionGapPolicy,
    text: Seq<char>,
    r: Result<u128, JobFailure>,
) -> bool {
    match (parse_log_spec(text), r) {
        (Ok(stamps), Ok(hours)) => hours == effort_hours(policy, stamps),
        (Err(line), Err(JobFailure::Parse(l))) => l@ == line,
        _ => false,
    }
}

/// Parses the history text and estimates the hours it shows.
pub fn estimate_from_log(parser: &LogParser, policy: &SessionGapPolicy, text: &str) -> (r: Result<
    u128,
    JobFailure,
>)
    ensures
        job_result_matches(*policy, text@, r),
{
    match parser.parse_log(text) {
        Ok(stamps) => Ok(estimate_hours(policy, &stamps)),
        Err(e) => Err(JobFailure::Parse(e.line)),
    }
}

} // verus!
