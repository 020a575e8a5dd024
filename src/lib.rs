//! Estimates the engineering hours invested in a project from the timestamps
//! of its commit history, and decides how cached estimates are served and
//! refreshed.
use vstd::prelude::*;

pub mod coordinator;
pub mod estimator;
pub mod job;
pub mod log_parser;
pub mod store_format;
pub mod text;

pub use coordinator::{
    decide_query, job_write, CacheRecord, EffortEstimate, JobClaim, JobFailure, QueryDecision,
    QueryOutcome, StoreWrite,
};
pub use estimator::{estimate_hours, CommitTimestamp, SessionGapPolicy, NANOS_PER_HOUR};
pub use job::{estimate_from_log, is_valid_project_key, screen_key};
pub use log_parser::{LogParser, MalformedDate};

verus! {

} // verus!
