use std::collections::HashMap;

use man_hours::store_format::{decode_record, encode_record};

use man_hours::{
    decide_query, is_valid_project_key, job_write, CacheRecord, EffortEstimate, JobClaim,
    JobFailure, QueryDecision, QueryOutcome, StoreWrite, screen_key,
};

fn ready(hours: u128, computed_at: u64, expires_at: u64) -> Option<CacheRecord> {
    Some(CacheRecord::Ready(EffortEstimate {
        project_key: "https://example.com/repo".to_string(),
        hours,
        computed_at,
        expires_at,
    }))
}

/// A store whose claims are atomic: reserving a key, or claiming the refresh
/// of a record that expired at a given time, succeeds once.
#[derive(Default)]
struct Store {
    records: HashMap<String, CacheRecord>,
    refreshes: Vec<(String, u64)>,
}

impl Store {
    fn claim(&mut self, key: &str, claim: JobClaim) -> bool {
        match claim {
            JobClaim::NoJob => false,
            JobClaim::ReserveKey => {
                if self.records.contains_key(key) {
                    false
                } else {
                    self.records.insert(key.to_string(), CacheRecord::Pending);
                    true
                }
            }
            JobClaim::ClaimRefresh(expired_at) => {
                let c = (key.to_string(), expired_at);
                if self.refreshes.contains(&c) {
                    false
                } else {
                    self.refreshes.push(c);
                    true
                }
            }
        }
    }

    fn read(&self, key: &str) -> Option<CacheRecord> {
        match self.records.get(key) {
            None => None,
            Some(CacheRecord::Pending) => Some(CacheRecord::Pending),
            Some(CacheRecord::Ready(e)) => ready(e.hours, e.computed_at, e.expires_at),
        }
    }
}

#[test]
fn missing_record_reserves_and_answers_pending() {
    let d = decide_query(&None, 100);
    assert_eq!(d, QueryDecision { outcome: QueryOutcome::Pending, claim: JobClaim::ReserveKey });
}

#[test]
fn pending_record_launches_nothing() {
    let d = decide_query(&Some(CacheRecord::Pending), 100);
    assert_eq!(d, QueryDecision { outcome: QueryOutcome::Pending, claim: JobClaim::NoJob });
}

#[test]
fn fresh_record_is_served() {
    let d = decide_query(&ready(42, 50, 200), 199);
    assert_eq!(d, QueryDecision { outcome: QueryOutcome::Ready(42), claim: JobClaim::NoJob });
}

#[test]
fn stale_record_is_served_and_refreshed() {
    let d = decide_query(&ready(42, 50, 200), 200);
    assert_eq!(
        d,
        QueryDecision { outcome: QueryOutcome::Ready(42), claim: JobClaim::ClaimRefresh(200) }
    );
}

#[test]
fn racing_first_queries_launch_one_job() {
    let key = "https://example.com/repo";
    let mut store = Store::default();
    let reads: Vec<Option<CacheRecord>> = (0..5).map(|_| store.read(key)).collect();
    let mut launches = 0;
    for r in &reads {
        let d = decide_query(r, 1000);
        assert_eq!(d.outcome, QueryOutcome::Pending);
        if store.claim(key, d.claim) {
            launches += 1;
        }
    }
    let late = decide_query(&store.read(key), 1001);
    assert_eq!(late.outcome, QueryOutcome::Pending);
    if store.claim(key, late.claim) {
        launches += 1;
    }
    assert_eq!(launches, 1);
}

#[test]
fn racing_stale_queries_launch_one_refresh() {
    let key = "https://example.com/repo";
    let mut store = Store::default();
    if let Some(CacheRecord::Ready(e)) = ready(7, 10, 20) {
        store.records.insert(key.to_string(), CacheRecord::Ready(e));
    }
    let mut launches = 0;
    for _ in 0..4 {
        let d = decide_query(&store.read(key), 30);
        assert_eq!(d.outcome, QueryOutcome::Ready(7));
        if store.claim(key, d.claim) {
            launches += 1;
        }
    }
    assert_eq!(launches, 1);
}

#[test]
fn finished_job_writes_fresh_record() {
    match job_write("k".to_string(), &Some(CacheRecord::Pending), Ok(12), 1000, 14400) {
        StoreWrite::Put(CacheRecord::Ready(e)) => {
            assert_eq!(e.project_key, "k");
            assert_eq!(e.hours, 12);
            assert_eq!(e.computed_at, 1000);
            assert_eq!(e.expires_at, 15400);
        }
        other => panic!("unexpected {:?}", other),
    }
}

#[test]
fn failed_job_clears_reservation() {
    let w = job_write("k".to_string(), &Some(CacheRecord::Pending), Err(JobFailure::SourceUnreachable), 5, 10);
    assert!(matches!(w, StoreWrite::Remove));
}

#[test]
fn failed_job_keeps_previous_value() {
    let w = job_write("k".to_string(), &ready(3, 1, 2), Err(JobFailure::Parse("Date: x".to_string())), 5, 10);
    assert!(matches!(w, StoreWrite::Keep));
    let w = job_write("k".to_string(), &None, Err(JobFailure::SourceTimeout), 5, 10);
    assert!(matches!(w, StoreWrite::Keep));
}

#[test]
fn url_keys_are_valid() {
    assert!(is_valid_project_key("https://github.com/someone/project"));
    assert!(!is_valid_project_key("not a url"));
    assert!(!is_valid_project_key(""));
}

#[test]
fn pending_record_text_round_trips() {
    assert_eq!(encode_record(&CacheRecord::Pending), "pending");
    assert!(matches!(decode_record("k", "pending"), Some(CacheRecord::Pending)));
}

#[test]
fn ready_record_text_round_trips() {
    let text = encode_record(&ready(1234, 1_700_000_000, 1_700_014_400).unwrap());
    assert_eq!(text, "1234 1700000000 1700014400");
    match decode_record("https://example.com/repo", &text) {
        Some(CacheRecord::Ready(e)) => {
            assert_eq!(e.project_key, "https://example.com/repo");
            assert_eq!(e.hours, 1234);
            assert_eq!(e.computed_at, 1_700_000_000);
            assert_eq!(e.expires_at, 1_700_014_400);
        }
        other => panic!("unexpected {:?}", other),
    }
    assert_eq!(encode_record(&ready(0, 0, 1).unwrap()), "0 0 1");
}

#[test]
fn malformed_record_text_is_rejected() {
    for bad in ["", "pend", "12", "12 3", "1 2 3 4", "01 2 3", "1  2 3", "a 2 3", "1 2 18446744073709551616", " 1 2 3"] {
        assert!(decode_record("k", bad).is_none(), "{:?}", bad);
    }
    assert!(decode_record("k", "0 3 18446744073709551615").is_some());
}

#[test]
fn invalid_key_is_screened_out() {
    assert_eq!(
        screen_key("no scheme here"),
        Some(QueryDecision { outcome: QueryOutcome::Invalid, claim: JobClaim::NoJob })
    );
    assert_eq!(screen_key("https://github.com/someone/project"), None);
}

#[test]
fn record_text_that_expires_too_early_is_rejected() {
    assert!(decode_record("k", "5 5 5").is_none());
    assert!(decode_record("k", "5 6 5").is_none());
    assert!(decode_record("k", "5 5 6").is_some());
}
