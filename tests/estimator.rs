use man_hours::{estimate_hours, CommitTimestamp, SessionGapPolicy, NANOS_PER_HOUR};

const HOUR: i64 = 3600;

fn at(seconds: i64) -> CommitTimestamp {
    CommitTimestamp { seconds, subsec_nanos: 0, offset_seconds: 0 }
}

#[test]
fn empty_history_is_zero_hours() {
    assert_eq!(estimate_hours(&SessionGapPolicy::standard(), &vec![]), 0);
}

#[test]
fn identical_timestamps_get_one_credit_each() {
    let t = at(1_700_000_000);
    let stamps = vec![t, t, t, t, t];
    assert_eq!(estimate_hours(&SessionGapPolicy::standard(), &stamps), 5);
}

#[test]
fn identical_timestamps_with_two_hour_credit() {
    let policy = SessionGapPolicy {
        max_continuous_gap_nanos: 8 * NANOS_PER_HOUR,
        session_start_credit_nanos: 2 * NANOS_PER_HOUR,
    };
    let t = at(1_700_000_000);
    assert_eq!(estimate_hours(&policy, &vec![t, t, t]), 6);
}

#[test]
fn one_short_gap_counts_as_work() {
    let newer = at(1_700_000_000);
    let older = at(1_700_000_000 - 5 * HOUR);
    assert_eq!(estimate_hours(&SessionGapPolicy::standard(), &vec![newer, older]), 1 + 5);
}

#[test]
fn long_gap_counts_one_credit() {
    let newer = at(1_700_000_000);
    let older = at(1_700_000_000 - 30 * HOUR);
    assert_eq!(estimate_hours(&SessionGapPolicy::standard(), &vec![newer, older]), 2);
}

#[test]
fn gap_equal_to_maximum_counts_one_credit() {
    let newer = at(1_700_000_000);
    let older = at(1_700_000_000 - 8 * HOUR);
    assert_eq!(estimate_hours(&SessionGapPolicy::standard(), &vec![newer, older]), 2);
}

#[test]
fn out_of_order_timestamps_start_a_session() {
    let first = at(1_700_000_000);
    let later = at(1_700_000_000 + 2 * HOUR);
    assert_eq!(estimate_hours(&SessionGapPolicy::standard(), &vec![first, later]), 2);
}

#[test]
fn minutes_accumulate_before_truncation() {
    let base = 1_700_000_000;
    let stamps = vec![at(base), at(base - 1800), at(base - 3600), at(base - 5400)];
    // one credit plus three half hours: 2.5 hours, truncated
    assert_eq!(estimate_hours(&SessionGapPolicy::standard(), &stamps), 2);
}

#[test]
fn subsecond_parts_are_counted() {
    let newer = CommitTimestamp { seconds: 1_700_000_000, subsec_nanos: 500_000_000, offset_seconds: 0 };
    let older = CommitTimestamp { seconds: 1_700_000_000 - HOUR, subsec_nanos: 600_000_000, offset_seconds: 0 };
    // the gap is 100 ms short of one hour
    assert_eq!(estimate_hours(&SessionGapPolicy::standard(), &vec![newer, older]), 1);
}

#[test]
fn commit_just_before_epoch_is_continuous_with_sentinel() {
    let t = at(-2 * HOUR);
    assert_eq!(estimate_hours(&SessionGapPolicy::standard(), &vec![t]), 2);
}

#[test]
fn rerunning_gives_the_same_total() {
    let base = 1_700_000_000;
    let stamps = vec![at(base), at(base - 3 * HOUR), at(base - 23 * HOUR), at(base - 24 * HOUR)];
    let policy = SessionGapPolicy::standard();
    let first = estimate_hours(&policy, &stamps);
    let second = estimate_hours(&policy, &stamps);
    assert_eq!(first, second);
    assert_eq!(first, 1 + 3 + 1 + 1);
}

#[test]
fn standard_policy_durations() {
    let p = SessionGapPolicy::standard();
    assert_eq!(p.max_continuous_gap_nanos, 8 * 3_600_000_000_000);
    assert_eq!(p.session_start_credit_nanos, 3_600_000_000_000);
}

#[test]
fn instant_combines_seconds_and_nanos() {
    let t = CommitTimestamp { seconds: -1, subsec_nanos: 250, offset_seconds: 3600 };
    assert_eq!(t.instant_nanos(), -1_000_000_000 + 250);
}
