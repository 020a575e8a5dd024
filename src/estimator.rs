//! The coding-session heuristic that turns commit timestamps into hours.
use vstd::prelude::*;

verus! {

/// Nanoseconds in one second.
pub const NANOS_PER_SECOND: u64 = 1_000_000_000;

/// Nanoseconds in one hour.
pub const NANOS_PER_HOUR: u64 = 3_600_000_000_000;

/// The instant of one commit, as emitted by the history log: whole seconds
/// since the Unix epoch, the sub-second part, and the UTC offset the commit
/// was recorded in.
#[derive(Clone, Copy, Debug, PartialEq, Eq, Structural)]
pub struct CommitTimestamp {
    pub seconds: i64,
    pub subsec_nanos: u32,
    pub offset_seconds: i32,
}

impl CommitTimestamp {
    /// The instant in nanoseconds since the Unix epoch (the offset does not
    /// move the instant).
    pub open spec fn instant(self) -> int {
        self.seconds * NANOS_PER_SECOND + self.subsec_nanos
    }

    /// The instant in nanoseconds since the Unix epoch.
    pub fn instant_nanos(&self) -> (r: i128)
        ensures
            r == self.instant(),
    {
        let s = self.seconds as i128;
        assert(-0x8000_0000_0000_0000 * 1_000_000_000 <= s * 1_000_000_000
            <= 0x7fff_ffff_ffff_ffff * 1_000_000_000) by (nonlinear_arith)
            requires
                -0x8000_0000_0000_0000 <= s <= 0x7fff_ffff_ffff_ffff,
        ;
        s * NANOS_PER_SECOND as i128 + self.subsec_nanos as i128
    }
}

/// The two durations, in nanoseconds, that drive the heuristic.
#[derive(Clone, Copy, Debug, PartialEq, Eq, Structural)]
pub struct SessionGapPolicy {
    /// Gaps strictly shorter than this (and positive) count as continuous work.
    pub max_continuous_gap_nanos: u64,
    /// What a commit that starts a new session is credited with.
    pub session_start_credit_nanos: u64,
}

impl SessionGapPolicy {
    /// Eight hours of maximal continuous gap, one hour of session credit.
    pub fn standard() -> (r: SessionGapPolicy)
        ensures
            r.max_continuous_gap_nanos == 8 * NANOS_PER_HOUR,
            r.session_start_credit_nanos == NANOS_PER_HOUR,
    {
        SessionGapPolicy {
            max_continuous_gap_nanos: 8 * NANOS_PER_HOUR,
            session_start_credit_nanos: NANOS_PER_HOUR,
        }
    }
}

/// What one transition contributes: the gap itself when it lies strictly
/// between zero and the maximal continuous gap, the session credit otherwise.
pub open spec fn contribution(policy: SessionGapPolicy, gap: int) -> int {
    if 0 < gap && gap < policy.max_continuous_gap_nanos {
        gap
    } else {
        policy.session_start_credit_nanos as int
    }
}

/// The cursor against which entry `i` is compared: the Unix epoch for the
/// first entry, the previous entry's instant after that.
pub open spec fn cursor_before(stamps: Seq<CommitTimestamp>, i: int) -> int {
    if i == 0 {
        0
    } else {
        stamps[i - 1].instant()
    }
}

/// The gap of transition `i`: cursor minus the entry's instant.
pub open spec fn gap_at(stamps: Seq<CommitTimestamp>, i: int) -> int {
    cursor_before(stamps, i) - stamps[i].instant()
}

/// The accumulated effort, in nanoseconds, of a newest-first sequence.
pub open spec fn total_effort(policy: SessionGapPolicy, stamps: Seq<CommitTimestamp>) -> int
    decreases stamps.len(),
{
    if stamps.len() == 0 {
        0
    } else {
        total_effort(policy, stamps.drop_last()) + contribution(
            policy,
            gap_at(stamps, stamps.len() - 1),
        )
    }
}

/// The estimate in whole hours (the total effort truncated).
pub open spec fn effort_hours(policy: SessionGapPolicy, stamps: Seq<CommitTimestamp>) -> int {
    total_effort(policy, stamps) / (NANOS_PER_HOUR as int)
}

/// Each contribution lies between zero and the larger of the two durations.
pub proof fn lemma_contribution_bounds(policy: SessionGapPolicy, gap: int)
    ensures
        0 <= contribution(policy, gap),
        contribution(policy, gap) <= u64::MAX,
{
}

/// The total effort is non-negative and bounded by the length times the
/// largest `u64`.
pub proof fn lemma_total_bounds(policy: SessionGapPolicy, stamps: Seq<CommitTimestamp>)
    ensures
        0 <= total_effort(policy, stamps),
        total_effort(policy, stamps) <= stamps.len() * (u64::MAX as int),
    decreases stamps.len(),
{
    if stamps.len() > 0 {
        lemma_total_bounds(policy, stamps.drop_last());
        lemma_contribution_bounds(policy, gap_at(stamps, stamps.len() - 1));
        assert(stamps.len() * (u64::MAX as int) == (stamps.len() - 1) * (u64::MAX as int)
            + u64::MAX as int) by (nonlinear_arith);
    }
}

/// Whether the first entry of a sequence starts a new session against the
/// epoch sentinel, which holds for every commit made at or after the epoch.
pub open spec fn first_starts_session(policy: SessionGapPolicy, stamps: Seq<CommitTimestamp>) -> bool {
    stamps.len() > 0 ==> contribution(policy, gap_at(stamps, 0)) == policy.session_start_credit_nanos
}

/// A sequence of identical timestamps, whose first entry starts a session,
/// accumulates exactly one session credit per entry: every gap is zero.
pub proof fn lemma_identical_timestamps(policy: SessionGapPolicy, stamps: Seq<CommitTimestamp>)
    requires
        forall|i: int| 0 <= i < stamps.len() ==> #[trigger] stamps[i].instant() == stamps[0].instant(),
        first_starts_session(policy, stamps),
    ensures
        total_effort(policy, stamps) == stamps.len() * policy.session_start_credit_nanos,
        effort_hours(policy, stamps) == stamps.len() * policy.session_start_credit_nanos / (
        NANOS_PER_HOUR as int),
    decreases stamps.len(),
{
    if stamps.len() > 0 {
        let rest = stamps.drop_last();
        assert forall|i: int| 0 <= i < rest.len() implies #[trigger] rest[i].instant()
            == rest[0].instant() by {
            assert(stamps[i].instant() == stamps[0].instant());
        }
        if rest.len() > 0 {
            assert(rest[0] == stamps[0]);
        }
        lemma_identical_timestamps(policy, rest);
        if stamps.len() > 1 {
            assert(stamps[stamps.len() - 2].instant() == stamps[0].instant());
            assert(stamps[stamps.len() - 1].instant() == stamps[0].instant());
        }
        assert(stamps.len() * policy.session_start_credit_nanos == (stamps.len() - 1)
            * policy.session_start_credit_nanos + policy.session_start_credit_nanos)
            by (nonlinear_arith);
    }
}

/// Two commits a gap `g` apart, with `0 < g < max_continuous_gap`, the newer
/// one starting a session: the total is the session credit plus `g`.
pub proof fn lemma_single_continuous_gap(
    policy: SessionGapPolicy,
    newer: CommitTimestamp,
    older: CommitTimestamp,
)
    requires
        0 < newer.instant() - older.instant() < policy.max_continuous_gap_nanos,
        first_starts_session(policy, seq![newer, older]),
    ensures
        total_effort(policy, seq![newer, older]) == policy.session_start_credit_nanos + (
        newer.instant() - older.instant()),
{
    let s = seq![newer, older];
    let one = seq![newer];
    assert(s.drop_last() =~= one);
    assert(one.drop_last() =~= Seq::<CommitTimestamp>::empty());
    assert(total_effort(policy, one.drop_last()) == 0);
    assert(gap_at(one, 0) == gap_at(s, 0));
    assert(contribution(policy, gap_at(s, 0)) == policy.session_start_credit_nanos);
    assert(total_effort(policy, one) == total_effort(policy, one.drop_last()) + contribution(
        policy,
        gap_at(one, 0),
    ));
    assert(gap_at(s, 1) == newer.instant() - older.instant());
    assert(total_effort(policy, seq![newer]) == policy.session_start_credit_nanos);
}

/// A transition whose gap reaches the maximal continuous gap contributes the
/// session credit, never the gap.
pub proof fn lemma_long_gap_contributes_credit(
    policy: SessionGapPolicy,
    stamps: Seq<CommitTimestamp>,
    i: int,
)
    requires
        0 <= i < stamps.len(),
        gap_at(stamps, i) >= policy.max_continuous_gap_nanos,
    ensures
        total_effort(policy, stamps.take(i + 1)) == total_effort(policy, stamps.take(i))
            + policy.session_start_credit_nanos,
{
    let s = stamps.take(i + 1);
    assert(s.drop_last() =~= stamps.take(i));
    assert(gap_at(s, i) == gap_at(stamps, i));
}

/// The estimate depends on the policy and the sequence alone: running it
/// again on the same input yields the same hours.
pub proof fn lemma_estimate_is_deterministic(
    policy: SessionGapPolicy,
    first_run: Seq<CommitTimestamp>,
    second_run: Seq<CommitTimestamp>,
)
    requires
        first_run == second_run,
    ensures
        effort_hours(policy, first_run) == effort_hours(policy, second_run),
{
}

/// Runs the coding-session heuristic over a newest-first sequence of commit
/// timestamps and returns the accumulated effort in whole hours.
pub fn estimate_hours(policy: &SessionGapPolicy, stamps: &Vec<CommitTimestamp>) -> (r: u128)
    ensures
        r == effort_hours(*policy, stamps@),
{
    let max_gap = policy.max_continuous_gap_nanos as i128;
    let credit = policy.session_start_credit_nanos as u128;
    let mut cursor: i128 = 0;
    let mut total: u128 = 0;
    let mut i: usize = 0;
    while i < stamps.len()
        invariant
            i <= stamps@.len(),
            max_gap == policy.max_continuous_gap_nanos,
            credit == policy.session_start_credit_nanos,
            cursor == cursor_before(stamps@, i as int),
            total == total_effort(*policy, stamps@.take(i as int)),
            i <= usize::MAX,
        decreases stamps@.len() - i,
    {
        let t = stamps[i].instant_nanos();
        let gap = cursor - t;
        proof {
            let s = stamps@.take(i as int + 1);
            assert(s.drop_last() =~= stamps@.take(i as int));
            assert(gap_at(s, i as int) == gap_at(stamps@, i as int));
            lemma_total_bounds(*policy, stamps@.take(i as int));
            lemma_contribution_bounds(*policy, gap as int);
            assert(i * (u64::MAX as int) <= (u64::MAX as int) * (u64::MAX as int))
                by (nonlinear_arith)
                requires
                    i <= u64::MAX,
            ;
        }
        if 0 < gap && gap < max_gap {
            total = total + gap as u128;
        } else {
            total = total + credit;
        }
        cursor = t;
        i = i + 1;
    }
    assert(stamps@.take(stamps@.len() as int) =~= stamps@);
    total / NANOS_PER_HOUR as u128
}

} // verus!
