//! The cache-aside, stale-while-revalidate protocol that answers queries
//! from cached estimates and decides when an estimation job is launched.
use vstd::prelude::*;

verus! {

/// One completed estimate of a project, with the times (seconds since the
/// Unix epoch) at which it was computed and at which it goes stale.
#[derive(Debug)]
pub struct EffortEstimate {
    pub project_key: String,
    pub hours: u128,
    pub computed_at: u64,
    pub expires_at: u64,
}

impl EffortEstimate {
    pub open spec fn wf(&self) -> bool {
        self.expires_at > self.computed_at
    }
}

/// What the cache holds for a project key.
#[derive(Debug)]
pub enum CacheRecord {
    /// A job is in flight and no value exists yet.
    Pending,
    /// The result of the last completed job.
    Ready(EffortEstimate),
}

impl CacheRecord {
    /// A `Ready` record expires after it was computed.
    pub open spec fn wf(self) -> bool {
        match self {
            CacheRecord::Pending => true,
            CacheRecord::Ready(e) => e.wf(),
        }
    }
}

/// The answer to a query.
#[derive(Clone, Copy, Debug, PartialEq, Eq, Structural)]
pub enum QueryOutcome {
    Ready(u128),
    Pending,
    Invalid,
}

/// The atomic store operation that must succeed before a job is launched.
#[derive(Clone, Copy, Debug, PartialEq, Eq, Structural)]
pub enum JobClaim {
    /// No job is launched.
    NoJob,
    /// Create the `Pending` record if the key has none; launch if created.
    ReserveKey,
    /// Claim the refresh of the record that expired at the given time;
    /// launch if this call made the claim.
    ClaimRefresh(u64),
}

/// The answer to give at once, and the claim that guards a job launch.
#[derive(Clone, Copy, Debug, PartialEq, Eq, Structural)]
pub struct QueryDecision {
    pub outcome: QueryOutcome,
    pub claim: JobClaim,
}

/// The policy: no record reserves the key and answers `Pending`; a
/// `Pending` record answers `Pending`; a fresh `Ready` record answers its
/// hours; a stale one answers its hours too and claims a refresh.
pub open spec fn decide_spec(record: Option<CacheRecord>, now: u64) -> QueryDecision {
    match record {
        None => QueryDecision { outcome: QueryOutcome::Pending, claim: JobClaim::ReserveKey },
        Some(CacheRecord::Pending) => QueryDecision {
            outcome: QueryOutcome::Pending,
            claim: JobClaim::NoJob,
        },
        Some(CacheRecord::Ready(e)) => if now < e.expires_at {
            QueryDecision { outcome: QueryOutcome::Ready(e.hours), claim: JobClaim::NoJob }
        } else {
            QueryDecision {
                outcome: QueryOutcome::Ready(e.hours),
                claim: JobClaim::ClaimRefresh(e.expires_at),
            }
        },
    }
}

/// Decides a query for a validated key from the record read for it at `now`.
pub fn decide_query(record: &Option<CacheRecord>, now: u64) -> (r: QueryDecision)
    ensures
        r == decide_spec(*record, now),
{
    match record {
        None => QueryDecision { outcome: QueryOutcome::Pending, claim: JobClaim::ReserveKey },
        Some(CacheRecord::Pending) => QueryDecision {
            outcome: QueryOutcome::Pending,
            claim: JobClaim::NoJob,
        },
        Some(CacheRecord::Ready(e)) => {
            if now < e.expires_at {
                QueryDecision { outcome: QueryOutcome::Ready(e.hours), claim: JobClaim::NoJob }
            } else {
                QueryDecision {
                    outcome: QueryOutcome::Ready(e.hours),
                    claim: JobClaim::ClaimRefresh(e.expires_at),
                }
            }
        },
    }
}

/// Why an estimation job failed.
#[derive(Debug)]
pub enum JobFailure {
    /// A date header of the log did not parse; the line is kept.
    Parse(String),
    SourceUnreachable,
    SourceNotFound,
    SourceTimeout,
}

/// How a finished job changes the record of its key.
#[derive(Debug)]
pub enum StoreWrite {
    /// Overwrite the record.
    Put(CacheRecord),
    /// Remove the reservation so that a later query can retry.
    Remove,
    /// Leave the record as it is.
    Keep,
}

/// A success writes a fresh `Ready` record that expires `ttl` seconds after
/// `now`; a failure clears a `Pending` reservation and keeps anything else.
pub open spec fn is_job_write(
    key: Seq<char>,
    current: Option<CacheRecord>,
    result: Result<u128, JobFailure>,
    now: u64,
    ttl: u64,
    write: StoreWrite,
) -> bool {
    match result {
        Ok(hours) => match write {
            StoreWrite::Put(CacheRecord::Ready(e)) => {
                &&& e.project_key@ == key
                &&& e.hours == hours
                &&& e.computed_at == now
                &&& e.expires_at == now + ttl
            },
            _ => false,
        },
        Err(_) => match current {
            Some(CacheRecord::Pending) => write is Remove,
            _ => write is Keep,
        },
    }
}

/// The write that a finished job makes to its key's record, given the record
/// it finds there.
pub fn job_write(
    key: String,
    current: &Option<CacheRecord>,
    result: Result<u128, JobFailure>,
    now: u64,
    ttl: u64,
) -> (r: StoreWrite)
    requires
        ttl > 0,
        now + ttl <= u64::MAX,
    ensures
        is_job_write(key@, *current, result, now, ttl, r),
        r matches StoreWrite::Put(record) ==> record.wf(),
{
    match result {
        Ok(hours) => StoreWrite::Put(
            CacheRecord::Ready(
                EffortEstimate { project_key: key, hours, computed_at: now, expires_at: now + ttl },
            ),
        ),
        Err(_) => match current {
            Some(CacheRecord::Pending) => StoreWrite::Remove,
            _ => StoreWrite::Keep,
        },
    }
}

/// The store's contents: a record per key, and the refresh claims made so
/// far, each naming a key and the expiry of the record being refreshed.
pub type StoreRecords = Map<Seq<char>, CacheRecord>;

pub type RefreshClaims = Set<(Seq<char>, u64)>;

/// One atomic claim against the store: the new contents, and whether this
/// call won the claim (and so launches the job).
pub open spec fn apply_claim(
    records: StoreRecords,
    claims: RefreshClaims,
    key: Seq<char>,
    claim: JobClaim,
) -> (StoreRecords, RefreshClaims, bool) {
    match claim {
        JobClaim::NoJob => (records, claims, false),
        JobClaim::ReserveKey => if records.contains_key(key) {
            (records, claims, false)
        } else {
            (records.insert(key, CacheRecord::Pending), claims, true)
        },
        JobClaim::ClaimRefresh(expired_at) => if claims.contains((key, expired_at)) {
            (records, claims, false)
        } else {
            (records, claims.insert((key, expired_at)), true)
        },
    }
}

/// `n` queries that read the same record, and so reached the same claim,
/// apply it one after another: the contents after them and how many jobs
/// they launch.
pub open spec fn racing_claims(
    records: StoreRecords,
    claims: RefreshClaims,
    key: Seq<char>,
    claim: JobClaim,
    n: nat,
) -> (StoreRecords, RefreshClaims, nat)
    decreases n,
{
    if n == 0 {
        (records, claims, 0)
    } else {
        let (r, c, launched) = racing_claims(records, claims, key, claim, (n - 1) as nat);
        let (r2, c2, won) = apply_claim(r, c, key, claim);
        (r2, c2, if won { launched + 1 } else { launched })
    }
}

/// Whether the claim is already taken in the given contents.
pub open spec fn claim_taken(
    records: StoreRecords,
    claims: RefreshClaims,
    key: Seq<char>,
    claim: JobClaim,
) -> bool {
    match claim {
        JobClaim::NoJob => true,
        JobClaim::ReserveKey => records.contains_key(key),
        JobClaim::ClaimRefresh(expired_at) => claims.contains((key, expired_at)),
    }
}

/// A claim that is free before `n >= 1` racing queries is won by exactly one
/// of them; refresh claims leave the records untouched.
proof fn lemma_racing_claim_won_once(
    records: StoreRecords,
    claims: RefreshClaims,
    key: Seq<char>,
    claim: JobClaim,
    n: nat,
)
    requires
        n >= 1,
        claim != JobClaim::NoJob,
        !claim_taken(records, claims, key, claim),
    ensures
        racing_claims(records, claims, key, claim, n).2 == 1,
        claim_taken(
            racing_claims(records, claims, key, claim, n).0,
            racing_claims(records, claims, key, claim, n).1,
            key,
            claim,
        ),
        claim == JobClaim::ReserveKey ==> racing_claims(records, claims, key, claim, n).0
            == records.insert(key, CacheRecord::Pending),
        claim is ClaimRefresh ==> racing_claims(records, claims, key, claim, n).0 == records,
    decreases n,
{
    let prev = racing_claims(records, claims, key, claim, (n - 1) as nat);
    let step = apply_claim(prev.0, prev.1, key, claim);
    assert(racing_claims(records, claims, key, claim, n) == (
    step.0,
    step.1,
    if step.2 { prev.2 + 1 } else { prev.2 },
    ));
    if n > 1 {
        lemma_racing_claim_won_once(records, claims, key, claim, (n - 1) as nat);
    } else {
        assert(prev == (records, claims, 0nat));
    }
}

/// A key with no record, queried by `racers >= 1` concurrent queries that
/// all read it before any of them reserves it: every one answers `Pending`,
/// exactly one job is launched, and the key is left `Pending`, so that
/// every later query answers `Pending` and launches nothing.
pub proof fn lemma_first_queries_launch_once(
    records: StoreRecords,
    claims: RefreshClaims,
    key: Seq<char>,
    now: u64,
    racers: nat,
)
    requires
        !records.contains_key(key),
        racers >= 1,
    ensures
        decide_spec(None, now).outcome == QueryOutcome::Pending,
        racing_claims(records, claims, key, decide_spec(None, now).claim, racers).2 == 1,
        racing_claims(records, claims, key, decide_spec(None, now).claim, racers).0 == records.insert(
            key,
            CacheRecord::Pending,
        ),
        forall|later: u64|
            #![trigger decide_spec(Some(CacheRecord::Pending), later)]
            decide_spec(Some(CacheRecord::Pending), later) == (QueryDecision {
                outcome: QueryOutcome::Pending,
                claim: JobClaim::NoJob,
            }),
{
    lemma_racing_claim_won_once(records, claims, key, JobClaim::ReserveKey, racers);
}

/// A `Ready` record whose expiry has passed, read by `n >= 1` concurrent
/// queries before its refresh was claimed: every one answers the stale
/// hours, exactly one refresh job is launched, and the stale record stays
/// in place until that job overwrites it.
pub proof fn lemma_stale_record_refreshed_once(
    records: StoreRecords,
    claims: RefreshClaims,
    key: Seq<char>,
    now: u64,
    n: nat,
)
    requires
        records.contains_key(key),
        records[key] is Ready,
        now >= records[key]->Ready_0.expires_at,
        !claims.contains((key, records[key]->Ready_0.expires_at)),
        n >= 1,
    ensures
        decide_spec(Some(records[key]), now).outcome == QueryOutcome::Ready(
            records[key]->Ready_0.hours,
        ),
        racing_claims(records, claims, key, decide_spec(Some(records[key]), now).claim, n).2 == 1,
        racing_claims(records, claims, key, decide_spec(Some(records[key]), now).claim, n).0
            == records,
{
    let claim = decide_spec(Some(records[key]), now).claim;
    assert(claim == JobClaim::ClaimRefresh(records[key]->Ready_0.expires_at));
    lemma_racing_claim_won_once(records, claims, key, claim, n);
}

} // verus!
