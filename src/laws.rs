use vstd::prelude::*;
use crate::catalog::{
    apply_all, catalog_wf, lemma_first_open_bounds, open_unique, lemma_first_eligible_bounds, first_open, is_open_match,
    lemma_step_preserves_wf, live_chunks, owns, retry, step,
    step_register_chunk, step_schedule, CatalogModel, Effect, Job, JobKind, JobState, Mutation,
    Policy, partition_is_active, first_eligible, is_eligible, step_lease_next, Capabilities,
};
use crate::error::CubeErrorCauseType;

verus! {

/// Applying one batch of mutations and then another gives the catalog that
/// applying all of them, in that order, gives: the writer's result is the
/// sequential application of its queue.
pub proof fn lemma_apply_all_append(m: CatalogModel, a: Seq<Mutation>, b: Seq<Mutation>)
    ensures
        apply_all(m, a + b) == apply_all(apply_all(m, a), b),
    decreases a.len(),
{
    if a.len() == 0 {
        assert(a + b =~= b);
    } else {
        assert((a + b).drop_first() =~= a.drop_first() + b);
        assert((a + b)[0] == a[0]);
        lemma_apply_all_append(step(m, a[0]).0, a.drop_first(), b);
    }
}

/// Applying the first `k + 1` mutations is applying the first `k`, then
/// mutation `k`.
pub proof fn lemma_apply_all_prefix(m: CatalogModel, ops: Seq<Mutation>, k: int)
    requires
        0 <= k < ops.len(),
    ensures
        apply_all(m, ops.take(k + 1)) == step(apply_all(m, ops.take(k)), ops[k]).0,
{
    let one = seq![ops[k]];
    assert(ops.take(k + 1) =~= ops.take(k) + one);
    lemma_apply_all_append(m, ops.take(k), one);
    let x = apply_all(m, ops.take(k));
    assert(one.drop_first() =~= Seq::<Mutation>::empty());
    assert(apply_all(x, one) == apply_all(step(x, one[0]).0, one.drop_first()));
}

/// Two holders of a valid lease on one job are the same node with the same
/// token; and one token is held on one job at most.
pub proof fn lemma_lease_exclusive(
    m: CatalogModel,
    j1: usize,
    j2: usize,
    n1: usize,
    n2: usize,
    t1: u64,
    t2: u64,
    now: u64,
)
    requires
        catalog_wf(m),
        owns(m, j1, n1, t1, now),
        owns(m, j2, n2, t2, now),
    ensures
        j1 == j2 ==> n1 == n2 && t1 == t2,
        t1 == t2 ==> j1 == j2,
{
    if t1 == t2 && j1 != j2 {
        assert(m.jobs[j1 as int].lease is Some && m.jobs[j2 as int].lease is Some);
    }
}

/// Once a job is dead-lettered, no mutation changes it.
pub open spec fn dead_letters_kept(a: CatalogModel, b: CatalogModel) -> bool {
    &&& a.jobs.len() <= b.jobs.len()
    &&& forall|i: int|
        0 <= i < a.jobs.len() && (#[trigger] a.jobs[i]).state == JobState::DeadLettered ==> b.jobs[i]
            == a.jobs[i]
}

/// A job that fails, or loses its lease, once its retries are used up is
/// dead-lettered.
pub proof fn lemma_retry_ceiling(j: Job, p: Policy, now: u64)
    requires
        j.retries >= p.retry_limit,
    ensures
        retry(j, p, now).state == JobState::DeadLettered,
        retry(j, p, now).lease is None,
{
}

/// One mutation never revives a dead-lettered job nor removes a job.
pub proof fn lemma_step_keeps_dead_letters(m: CatalogModel, op: Mutation)
    requires
        catalog_wf(m),
    ensures
        dead_letters_kept(m, step(m, op).0),
{
    let s = step(m, op).0;
    match op {
        Mutation::ExpireNodes { now } => {
            assert(s.jobs.len() == m.jobs.len());
            assert forall|i: int|
                0 <= i < m.jobs.len() && (#[trigger] m.jobs[i]).state
                    == JobState::DeadLettered implies s.jobs[i] == m.jobs[i] by {
                assert(m.jobs[i].lease is None);
            }
        },
        Mutation::LeaseNext { node, caps, now } => {
            lemma_first_eligible_bounds(m.jobs, caps, now, 0);
            assert forall|i: int|
                0 <= i < m.jobs.len() && (#[trigger] m.jobs[i]).state
                    == JobState::DeadLettered implies s.jobs[i] == m.jobs[i] by {}
        },
        Mutation::Complete { job, node, token, now, outputs, retired } => {
            assert forall|i: int|
                0 <= i < m.jobs.len() && (#[trigger] m.jobs[i]).state
                    == JobState::DeadLettered implies s.jobs[i] == m.jobs[i] by {}
        },
        _ => {
            assert forall|i: int|
                0 <= i < m.jobs.len() && (#[trigger] m.jobs[i]).state
                    == JobState::DeadLettered implies s.jobs[i] == m.jobs[i] by {}
        },
    }
}

/// Over any sequence of mutations a dead-lettered job stays as it is: it never
/// returns to `Scheduled`.
pub proof fn lemma_dead_letter_permanent(m: CatalogModel, ops: Seq<Mutation>)
    requires
        catalog_wf(m),
    ensures
        dead_letters_kept(m, apply_all(m, ops)),
        catalog_wf(apply_all(m, ops)),
    decreases ops.len(),
{
    if ops.len() > 0 {
        let s = step(m, ops[0]).0;
        lemma_step_keeps_dead_letters(m, ops[0]);
        lemma_step_preserves_wf(m, ops[0]);
        lemma_dead_letter_permanent(s, ops.drop_first());
        let e = apply_all(s, ops.drop_first());
        assert forall|i: int|
            0 <= i < m.jobs.len() && (#[trigger] m.jobs[i]).state == JobState::DeadLettered implies e.jobs[i]
            == m.jobs[i] by {
            assert(s.jobs[i] == m.jobs[i]);
        }
    }
}

proof fn lemma_live_chunks_contains_last(m: CatalogModel, p: usize)
    requires
        m.chunks.len() > 0,
        m.chunks.last().partition_id == p,
        !m.chunks.last().deleted,
    ensures
        live_chunks(m, p).contains((m.chunks.len() - 1) as usize),
{
    let s = live_chunks(m, p);
    assert(s.last() == (m.chunks.len() - 1) as usize);
}

/// Registering a chunk in an active partition succeeds, and the partition's
/// live chunks, read at once, include it; any other partition is refused.
pub proof fn lemma_register_then_read(m: CatalogModel, p: usize, size: u64, rows: u64, uploaded: bool)
    ensures
        step_register_chunk(m, p, size, rows, uploaded).1 is Ok == partition_is_active(m, p),
        partition_is_active(m, p) ==> ({
            let (s, o) = step_register_chunk(m, p, size, rows, uploaded);
            &&& o == Ok::<Effect, crate::error::CubeErrorCauseType>(
                Effect::Created(m.chunks.len() as usize),
            )
            &&& live_chunks(s, p).contains(m.chunks.len() as usize)
        }),
{
    if partition_is_active(m, p) {
        let s = step_register_chunk(m, p, size, rows, uploaded).0;
        lemma_live_chunks_contains_last(s, p);
    }
}

proof fn lemma_first_open_push(jobs: Seq<Job>, j: Job, kind: JobKind, target: usize, i: int)
    requires
        0 <= i <= jobs.len(),
        first_open(jobs, kind, target, i) == jobs.len(),
        is_open_match(j, kind, target),
    ensures
        first_open(jobs.push(j), kind, target, i) == jobs.len(),
    decreases jobs.len() - i,
{
    if i < jobs.len() {
        assert(jobs.push(j)[i] == jobs[i]);
        lemma_first_open_push(jobs, j, kind, target, i + 1);
    } else {
        assert(jobs.push(j)[i] == j);
    }
}

proof fn lemma_first_open_skip(jobs: Seq<Job>, kind: JobKind, target: usize, i: int, j: int)
    requires
        0 <= i <= j < jobs.len(),
        is_open_match(jobs[j], kind, target),
        forall|k: int| i <= k < j ==> !is_open_match(#[trigger] jobs[k], kind, target),
    ensures
        first_open(jobs, kind, target, i) == j,
    decreases j - i,
{
    if i < j {
        lemma_first_open_skip(jobs, kind, target, i + 1, j);
    }
}

/// While an unfinished job of a kind exists on a target, scheduling that kind
/// on that target, after any history of writes, returns that job and changes
/// nothing.
pub proof fn lemma_schedule_returns_open_job(m: CatalogModel, kind: JobKind, target: usize, j: usize)
    requires
        catalog_wf(m),
        j < m.jobs.len(),
        is_open_match(m.jobs[j as int], kind, target),
    ensures
        step_schedule(m, kind, target) == (m, Ok::<Effect, CubeErrorCauseType>(Effect::Existing(j))),
{
    assert forall|k: int| 0 <= k < j implies !is_open_match(#[trigger] m.jobs[k], kind, target) by {
        if is_open_match(m.jobs[k], kind, target) {
            assert(open_unique(m.jobs));
            assert(is_open_match(m.jobs[k], m.jobs[j as int].kind, m.jobs[j as int].target));
        }
    }
    lemma_first_open_skip(m.jobs, kind, target, 0, j as int);
}

/// Scheduling the same kind of job on the same target twice gives the same
/// job id the second time, and the second call changes nothing.
pub proof fn lemma_schedule_idempotent(m: CatalogModel, kind: JobKind, target: usize)
    ensures
        ({
            let (m1, o1) = step_schedule(m, kind, target);
            let (m2, o2) = step_schedule(m1, kind, target);
            &&& m2 == m1
            &&& o1 matches Ok(e1)
            &&& o2 matches Ok(Effect::Existing(id))
            &&& (e1 == Effect::Created(id) || e1 == Effect::Existing(id))
        }),
{
    lemma_first_open_bounds(m.jobs, kind, target, 0);
    let i = first_open(m.jobs, kind, target, 0);
    if i >= m.jobs.len() {
        let j = Job {
            kind,
            target,
            state: JobState::Scheduled,
            retries: 0,
            not_before: 0,
            lease: None,
        };
        lemma_first_open_push(m.jobs, j, kind, target, 0);
    }
}

proof fn lemma_none_eligible_from(jobs: Seq<Job>, caps: Capabilities, now: u64, i: int)
    requires
        0 <= i <= jobs.len(),
        forall|k: int| i <= k < jobs.len() ==> !is_eligible(#[trigger] jobs[k], caps, now),
    ensures
        first_eligible(jobs, caps, now, i) == jobs.len(),
    decreases jobs.len() - i,
{
    if i < jobs.len() {
        lemma_none_eligible_from(jobs, caps, now, i + 1);
    }
}

/// Where one job alone can be leased, a lease by one node takes it and a
/// second lease right after, by any live node, finds no work.
pub proof fn lemma_one_job_two_leases(
    m: CatalogModel,
    n1: usize,
    n2: usize,
    caps: Capabilities,
    now: u64,
    job: usize,
)
    requires
        job < m.jobs.len(),
        is_eligible(m.jobs[job as int], caps, now),
        forall|k: int| 0 <= k < m.jobs.len() && k != job ==> !is_eligible(#[trigger] m.jobs[k], caps, now),
        n1 < m.nodes.len() && m.nodes[n1 as int].alive,
        n2 < m.nodes.len() && m.nodes[n2 as int].alive,
        m.next_token < u64::MAX - 1,
    ensures
        ({
            let (m1, o1) = step_lease_next(m, n1, caps, now);
            let (m2, o2) = step_lease_next(m1, n2, caps, now);
            &&& o1 matches Ok(Effect::Granted(g)) && g.job == job
            &&& o2 == Ok::<Effect, CubeErrorCauseType>(Effect::NoWork)
            &&& m2 == m1
        }),
{
    lemma_none_eligible_from(m.jobs, caps, now, job + 1);
    lemma_first_eligible_from_skip(m.jobs, caps, now, 0, job as int);
    let m1 = step_lease_next(m, n1, caps, now).0;
    assert(m1.jobs[job as int].state == JobState::Leased);
    assert forall|k: int| 0 <= k < m1.jobs.len() implies !is_eligible(#[trigger] m1.jobs[k], caps, now) by {
        if k != job {
            assert(m1.jobs[k] == m.jobs[k]);
        }
    }
    lemma_none_eligible_from(m1.jobs, caps, now, 0);
    assert(step_lease_next(m1, n2, caps, now).1 == Ok::<Effect, CubeErrorCauseType>(Effect::NoWork));
    assert(step_lease_next(m1, n2, caps, now).0 == m1);
}

proof fn lemma_first_eligible_from_skip(jobs: Seq<Job>, caps: Capabilities, now: u64, i: int, j: int)
    requires
        0 <= i <= j < jobs.len(),
        is_eligible(jobs[j], caps, now),
        forall|k: int| i <= k < j ==> !is_eligible(#[trigger] jobs[k], caps, now),
    ensures
        first_eligible(jobs, caps, now, i) == j,
    decreases j - i,
{
    if i < j {
        lemma_first_eligible_from_skip(jobs, caps, now, i + 1, j);
    }
}

} // verus!
