use vstd::prelude::*;
use crate::catalog::{
    live_chunks, live_chunks_upto, partition_is_active, sat_add, step_schedule, CatalogModel, Effect, JobKind,
};
use crate::error::CubeError;
use crate::metastore::{result_is, sat_add_exec, Metastore};

verus! {

/// When a partition needs maintenance: more live chunks than `max_chunks`
/// call for a compaction; more rows than `max_rows` for a split.
#[derive(Debug, Clone, Copy)]
pub struct Thresholds {
    pub max_chunks: usize,
    pub max_rows: u64,
}

/// The rows of the first `n` chunks listed in `ids`, summed and held at the
/// largest `u64`.
pub open spec fn rows_upto(m: CatalogModel, ids: Seq<usize>, n: int) -> u64
    decreases n,
{
    if n <= 0 {
        0
    } else {
        sat_add(rows_upto(m, ids, n - 1), m.chunks[ids[n - 1] as int].rows)
    }
}

/// The rows in the live chunks of partition `p`.
pub open spec fn partition_rows(m: CatalogModel, p: usize) -> u64 {
    rows_upto(m, live_chunks(m, p), live_chunks(m, p).len() as int)
}

/// The job that partition `p` calls for, if any. Superseded partitions call
/// for none; compaction comes before a split.
pub open spec fn maintenance_for(m: CatalogModel, p: usize, t: Thresholds) -> Option<JobKind> {
    if !partition_is_active(m, p) {
        None
    } else if live_chunks(m, p).len() > t.max_chunks {
        Some(JobKind::Compaction)
    } else if partition_rows(m, p) > t.max_rows {
        Some(JobKind::Repartition)
    } else {
        None
    }
}

proof fn lemma_live_chunks_in_range(m: CatalogModel, p: usize, n: int)
    requires
        0 <= n <= m.chunks.len(),
    ensures
        forall|k: int|
            0 <= k < live_chunks_upto(m.chunks, p, n).len() ==> (#[trigger] live_chunks_upto(
                m.chunks,
                p,
                n,
            )[k]) < n,
    decreases n,
{
    if n > 0 {
        lemma_live_chunks_in_range(m, p, n - 1);
        let prev = live_chunks_upto(m.chunks, p, n - 1);
        let cur = live_chunks_upto(m.chunks, p, n);
        assert forall|k: int| 0 <= k < cur.len() implies (#[trigger] cur[k]) < n by {
            if k < prev.len() {
                assert(cur[k] == prev[k]);
            }
        }
    }
}

/// The rows in the live chunks of partition `p`, held at the largest `u64`.
pub fn partition_row_count(store: &Metastore, p: usize) -> (r: u64)
    ensures
        r == partition_rows(store.model(), p),
{
    let ids = store.partition_chunks(p);
    proof {
        lemma_live_chunks_in_range(store.model(), p, store.model().chunks.len() as int);
    }
    let mut total: u64 = 0;
    let mut i: usize = 0;
    while i < ids.len()
        invariant
            ids@ == live_chunks(store.model(), p),
            i <= ids@.len(),
            total == rows_upto(store.model(), ids@, i as int),
            forall|k: int| 0 <= k < ids@.len() ==> (#[trigger] ids@[k]) < store.model().chunks.len(),
        decreases ids@.len() - i,
    {
        let c = store.chunk(ids[i]).unwrap();
        total = sat_add_exec(total, c.rows);
        i = i + 1;
    }
    total
}

/// The job that partition `p` calls for, if any.
pub fn needed_maintenance(store: &Metastore, p: usize, t: Thresholds) -> (r: Option<JobKind>)
    ensures
        r == maintenance_for(store.model(), p, t),
{
    match store.partition(p) {
        None => None,
        Some(part) => {
            if !part.active {
                None
            } else if store.partition_chunks(p).len() > t.max_chunks {
                Some(JobKind::Compaction)
            } else if partition_row_count(store, p) > t.max_rows {
                Some(JobKind::Repartition)
            } else {
                None
            }
        },
    }
}

/// Re-evaluates partition `p` after a change, from the catalog alone, and
/// schedules the job that it calls for: `Ok(None)` where it calls for none.
/// Scheduling is idempotent, so calling this again changes nothing more.
pub fn on_partition_changed(store: &mut Metastore, p: usize, t: Thresholds) -> (r: Result<
    Option<Effect>,
    CubeError,
>)
    requires
        old(store).wf(),
    ensures
        final(store).wf(),
        maintenance_for(old(store).model(), p, t) is None ==> (r matches Ok(None))
            && final(store).model() == old(store).model(),
        maintenance_for(old(store).model(), p, t) is Some ==> final(store).model() == step_schedule(
            old(store).model(),
            maintenance_for(old(store).model(), p, t)->Some_0,
            p,
        ).0 && (r matches Ok(Some(e))) && result_is(
            Ok(r->Ok_0->Some_0),
            step_schedule(old(store).model(), maintenance_for(old(store).model(), p, t)->Some_0, p).1,
        ),
{
    match needed_maintenance(store, p, t) {
        None => Ok(None),
        Some(kind) => {
            let r = store.schedule(kind, p);
            match r {
                Ok(e) => Ok(Some(e)),
                Err(e) => Err(e),
            }
        },
    }
}

} // verus!
