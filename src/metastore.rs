use vstd::prelude::*;
use crate::catalog::{
    accepts, backoff, completion_valid, first_eligible, first_open, holds, lease_lost, new_chunk,
    partition_is_active, retire_chunks, retry, sat_add, step_add_partition, step_complete,
    step_expire, step_fail, step_heartbeat, step_lease_next, step_register_chunk,
    step_register_node, step_renew, step_schedule, step_split_partition, step_start,
    catalog_wf, expire_node, apply_all, event_for, event_shape, step_add_table, step_mark_uploaded, Table, dead_jobs_upto, lemma_step_preserves_wf, live_chunks,
    live_chunks_upto, events_for, died_upto, released_upto, silent, event, step, Mutation, CatalogModel, Capabilities, Chunk, Effect, Job, JobKind, JobState,
    Lease, LeaseGrant, NewChunk, Node, Outcome, Partition, Policy,
};
use crate::error::CubeError;
use crate::laws::lemma_apply_all_prefix;
use crate::events::{EntityKind, EventBus, MetaStoreEvent, Operation, RecvOutcome};

verus! {

/// What a mutation returned agrees with the outcome of its step: the same
/// effect, or an error of the same cause.
pub open spec fn result_is(r: Result<Effect, CubeError>, o: Outcome) -> bool {
    match o {
        Ok(e) => r matches Ok(x) && x == e,
        Err(c) => r matches Err(err) && err.spec_cause() == c,
    }
}

pub fn sat_add_exec(a: u64, b: u64) -> (r: u64)
    ensures
        r == sat_add(a, b),
{
    if a > u64::MAX - b {
        u64::MAX
    } else {
        a + b
    }
}

/// The delay before retry number `n + 1`: `base` doubled `n` times, held at
/// the largest `u64`.
pub fn backoff_delay(base: u64, n: u64) -> (r: u64)
    ensures
        r == backoff(base, n as nat),
{
    let mut d: u64 = base;
    let mut k: u64 = 0;
    while k < n
        invariant
            k <= n,
            d == backoff(base, k as nat),
        decreases n - k,
    {
        d = sat_add_exec(d, d);
        k = k + 1;
    }
    d
}

fn accepts_exec(c: Capabilities, k: JobKind) -> (r: bool)
    ensures
        r == accepts(c, k),
{
    match k {
        JobKind::Compaction => c.compaction,
        JobKind::Repartition => c.repartition,
        JobKind::Finalize => c.finalize,
    }
}

fn retry_exec(j: Job, p: Policy, now: u64) -> (r: Job)
    ensures
        r == retry(j, p, now),
{
    if j.retries >= p.retry_limit {
        Job { state: JobState::DeadLettered, lease: None, ..j }
    } else {
        let delay = backoff_delay(p.backoff_base, j.retries);
        Job {
            state: JobState::Scheduled,
            lease: None,
            retries: j.retries + 1,
            not_before: sat_add_exec(now, delay),
            ..j
        }
    }
}

fn holds_exec(j: &Job, node: usize, token: u64, now: u64) -> (r: bool)
    ensures
        r == holds(*j, node, token, now),
{
    match j.lease {
        Some(l) => (j.state == JobState::Leased || j.state == JobState::Running) && l.node == node
            && l.token == token && now < l.expires_at,
        None => false,
    }
}

/// The catalog: partitions, chunks, jobs and nodes, changed only by
/// mutations, one at a time, each published as an event once applied.
pub struct Metastore {
    tables: Vec<Table>,
    partitions: Vec<Partition>,
    chunks: Vec<Chunk>,
    jobs: Vec<Job>,
    nodes: Vec<Node>,
    next_token: u64,
    policy: Policy,
    bus: EventBus,
}

impl Metastore {
    pub closed spec fn model(&self) -> CatalogModel {
        CatalogModel {
            tables: self.tables@,
            partitions: self.partitions@,
            chunks: self.chunks@,
            jobs: self.jobs@,
            nodes: self.nodes@,
            next_token: self.next_token,
            policy: self.policy,
        }
    }

    pub closed spec fn bus(&self) -> EventBus {
        self.bus
    }

    pub open spec fn wf(&self) -> bool {
        catalog_wf(self.model()) && self.bus().wf()
    }

    /// An empty catalog under `policy`, whose subscribers may each fall up to
    /// `event_bound` events behind.
    pub fn new(policy: Policy, event_bound: usize) -> (r: Metastore)
        requires
            event_bound > 0,
        ensures
            r.wf(),
            r.model() == (CatalogModel {
                tables: Seq::empty(),
                partitions: Seq::empty(),
                chunks: Seq::empty(),
                jobs: Seq::empty(),
                nodes: Seq::empty(),
                next_token: 0,
                policy,
            }),
            r.bus().log().len() == 0,
            r.bus().num_subscribers() == 0,
    {
        Metastore {
            tables: Vec::new(),
            partitions: Vec::new(),
            chunks: Vec::new(),
            jobs: Vec::new(),
            nodes: Vec::new(),
            next_token: 0,
            policy,
            bus: EventBus::new(event_bound),
        }
    }

    fn apply_add_table(&mut self, t: Table) -> (r: Result<Effect, CubeError>)
        ensures
            final(self).model() == step_add_table(old(self).model(), t).0,
            result_is(r, step_add_table(old(self).model(), t).1),
            final(self).bus() == old(self).bus(),
    {
        let mut i: usize = 0;
        while i < t.key_columns.len()
            invariant
                i <= t.key_columns@.len(),
                forall|k: int| 0 <= k < i ==> #[trigger] t.key_columns@[k] < t.columns@.len(),
            decreases t.key_columns@.len() - i,
        {
            if t.key_columns[i] >= t.columns.len() {
                return Err(CubeError::user(String::from_str("key column out of range")));
            }
            i = i + 1;
        }
        let id = self.tables.len();
        self.tables.push(t);
        Ok(Effect::Created(id))
    }

    fn apply_add_partition(&mut self, table_id: usize) -> (r: Result<Effect, CubeError>)
        ensures
            final(self).model() == step_add_partition(old(self).model(), table_id).0,
            result_is(r, step_add_partition(old(self).model(), table_id).1),
            final(self).bus() == old(self).bus(),
    {
        if table_id >= self.tables.len() {
            return Err(CubeError::user(String::from_str("unknown table")));
        }
        let id = self.partitions.len();
        self.partitions.push(Partition { table_id, generation: 0, active: true });
        Ok(Effect::Created(id))
    }

    fn apply_split_partition(&mut self, p: usize) -> (r: Result<Effect, CubeError>)
        ensures
            final(self).model() == step_split_partition(old(self).model(), p).0,
            result_is(r, step_split_partition(old(self).model(), p).1),
            final(self).bus() == old(self).bus(),
    {
        if p >= self.partitions.len() || !self.partitions[p].active {
            return Err(CubeError::user(String::from_str("partition is missing or superseded")));
        }
        let old = self.partitions[p];
        if old.generation == u64::MAX {
            return Err(CubeError::internal(String::from_str("partition generation overflow")));
        }
        let id = self.partitions.len();
        self.partitions.set(p, Partition { active: false, ..old });
        self.partitions.push(Partition { generation: old.generation + 1, ..old });
        Ok(Effect::Created(id))
    }

    fn apply_register_chunk(&mut self, p: usize, size: u64, rows: u64, uploaded: bool) -> (r:
        Result<Effect, CubeError>)
        ensures
            final(self).model() == step_register_chunk(old(self).model(), p, size, rows, uploaded).0,
            result_is(r, step_register_chunk(old(self).model(), p, size, rows, uploaded).1),
            final(self).bus() == old(self).bus(),
    {
        if p >= self.partitions.len() || !self.partitions[p].active {
            return Err(CubeError::user(String::from_str("partition is missing or superseded")));
        }
        let id = self.chunks.len();
        self.chunks.push(Chunk { partition_id: p, size, rows, uploaded, deleted: false });
        Ok(Effect::Created(id))
    }

    fn apply_mark_uploaded(&mut self, c: usize) -> (r: Result<Effect, CubeError>)
        ensures
            final(self).model() == step_mark_uploaded(old(self).model(), c).0,
            result_is(r, step_mark_uploaded(old(self).model(), c).1),
            final(self).bus() == old(self).bus(),
    {
        if c >= self.chunks.len() || self.chunks[c].deleted {
            return Err(CubeError::user(String::from_str("chunk is missing or deleted")));
        }
        let ch = self.chunks[c];
        self.chunks.set(c, Chunk { uploaded: true, ..ch });
        Ok(Effect::Updated)
    }

    fn apply_register_node(&mut self, now: u64) -> (r: Result<Effect, CubeError>)
        ensures
            final(self).model() == step_register_node(old(self).model(), now).0,
            result_is(r, step_register_node(old(self).model(), now).1),
            final(self).bus() == old(self).bus(),
    {
        let id = self.nodes.len();
        self.nodes.push(Node { last_heartbeat: now, alive: true });
        Ok(Effect::Created(id))
    }

    fn apply_heartbeat(&mut self, n: usize, now: u64) -> (r: Result<Effect, CubeError>)
        ensures
            final(self).model() == step_heartbeat(old(self).model(), n, now).0,
            result_is(r, step_heartbeat(old(self).model(), n, now).1),
            final(self).bus() == old(self).bus(),
    {
        if n >= self.nodes.len() {
            return Err(CubeError::user(String::from_str("unknown node")));
        }
        self.nodes.set(n, Node { last_heartbeat: now, alive: true });
        Ok(Effect::Updated)
    }

    fn apply_expire(&mut self, now: u64) -> (r: Result<Effect, CubeError>)
        ensures
            final(self).model() == step_expire(old(self).model(), now).0,
            result_is(r, step_expire(old(self).model(), now).1),
            final(self).bus() == old(self).bus(),
    {
        let ghost m = self.model();
        let timeout = self.policy.heartbeat_timeout;
        let n = self.nodes.len();
        let mut i: usize = 0;
        while i < n
            invariant
                n == self.nodes@.len(),
                n == m.nodes.len(),
                i <= n,
                timeout == m.policy.heartbeat_timeout,
                self.partitions@ == m.partitions,
                self.tables@ == m.tables,
                self.chunks@ == m.chunks,
                self.jobs@ == m.jobs,
                self.next_token == m.next_token,
                self.policy == m.policy,
                self.bus == old(self).bus,
                forall|k: int| 0 <= k < i ==> #[trigger] self.nodes@[k] == expire_node(m.nodes[k], now, timeout),
                forall|k: int| i <= k < n ==> #[trigger] self.nodes@[k] == m.nodes[k],
            decreases n - i,
        {
            let nd = self.nodes[i];
            if nd.alive && now > nd.last_heartbeat && now - nd.last_heartbeat > timeout {
                self.nodes.set(i, Node { alive: false, ..nd });
            }
            i = i + 1;
        }
        let ghost nodes = Seq::new(
            m.nodes.len(),
            |k: int| expire_node(m.nodes[k], now, m.policy.heartbeat_timeout),
        );
        assert(self.nodes@ =~= nodes);
        let nj = self.jobs.len();
        let mut i: usize = 0;
        while i < nj
            invariant
                nj == self.jobs@.len(),
                nj == m.jobs.len(),
                i <= nj,
                self.nodes@ == nodes,
                self.partitions@ == m.partitions,
                self.tables@ == m.tables,
                self.chunks@ == m.chunks,
                self.next_token == m.next_token,
                self.policy == m.policy,
                self.bus == old(self).bus,
                forall|k: int|
                    0 <= k < i ==> #[trigger] self.jobs@[k] == (if lease_lost(m.jobs[k], nodes, now) {
                        retry(m.jobs[k], m.policy, now)
                    } else {
                        m.jobs[k]
                    }),
                forall|k: int| i <= k < nj ==> #[trigger] self.jobs@[k] == m.jobs[k],
            decreases nj - i,
        {
            let j = self.jobs[i];
            let lost = match j.lease {
                Some(l) => l.node >= self.nodes.len() || !self.nodes[l.node].alive || l.expires_at
                    <= now,
                None => false,
            };
            if lost {
                let rj = retry_exec(j, self.policy, now);
                self.jobs.set(i, rj);
            }
            i = i + 1;
        }
        proof {
            let s = step_expire(m, now).0;
            assert(self.jobs@ =~= s.jobs);
        }
        Ok(Effect::Updated)
    }

    fn apply_schedule(&mut self, kind: JobKind, target: usize) -> (r: Result<Effect, CubeError>)
        ensures
            final(self).model() == step_schedule(old(self).model(), kind, target).0,
            result_is(r, step_schedule(old(self).model(), kind, target).1),
            final(self).bus() == old(self).bus(),
    {
        let n = self.jobs.len();
        let mut i: usize = 0;
        while i < n
            invariant
                n == self.jobs@.len(),
                i <= n,
                first_open(self.jobs@, kind, target, 0) == first_open(self.jobs@, kind, target, i as int),
                self.model() == old(self).model(),
                self.bus == old(self).bus,
            decreases n - i,
        {
            let j = self.jobs[i];
            let terminal = j.state == JobState::Done || j.state == JobState::DeadLettered;
            if j.kind == kind && j.target == target && !terminal {
                return Ok(Effect::Existing(i));
            }
            i = i + 1;
        }
        self.jobs.push(
            Job {
                kind,
                target,
                state: JobState::Scheduled,
                retries: 0,
                not_before: 0,
                lease: None,
            },
        );
        Ok(Effect::Created(n))
    }

    fn apply_lease_next(&mut self, node: usize, caps: Capabilities, now: u64) -> (r: Result<
        Effect,
        CubeError,
    >)
        ensures
            final(self).model() == step_lease_next(old(self).model(), node, caps, now).0,
            result_is(r, step_lease_next(old(self).model(), node, caps, now).1),
            final(self).bus() == old(self).bus(),
    {
        if node >= self.nodes.len() || !self.nodes[node].alive {
            return Err(CubeError::user(String::from_str("unknown or dead node")));
        }
        if self.next_token == u64::MAX {
            return Err(CubeError::internal(String::from_str("lease tokens exhausted")));
        }
        let n = self.jobs.len();
        let mut i: usize = 0;
        while i < n
            invariant
                n == self.jobs@.len(),
                i <= n,
                first_eligible(self.jobs@, caps, now, 0) == first_eligible(self.jobs@, caps, now, i as int),
                self.model() == old(self).model(),
                self.bus == old(self).bus,
                self.next_token < u64::MAX,
                node < self.nodes@.len(),
                self.nodes@[node as int].alive,
            decreases n - i,
        {
            let j = self.jobs[i];
            if j.state == JobState::Scheduled && accepts_exec(caps, j.kind) && j.not_before <= now {
                let token = self.next_token;
                let expires_at = sat_add_exec(now, self.policy.lease_ttl);
                let l = Lease { node, token, expires_at };
                self.jobs.set(i, Job { state: JobState::Leased, lease: Some(l), ..j });
                self.next_token = token + 1;
                return Ok(Effect::Granted(LeaseGrant { job: i, token, expires_at }));
            }
            i = i + 1;
        }
        Ok(Effect::NoWork)
    }

    fn apply_renew(&mut self, job: usize, node: usize, token: u64, now: u64) -> (r: Result<
        Effect,
        CubeError,
    >)
        ensures
            final(self).model() == step_renew(old(self).model(), job, node, token, now).0,
            result_is(r, step_renew(old(self).model(), job, node, token, now).1),
            final(self).bus() == old(self).bus(),
    {
        if job >= self.jobs.len() || !holds_exec(&self.jobs[job], node, token, now) {
            return Err(CubeError::user(String::from_str("lease is not held")));
        }
        let j = self.jobs[job];
        let l = j.lease.unwrap();
        let expires_at = sat_add_exec(now, self.policy.lease_ttl);
        self.jobs.set(job, Job { lease: Some(Lease { expires_at, ..l }), ..j });
        Ok(Effect::Updated)
    }

    fn apply_start(&mut self, job: usize, node: usize, token: u64, now: u64) -> (r: Result<
        Effect,
        CubeError,
    >)
        ensures
            final(self).model() == step_start(old(self).model(), job, node, token, now).0,
            result_is(r, step_start(old(self).model(), job, node, token, now).1),
            final(self).bus() == old(self).bus(),
    {
        if job >= self.jobs.len() || !holds_exec(&self.jobs[job], node, token, now)
            || self.jobs[job].state != JobState::Leased {
            return Err(CubeError::user(String::from_str("lease is not held")));
        }
        let j = self.jobs[job];
        self.jobs.set(job, Job { state: JobState::Running, ..j });
        Ok(Effect::Updated)
    }

    fn apply_fail(&mut self, job: usize, node: usize, token: u64, now: u64) -> (r: Result<
        Effect,
        CubeError,
    >)
        ensures
            final(self).model() == step_fail(old(self).model(), job, node, token, now).0,
            result_is(r, step_fail(old(self).model(), job, node, token, now).1),
            final(self).bus() == old(self).bus(),
    {
        if job >= self.jobs.len() || !holds_exec(&self.jobs[job], node, token, now) {
            return Err(CubeError::user(String::from_str("lease is not held")));
        }
        let j = self.jobs[job];
        let rj = retry_exec(j, self.policy, now);
        self.jobs.set(job, rj);
        Ok(Effect::Updated)
    }

    fn completion_valid_exec(&self, outputs: &Vec<NewChunk>, retired: &Vec<usize>) -> (r: bool)
        ensures
            r == completion_valid(self.model(), outputs@, retired@),
    {
        let mut i: usize = 0;
        while i < outputs.len()
            invariant
                i <= outputs@.len(),
                forall|k: int| 0 <= k < i ==> partition_is_active(self.model(), #[trigger] outputs@[k].partition_id),
            decreases outputs@.len() - i,
        {
            let p = outputs[i].partition_id;
            if p >= self.partitions.len() || !self.partitions[p].active {
                return false;
            }
            i = i + 1;
        }
        let mut i: usize = 0;
        while i < retired.len()
            invariant
                i <= retired@.len(),
                forall|k: int|
                    0 <= k < i ==> #[trigger] retired@[k] < self.chunks@.len() && !self.chunks@[retired@[k] as int].deleted,
            decreases retired@.len() - i,
        {
            let c = retired[i];
            if c >= self.chunks.len() || self.chunks[c].deleted {
                return false;
            }
            i = i + 1;
        }
        true
    }

    fn apply_complete(
        &mut self,
        job: usize,
        node: usize,
        token: u64,
        now: u64,
        outputs: &Vec<NewChunk>,
        retired: &Vec<usize>,
    ) -> (r: Result<Effect, CubeError>)
        ensures
            final(self).model() == step_complete(old(self).model(), job, node, token, now, outputs@, retired@).0,
            result_is(r, step_complete(old(self).model(), job, node, token, now, outputs@, retired@).1),
            final(self).bus() == old(self).bus(),
    {
        if job >= self.jobs.len() || !holds_exec(&self.jobs[job], node, token, now) {
            return Err(CubeError::user(String::from_str("lease is not held")));
        }
        if !self.completion_valid_exec(outputs, retired) {
            return Err(CubeError::user(String::from_str("completion refers to invalid chunks")));
        }
        let ghost m = self.model();
        let total = self.chunks.len();
        let mut i: usize = 0;
        while i < retired.len()
            invariant
                i <= retired@.len(),
                total == m.chunks.len(),
                self.chunks@.len() == m.chunks.len(),
                completion_valid(m, outputs@, retired@),
                self.chunks@ == retire_chunks(m.chunks, retired@.subrange(0, i as int)),
                self.partitions@ == m.partitions,
                self.tables@ == m.tables,
                self.jobs@ == m.jobs,
                self.nodes@ == m.nodes,
                self.next_token == m.next_token,
                self.policy == m.policy,
                self.bus == old(self).bus,
            decreases retired@.len() - i,
        {
            let c = retired[i];
            let ch = self.chunks[c];
            let ghost before = self.chunks@;
            self.chunks.set(c, Chunk { deleted: true, ..ch });
            proof {
                let pre = retired@.subrange(0, i as int);
                let post = retired@.subrange(0, i + 1);
                assert(post =~= pre.push(c));
                assert forall|k: usize| k < m.chunks.len() implies #[trigger] post.contains(k) == (
                pre.contains(k) || k == c) by {
                    if pre.contains(k) {
                        let w = choose|w: int| 0 <= w < pre.len() && pre[w] == k;
                        assert(post[w] == k);
                    }
                    if k == c {
                        assert(post[i as int] == c);
                    }
                    if post.contains(k) && k != c {
                        let w = choose|w: int| 0 <= w < post.len() && post[w] == k;
                        assert(w != i as int);
                        assert(pre[w] == post[w]);
                    }
                }
                assert forall|k: int| 0 <= k < m.chunks.len() implies self.chunks@[k]
                    == #[trigger] retire_chunks(m.chunks, post)[k] by {
                    let ku = k as usize;
                    assert(post.contains(ku) == (pre.contains(ku) || ku == c));
                    assert(before[k] == retire_chunks(m.chunks, pre)[k]);
                }
                assert(self.chunks@ =~= retire_chunks(m.chunks, post));
            }
            i = i + 1;
        }
        assert(retired@.subrange(0, retired@.len() as int) =~= retired@);
        let ghost retired_chunks = self.chunks@;
        let mut i: usize = 0;
        while i < outputs.len()
            invariant
                i <= outputs@.len(),
                self.chunks@ == retired_chunks + outputs@.subrange(0, i as int).map_values(
                    |c: NewChunk| new_chunk(c),
                ),
                self.partitions@ == m.partitions,
                self.tables@ == m.tables,
                self.jobs@ == m.jobs,
                self.nodes@ == m.nodes,
                self.next_token == m.next_token,
                self.policy == m.policy,
                self.bus == old(self).bus,
            decreases outputs@.len() - i,
        {
            let o = outputs[i];
            self.chunks.push(
                Chunk {
                    partition_id: o.partition_id,
                    size: o.size,
                    rows: o.rows,
                    uploaded: true,
                    deleted: false,
                },
            );
            proof {
                assert(outputs@.subrange(0, i + 1).map_values(|c: NewChunk| new_chunk(c))
                    =~= outputs@.subrange(0, i as int).map_values(|c: NewChunk| new_chunk(c)).push(
                    new_chunk(o),
                ));
                assert(self.chunks@ =~= retired_chunks + outputs@.subrange(0, i + 1).map_values(
                    |c: NewChunk| new_chunk(c),
                ));
            }
            i = i + 1;
        }
        assert(outputs@.subrange(0, outputs@.len() as int) =~= outputs@);
        let j = self.jobs[job];
        self.jobs.set(job, Job { state: JobState::Done, lease: None, ..j });
        Ok(Effect::Updated)
    }

    /// The events that expiring nodes at `now` would publish, read before the
    /// expiry is applied.
    fn expire_events(&self, now: u64) -> (r: Vec<MetaStoreEvent>)
        ensures
            r@ == died_upto(self.model(), now, self.model().nodes.len() as int) + released_upto(
                self.model(),
                now,
                self.model().jobs.len() as int,
            ),
    {
        let ghost m = self.model();
        let timeout = self.policy.heartbeat_timeout;
        let mut died: Vec<MetaStoreEvent> = Vec::new();
        let mut i: usize = 0;
        while i < self.nodes.len()
            invariant
                i <= self.nodes@.len(),
                m == self.model(),
                timeout == m.policy.heartbeat_timeout,
                died@ == died_upto(m, now, i as int),
            decreases self.nodes@.len() - i,
        {
            let nd = self.nodes[i];
            if nd.alive && now > nd.last_heartbeat && now - nd.last_heartbeat > timeout {
                died.push(MetaStoreEvent { entity: EntityKind::Node, id: i, op: Operation::Update });
            }
            i = i + 1;
        }
        let mut released: Vec<MetaStoreEvent> = Vec::new();
        let mut i: usize = 0;
        while i < self.jobs.len()
            invariant
                i <= self.jobs@.len(),
                m == self.model(),
                timeout == m.policy.heartbeat_timeout,
                released@ == released_upto(m, now, i as int),
            decreases self.jobs@.len() - i,
        {
            let lost = match self.jobs[i].lease {
                Some(l) => {
                    if l.node >= self.nodes.len() || l.expires_at <= now {
                        true
                    } else {
                        let nd = self.nodes[l.node];
                        let gone = nd.alive && now > nd.last_heartbeat && now - nd.last_heartbeat
                            > timeout;
                        !nd.alive || gone
                    }
                },
                None => false,
            };
            if lost {
                released.push(MetaStoreEvent { entity: EntityKind::Job, id: i, op: Operation::Update });
            }
            i = i + 1;
        }
        let mut out = died;
        let mut j: usize = 0;
        let ghost d = out@;
        while j < released.len()
            invariant
                j <= released@.len(),
                out@ == d + released@.take(j as int),
            decreases released@.len() - j,
        {
            out.push(released[j]);
            proof {
                assert(released@.take(j + 1) =~= released@.take(j as int).push(released@[j as int]));
            }
            j = j + 1;
        }
        assert(released@.take(released@.len() as int) =~= released@);
        out
    }

    /// Applies one mutation to the latest state: all of it or, on an error,
    /// none of it; then publishes the event of the change, if it made one.
    pub fn write(&mut self, op: Mutation) -> (r: Result<Effect, CubeError>)
        requires
            old(self).wf(),
        ensures
            final(self).wf(),
            final(self).model() == step(old(self).model(), op).0,
            result_is(r, step(old(self).model(), op).1),
            final(self).bus().log() == old(self).bus().log() + events_for(old(self).model(), op, step(old(self).model(), op).1),
            final(self).bus().num_subscribers() == old(self).bus().num_subscribers(),
            final(self).bus().bound() == old(self).bus().bound(),
            forall|s: int|
                0 <= s < old(self).bus().num_subscribers() ==> {
                    &&& final(self).bus().cursor(s) == old(self).bus().cursor(s)
                    &&& final(self).bus().is_lagged(s) == (old(self).bus().is_lagged(s)
                        || final(self).bus().log().len() - old(self).bus().cursor(s)
                        > old(self).bus().bound())
                },
    {
        proof {
            lemma_step_preserves_wf(self.model(), op);
        }
        let shape = event_shape_of(&op);
        let ghost m = self.model();
        let old_chunks = self.chunks.len();
        let expire_evs = match &op {
            Mutation::ExpireNodes { now } => self.expire_events(*now),
            _ => Vec::new(),
        };
        let (r, evs) = match op {
            Mutation::AddTable { table } => {
                let r = self.apply_add_table(table);
                let evs = shape_events(shape, &r);
                (r, evs)
            },
            Mutation::AddPartition { table_id } => {
                let r = self.apply_add_partition(table_id);
                let evs = shape_events(shape, &r);
                (r, evs)
            },
            Mutation::SplitPartition { partition } => {
                let r = self.apply_split_partition(partition);
                let evs = match &r {
                    Ok(Effect::Created(id)) => vec![
                        MetaStoreEvent { entity: EntityKind::Partition, id: partition, op: Operation::Update },
                        MetaStoreEvent { entity: EntityKind::Partition, id: *id, op: Operation::Insert },
                    ],
                    _ => Vec::new(),
                };
                (r, evs)
            },
            Mutation::RegisterChunk { partition, size, rows, uploaded } => {
                let r = self.apply_register_chunk(partition, size, rows, uploaded);
                let evs = shape_events(shape, &r);
                (r, evs)
            },
            Mutation::MarkUploaded { chunk } => {
                let r = self.apply_mark_uploaded(chunk);
                let evs = shape_events(shape, &r);
                (r, evs)
            },
            Mutation::RegisterNode { now } => {
                let r = self.apply_register_node(now);
                let evs = shape_events(shape, &r);
                (r, evs)
            },
            Mutation::Heartbeat { node, now } => {
                let r = self.apply_heartbeat(node, now);
                let evs = shape_events(shape, &r);
                (r, evs)
            },
            Mutation::ExpireNodes { now } => {
                let r = self.apply_expire(now);
                (r, expire_evs)
            },
            Mutation::Schedule { kind, target } => {
                let r = self.apply_schedule(kind, target);
                let evs = shape_events(shape, &r);
                (r, evs)
            },
            Mutation::LeaseNext { node, caps, now } => {
                let r = self.apply_lease_next(node, caps, now);
                let evs = shape_events(shape, &r);
                (r, evs)
            },
            Mutation::Renew { job, node, token, now } => {
                let r = self.apply_renew(job, node, token, now);
                let evs = shape_events(shape, &r);
                (r, evs)
            },
            Mutation::Start { job, node, token, now } => {
                let r = self.apply_start(job, node, token, now);
                let evs = shape_events(shape, &r);
                (r, evs)
            },
            Mutation::Complete { job, node, token, now, outputs, retired } => {
                let r = self.apply_complete(job, node, token, now, &outputs, &retired);
                let evs = if r.is_ok() {
                    let total = self.chunks.len();
                    assert(total == old_chunks + outputs@.len());
                    completion_events(job, &retired, outputs.len(), old_chunks)
                } else {
                    Vec::new()
                };
                (r, evs)
            },
            Mutation::Fail { job, node, token, now } => {
                let r = self.apply_fail(job, node, token, now);
                let evs = shape_events(shape, &r);
                (r, evs)
            },
        };
        self.bus.publish_all(&evs);
        r
    }

    /// Applies the mutations one after another, in order, and returns what
    /// each returned.
    pub fn write_all(&mut self, ops: Vec<Mutation>) -> (r: Vec<Result<Effect, CubeError>>)
        requires
            old(self).wf(),
        ensures
            final(self).wf(),
            final(self).model() == apply_all(old(self).model(), ops@),
            r@.len() == ops@.len(),
            forall|i: int|
                0 <= i < ops@.len() ==> result_is(
                    #[trigger] r@[i],
                    step(apply_all(old(self).model(), ops@.take(i)), ops@[i]).1,
                ),
    {
        let ghost all = ops@;
        let ghost start = self.model();
        let mut ops = ops;
        let mut out: Vec<Result<Effect, CubeError>> = Vec::new();
        while ops.len() > 0
            invariant
                self.wf(),
                start == old(self).model(),
                out@.len() + ops@.len() == all.len(),
                ops@ == all.subrange(out@.len() as int, all.len() as int),
                self.model() == apply_all(start, all.take(out@.len() as int)),
                forall|i: int|
                    0 <= i < out@.len() ==> result_is(
                        #[trigger] out@[i],
                        step(apply_all(start, all.take(i)), all[i]).1,
                    ),
            decreases ops@.len(),
        {
            let ghost k = out@.len() as int;
            let op = ops.remove(0);
            proof {
                assert(op == all[k]);
                assert(ops@ =~= all.subrange(k + 1, all.len() as int));
                lemma_apply_all_prefix(start, all, k);
            }
            let r = self.write(op);
            let ghost prev = out@;
            out.push(r);
            proof {
                assert forall|i: int| 0 <= i < out@.len() implies result_is(
                    #[trigger] out@[i],
                    step(apply_all(start, all.take(i)), all[i]).1,
                ) by {
                    if i < k {
                        assert(out@[i] == prev[i]);
                    }
                }
            }
        }
        proof {
            assert(all.take(all.len() as int) =~= all);
        }
        out
    }

    /// Adds a table, provided that each of its key columns is one of its
    /// columns.
    pub fn add_table(&mut self, table: Table) -> (r: Result<Effect, CubeError>)
        requires
            old(self).wf(),
        ensures
            final(self).wf(),
            final(self).model() == step_add_table(old(self).model(), table).0,
            result_is(r, step_add_table(old(self).model(), table).1),
    {
        self.write(Mutation::AddTable { table })
    }

    /// Adds an active partition of generation zero to table `table_id`.
    pub fn add_partition(&mut self, table_id: usize) -> (r: Result<Effect, CubeError>)
        requires
            old(self).wf(),
        ensures
            final(self).wf(),
            final(self).model() == step_add_partition(old(self).model(), table_id).0,
            result_is(r, step_add_partition(old(self).model(), table_id).1),
    {
        self.write(Mutation::AddPartition { table_id })
    }

    /// Supersedes active partition `partition` with one of the next generation.
    pub fn split_partition(&mut self, partition: usize) -> (r: Result<Effect, CubeError>)
        requires
            old(self).wf(),
        ensures
            final(self).wf(),
            final(self).model() == step_split_partition(old(self).model(), partition).0,
            result_is(r, step_split_partition(old(self).model(), partition).1),
    {
        self.write(Mutation::SplitPartition { partition })
    }

    /// Registers a chunk in active partition `partition`.
    pub fn register_chunk(&mut self, partition: usize, size: u64, rows: u64, uploaded: bool) -> (r:
        Result<Effect, CubeError>)
        requires
            old(self).wf(),
        ensures
            final(self).wf(),
            final(self).model() == step_register_chunk(old(self).model(), partition, size, rows, uploaded).0,
            result_is(r, step_register_chunk(old(self).model(), partition, size, rows, uploaded).1),
    {
        self.write(Mutation::RegisterChunk { partition, size, rows, uploaded })
    }

    /// Records that the bytes of chunk `chunk` are durable in the object store.
    pub fn mark_uploaded(&mut self, chunk: usize) -> (r: Result<Effect, CubeError>)
        requires
            old(self).wf(),
        ensures
            final(self).wf(),
            final(self).model() == step_mark_uploaded(old(self).model(), chunk).0,
            result_is(r, step_mark_uploaded(old(self).model(), chunk).1),
    {
        self.write(Mutation::MarkUploaded { chunk })
    }

    /// Adds a live node whose last heartbeat is `now`.
    pub fn register_node(&mut self, now: u64) -> (r: Result<Effect, CubeError>)
        requires
            old(self).wf(),
        ensures
            final(self).wf(),
            final(self).model() == step_register_node(old(self).model(), now).0,
            result_is(r, step_register_node(old(self).model(), now).1),
    {
        self.write(Mutation::RegisterNode { now })
    }

    /// Records a heartbeat of `node` at `now`.
    pub fn heartbeat(&mut self, node: usize, now: u64) -> (r: Result<Effect, CubeError>)
        requires
            old(self).wf(),
        ensures
            final(self).wf(),
            final(self).model() == step_heartbeat(old(self).model(), node, now).0,
            result_is(r, step_heartbeat(old(self).model(), node, now).1),
    {
        self.write(Mutation::Heartbeat { node, now })
    }

    /// Marks dead the nodes silent for longer than the timeout, and sends the
    /// jobs whose leases are lost back to be retried, or dead-letters them.
    pub fn expire_nodes(&mut self, now: u64) -> (r: Result<Effect, CubeError>)
        requires
            old(self).wf(),
        ensures
            final(self).wf(),
            final(self).model() == step_expire(old(self).model(), now).0,
            result_is(r, step_expire(old(self).model(), now).1),
    {
        self.write(Mutation::ExpireNodes { now })
    }

    /// Creates a job of `kind` on `target`, unless an unfinished one exists:
    /// then returns that one's id.
    pub fn schedule(&mut self, kind: JobKind, target: usize) -> (r: Result<Effect, CubeError>)
        requires
            old(self).wf(),
        ensures
            final(self).wf(),
            final(self).model() == step_schedule(old(self).model(), kind, target).0,
            result_is(r, step_schedule(old(self).model(), kind, target).1),
    {
        self.write(Mutation::Schedule { kind, target })
    }

    /// Leases to `node` the first scheduled job that it can run and whose
    /// backoff has passed, or reports that there is none.
    pub fn lease_next_job(&mut self, node: usize, caps: Capabilities, now: u64) -> (r: Result<
        Effect,
        CubeError,
    >)
        requires
            old(self).wf(),
        ensures
            final(self).wf(),
            final(self).model() == step_lease_next(old(self).model(), node, caps, now).0,
            result_is(r, step_lease_next(old(self).model(), node, caps, now).1),
    {
        self.write(Mutation::LeaseNext { node, caps, now })
    }

    /// Extends a lease that `node` holds under `token`.
    pub fn renew_lease(&mut self, job: usize, node: usize, token: u64, now: u64) -> (r: Result<
        Effect,
        CubeError,
    >)
        requires
            old(self).wf(),
        ensures
            final(self).wf(),
            final(self).model() == step_renew(old(self).model(), job, node, token, now).0,
            result_is(r, step_renew(old(self).model(), job, node, token, now).1),
    {
        self.write(Mutation::Renew { job, node, token, now })
    }

    /// Marks a leased job as running.
    pub fn start_job(&mut self, job: usize, node: usize, token: u64, now: u64) -> (r: Result<
        Effect,
        CubeError,
    >)
        requires
            old(self).wf(),
        ensures
            final(self).wf(),
            final(self).model() == step_start(old(self).model(), job, node, token, now).0,
            result_is(r, step_start(old(self).model(), job, node, token, now).1),
    {
        self.write(Mutation::Start { job, node, token, now })
    }

    /// Finishes a job in one write: the job is done, the `retired` chunks are
    /// marked deleted and the `outputs` registered. Refused, with nothing
    /// changed, unless `node` still holds the lease under `token`.
    pub fn complete_job(
        &mut self,
        job: usize,
        node: usize,
        token: u64,
        now: u64,
        outputs: Vec<NewChunk>,
        retired: Vec<usize>,
    ) -> (r: Result<Effect, CubeError>)
        requires
            old(self).wf(),
        ensures
            final(self).wf(),
            final(self).model() == step_complete(old(self).model(), job, node, token, now, outputs@, retired@).0,
            result_is(r, step_complete(old(self).model(), job, node, token, now, outputs@, retired@).1),
    {
        self.write(Mutation::Complete { job, node, token, now, outputs, retired })
    }

    /// Reports a failed job: retried after a backoff, or dead-lettered.
    pub fn fail_job(&mut self, job: usize, node: usize, token: u64, now: u64) -> (r: Result<
        Effect,
        CubeError,
    >)
        requires
            old(self).wf(),
        ensures
            final(self).wf(),
            final(self).model() == step_fail(old(self).model(), job, node, token, now).0,
            result_is(r, step_fail(old(self).model(), job, node, token, now).1),
    {
        self.write(Mutation::Fail { job, node, token, now })
    }

    /// The ids of the live chunks of partition `p`, in order of creation.
    pub fn partition_chunks(&self, p: usize) -> (r: Vec<usize>)
        ensures
            r@ == live_chunks(self.model(), p),
    {
        let mut out: Vec<usize> = Vec::new();
        let n = self.chunks.len();
        let mut i: usize = 0;
        while i < n
            invariant
                n == self.chunks@.len(),
                i <= n,
                out@ == live_chunks_upto(self.chunks@, p, i as int),
            decreases n - i,
        {
            let c = self.chunks[i];
            if c.partition_id == p && !c.deleted {
                out.push(i);
            }
            i = i + 1;
        }
        out
    }

    /// The ids of the dead-lettered jobs, in order: the failures that ran out
    /// of retries and await an operator.
    pub fn dead_lettered_jobs(&self) -> (r: Vec<usize>)
        ensures
            r@ == dead_jobs_upto(self.model().jobs, self.model().jobs.len() as int),
    {
        let mut out: Vec<usize> = Vec::new();
        let n = self.jobs.len();
        let mut i: usize = 0;
        while i < n
            invariant
                n == self.jobs@.len(),
                i <= n,
                out@ == dead_jobs_upto(self.jobs@, i as int),
            decreases n - i,
        {
            if self.jobs[i].state == JobState::DeadLettered {
                out.push(i);
            }
            i = i + 1;
        }
        out
    }

    /// The state of job `job`, if it exists.
    pub fn job_status(&self, job: usize) -> (r: Option<JobState>)
        ensures
            r == (if job < self.model().jobs.len() {
                Some(self.model().jobs[job as int].state)
            } else {
                None
            }),
    {
        if job < self.jobs.len() {
            Some(self.jobs[job].state)
        } else {
            None
        }
    }

    pub fn job(&self, job: usize) -> (r: Option<Job>)
        ensures
            r == (if job < self.model().jobs.len() {
                Some(self.model().jobs[job as int])
            } else {
                None
            }),
    {
        if job < self.jobs.len() {
            Some(self.jobs[job])
        } else {
            None
        }
    }

    pub fn chunk(&self, c: usize) -> (r: Option<Chunk>)
        ensures
            r == (if c < self.model().chunks.len() {
                Some(self.model().chunks[c as int])
            } else {
                None
            }),
    {
        if c < self.chunks.len() {
            Some(self.chunks[c])
        } else {
            None
        }
    }

    pub fn table(&self, t: usize) -> (r: Option<&Table>)
        ensures
            r == (if t < self.model().tables.len() {
                Some(&self.model().tables[t as int])
            } else {
                None
            }),
    {
        if t < self.tables.len() {
            Some(&self.tables[t])
        } else {
            None
        }
    }

    pub fn partition(&self, p: usize) -> (r: Option<Partition>)
        ensures
            r == (if p < self.model().partitions.len() {
                Some(self.model().partitions[p as int])
            } else {
                None
            }),
    {
        if p < self.partitions.len() {
            Some(self.partitions[p])
        } else {
            None
        }
    }

    pub fn node(&self, n: usize) -> (r: Option<Node>)
        ensures
            r == (if n < self.model().nodes.len() {
                Some(self.model().nodes[n as int])
            } else {
                None
            }),
    {
        if n < self.nodes.len() {
            Some(self.nodes[n])
        } else {
            None
        }
    }

    /// Registers a subscriber to the events of every later change.
    pub fn subscribe(&mut self) -> (id: usize)
        requires
            old(self).wf(),
        ensures
            final(self).wf(),
            final(self).model() == old(self).model(),
            final(self).bus().log() == old(self).bus().log(),
            id == old(self).bus().num_subscribers(),
            final(self).bus().num_subscribers() == old(self).bus().num_subscribers() + 1,
            final(self).bus().bound() == old(self).bus().bound(),
            final(self).bus().cursor(id as int) == old(self).bus().log().len(),
            !final(self).bus().is_lagged(id as int),
    {
        self.bus.subscribe()
    }

    /// Reconnects subscriber `s`; it receives the events of every later change.
    pub fn resubscribe(&mut self, s: usize)
        requires
            old(self).wf(),
            s < old(self).bus().num_subscribers(),
        ensures
            final(self).wf(),
            final(self).model() == old(self).model(),
            final(self).bus().log() == old(self).bus().log(),
            final(self).bus().num_subscribers() == old(self).bus().num_subscribers(),
            final(self).bus().cursor(s as int) == old(self).bus().log().len(),
            !final(self).bus().is_lagged(s as int),
    {
        self.bus.resubscribe(s)
    }

    /// The next event for subscriber `s`, in commit order, or `Empty`, or
    /// `Lagged` once it has fallen too far behind.
    pub fn recv(&mut self, s: usize) -> (r: RecvOutcome)
        requires
            old(self).wf(),
            s < old(self).bus().num_subscribers(),
        ensures
            final(self).wf(),
            final(self).model() == old(self).model(),
            final(self).bus().log() == old(self).bus().log(),
            final(self).bus().num_subscribers() == old(self).bus().num_subscribers(),
            old(self).bus().is_lagged(s as int) ==> r == RecvOutcome::Lagged,
            !old(self).bus().is_lagged(s as int) && old(self).bus().cursor(s as int)
                == old(self).bus().log().len() ==> r == RecvOutcome::Empty,
            !old(self).bus().is_lagged(s as int) && old(self).bus().cursor(s as int) < old(
                self,
            ).bus().log().len() ==> r == RecvOutcome::Event(
                old(self).bus().log()[old(self).bus().cursor(s as int) as int],
            ) && final(self).bus().cursor(s as int) == old(self).bus().cursor(s as int) + 1,
    {
        self.bus.recv(s)
    }
}

fn event_shape_of(op: &Mutation) -> (r: (EntityKind, Operation, Option<usize>))
    ensures
        r == event_shape(*op),
{
    match op {
        Mutation::AddTable { .. } => (EntityKind::Table, Operation::Insert, None),
        Mutation::AddPartition { .. } => (EntityKind::Partition, Operation::Insert, None),
        Mutation::SplitPartition { .. } => (EntityKind::Partition, Operation::Insert, None),
        Mutation::RegisterChunk { .. } => (EntityKind::Chunk, Operation::Insert, None),
        Mutation::MarkUploaded { chunk } => (EntityKind::Chunk, Operation::Update, Some(*chunk)),
        Mutation::RegisterNode { .. } => (EntityKind::Node, Operation::Insert, None),
        Mutation::Heartbeat { node, .. } => (EntityKind::Node, Operation::Update, Some(*node)),
        Mutation::ExpireNodes { .. } => (EntityKind::Node, Operation::Update, Some(0)),
        Mutation::Schedule { .. } => (EntityKind::Job, Operation::Insert, None),
        Mutation::LeaseNext { .. } => (EntityKind::Job, Operation::Update, None),
        Mutation::Renew { job, .. } => (EntityKind::Job, Operation::Update, Some(*job)),
        Mutation::Start { job, .. } => (EntityKind::Job, Operation::Update, Some(*job)),
        Mutation::Complete { job, .. } => (EntityKind::Job, Operation::Update, Some(*job)),
        Mutation::Fail { job, .. } => (EntityKind::Job, Operation::Update, Some(*job)),
    }
}

fn shape_events(shape: (EntityKind, Operation, Option<usize>), r: &Result<Effect, CubeError>) -> (evs:
    Vec<MetaStoreEvent>)
    ensures
        forall|op: Mutation, m: CatalogModel, o: Outcome|
            event_shape(op) == shape && result_is(*r, o) && !(op is SplitPartition)
                && !(op is ExpireNodes) && !(op is Complete) ==> evs@ == events_for(m, op, o),
{
    match r {
        Ok(e) => match event_from_shape(shape, *e) {
            Some(ev) => vec![ev],
            None => Vec::new(),
        },
        Err(_) => Vec::new(),
    }
}

fn completion_events(job: usize, retired: &Vec<usize>, n_outputs: usize, first_id: usize) -> (evs:
    Vec<MetaStoreEvent>)
    requires
        first_id + n_outputs <= usize::MAX,
    ensures
        evs@ == seq![event(EntityKind::Job, job, Operation::Update)] + retired@.map_values(
            |c: usize| event(EntityKind::Chunk, c, Operation::Delete),
        ) + Seq::new(
            n_outputs as nat,
            |k: int| event(EntityKind::Chunk, (first_id + k) as usize, Operation::Insert),
        ),
{
    let mut evs: Vec<MetaStoreEvent> = vec![MetaStoreEvent { entity: EntityKind::Job, id: job, op: Operation::Update }];
    let mut i: usize = 0;
    while i < retired.len()
        invariant
            i <= retired@.len(),
            evs@ == seq![event(EntityKind::Job, job, Operation::Update)] + retired@.take(i as int).map_values(
                |c: usize| event(EntityKind::Chunk, c, Operation::Delete),
            ),
        decreases retired@.len() - i,
    {
        evs.push(MetaStoreEvent { entity: EntityKind::Chunk, id: retired[i], op: Operation::Delete });
        proof {
            assert(retired@.take(i + 1).map_values(|c: usize| event(EntityKind::Chunk, c, Operation::Delete))
                =~= retired@.take(i as int).map_values(|c: usize| event(EntityKind::Chunk, c, Operation::Delete)).push(
                event(EntityKind::Chunk, retired@[i as int], Operation::Delete)));
        }
        i = i + 1;
    }
    assert(retired@.take(retired@.len() as int) =~= retired@);
    let ghost mid = evs@;
    let mut k: usize = 0;
    while k < n_outputs
        invariant
            k <= n_outputs,
            first_id + n_outputs <= usize::MAX,
            evs@ == mid + Seq::new(
                k as nat,
                |j: int| event(EntityKind::Chunk, (first_id + j) as usize, Operation::Insert),
            ),
        decreases n_outputs - k,
    {
        evs.push(MetaStoreEvent { entity: EntityKind::Chunk, id: first_id + k, op: Operation::Insert });
        proof {
            assert(evs@ =~= mid + Seq::new(
                (k + 1) as nat,
                |j: int| event(EntityKind::Chunk, (first_id + j) as usize, Operation::Insert),
            ));
        }
        k = k + 1;
    }
    evs
}

fn event_from_shape(shape: (EntityKind, Operation, Option<usize>), e: Effect) -> (r: Option<
    MetaStoreEvent,
>)
    ensures
        forall|op: Mutation| event_shape(op) == shape ==> r == event_for(op, e),
{
    let (entity, kind, fixed) = shape;
    let id = match fixed {
        Some(i) => i,
        None => match e {
            Effect::Created(i) => i,
            Effect::Existing(i) => i,
            Effect::Granted(g) => g.job,
            _ => 0,
        },
    };
    match e {
        Effect::NoWork => None,
        Effect::Existing(_) => None,
        _ => Some(MetaStoreEvent { entity, id, op: kind }),
    }
}

} // verus!
