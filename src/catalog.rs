use vstd::prelude::*;
use crate::error::CubeErrorCauseType;
use crate::events::{EntityKind, MetaStoreEvent, Operation};

verus! {

#[derive(Debug, Clone, Copy, PartialEq, Eq, Structural)]
pub enum ColumnType {
    Int,
    Decimal,
    Text,
    Timestamp,
    Boolean,
    Bytes,
}

#[derive(Debug, Clone)]
pub struct Column {
    pub name: String,
    pub column_type: ColumnType,
}

/// A table: its name, its ordered columns, and the positions of the columns
/// that its partitions are keyed by.
#[derive(Debug, Clone)]
pub struct Table {
    pub name: String,
    pub columns: Vec<Column>,
    pub key_columns: Vec<usize>,
}

/// A keyed subdivision of a table. A split supersedes it with a partition of
/// the next generation.
#[derive(Debug, Clone, Copy)]
pub struct Partition {
    pub table_id: usize,
    pub generation: u64,
    pub active: bool,
}

/// A unit of stored columnar data. Chunks are created, and later marked
/// deleted; nothing else about them changes.
#[derive(Debug, Clone, Copy)]
pub struct Chunk {
    pub partition_id: usize,
    pub size: u64,
    pub rows: u64,
    pub uploaded: bool,
    pub deleted: bool,
}

/// A chunk that a finished job produces.
#[derive(Debug, Clone, Copy)]
pub struct NewChunk {
    pub partition_id: usize,
    pub size: u64,
    pub rows: u64,
}

#[derive(Debug, Clone, Copy, PartialEq, Eq, Structural)]
pub enum JobKind {
    Compaction,
    Repartition,
    Finalize,
}

/// Where a job is in its life. Failures and expired leases send a job back to
/// `Scheduled` until its retries are used up, and then to `DeadLettered`.
#[derive(Debug, Clone, Copy, PartialEq, Eq, Structural)]
pub enum JobState {
    Scheduled,
    Leased,
    Running,
    Done,
    DeadLettered,
}

/// A time-bounded claim of a job by a node; `token` tells one grant from
/// every other.
#[derive(Debug, Clone, Copy, PartialEq, Eq, Structural)]
pub struct Lease {
    pub node: usize,
    pub token: u64,
    pub expires_at: u64,
}

#[derive(Debug, Clone, Copy)]
pub struct Job {
    pub kind: JobKind,
    pub target: usize,
    pub state: JobState,
    pub retries: u64,
    pub not_before: u64,
    pub lease: Option<Lease>,
}

/// A worker process: alive while its heartbeats keep coming.
#[derive(Debug, Clone, Copy)]
pub struct Node {
    pub last_heartbeat: u64,
    pub alive: bool,
}

/// The kinds of job that a node can run.
#[derive(Debug, Clone, Copy)]
pub struct Capabilities {
    pub compaction: bool,
    pub repartition: bool,
    pub finalize: bool,
}

/// The policy values: how often a job is retried, the first backoff delay,
/// how long a lease lasts, and how long a node may stay silent.
#[derive(Debug, Clone, Copy)]
pub struct Policy {
    pub retry_limit: u64,
    pub backoff_base: u64,
    pub lease_ttl: u64,
    pub heartbeat_timeout: u64,
}

/// What a successful lease hands the node: which job, and the grant's token
/// and expiry.
#[derive(Debug, Clone, Copy, PartialEq, Eq, Structural)]
pub struct LeaseGrant {
    pub job: usize,
    pub token: u64,
    pub expires_at: u64,
}

/// What a successful mutation did.
#[derive(Debug, Clone, Copy, PartialEq, Eq, Structural)]
pub enum Effect {
    /// A record was created under this id.
    Created(usize),
    /// An equivalent job was already pending under this id.
    Existing(usize),
    /// Records were changed.
    Updated,
    /// A job was leased.
    Granted(LeaseGrant),
    /// No job was eligible for a lease.
    NoWork,
}

/// A change to the catalog. Every change goes through one of these.
pub enum Mutation {
    AddTable { table: Table },
    AddPartition { table_id: usize },
    SplitPartition { partition: usize },
    RegisterChunk { partition: usize, size: u64, rows: u64, uploaded: bool },
    MarkUploaded { chunk: usize },
    RegisterNode { now: u64 },
    Heartbeat { node: usize, now: u64 },
    ExpireNodes { now: u64 },
    Schedule { kind: JobKind, target: usize },
    LeaseNext { node: usize, caps: Capabilities, now: u64 },
    Renew { job: usize, node: usize, token: u64, now: u64 },
    Start { job: usize, node: usize, token: u64, now: u64 },
    Complete {
        job: usize,
        node: usize,
        token: u64,
        now: u64,
        outputs: Vec<NewChunk>,
        retired: Vec<usize>,
    },
    Fail { job: usize, node: usize, token: u64, now: u64 },
}

/// The mathematical state of the catalog.
pub ghost struct CatalogModel {
    pub tables: Seq<Table>,
    pub partitions: Seq<Partition>,
    pub chunks: Seq<Chunk>,
    pub jobs: Seq<Job>,
    pub nodes: Seq<Node>,
    pub next_token: u64,
    pub policy: Policy,
}

pub type Outcome = Result<Effect, CubeErrorCauseType>;

pub open spec fn sat_add(a: u64, b: u64) -> u64 {
    if a + b > u64::MAX {
        u64::MAX
    } else {
        (a + b) as u64
    }
}

/// The delay before retry number `n + 1`: `base` doubled `n` times, held at
/// the largest `u64`.
pub open spec fn backoff(base: u64, n: nat) -> u64
    decreases n,
{
    if n == 0 {
        base
    } else {
        sat_add(backoff(base, (n - 1) as nat), backoff(base, (n - 1) as nat))
    }
}

pub open spec fn accepts(c: Capabilities, k: JobKind) -> bool {
    match k {
        JobKind::Compaction => c.compaction,
        JobKind::Repartition => c.repartition,
        JobKind::Finalize => c.finalize,
    }
}

pub open spec fn is_terminal(s: JobState) -> bool {
    s == JobState::Done || s == JobState::DeadLettered
}

/// A job that is not finished and does the same work on the same target.
pub open spec fn is_open_match(j: Job, kind: JobKind, target: usize) -> bool {
    j.kind == kind && j.target == target && !is_terminal(j.state)
}

/// The first open job from `i` on that matches, or the length if none does.
pub open spec fn first_open(jobs: Seq<Job>, kind: JobKind, target: usize, i: int) -> int
    decreases jobs.len() - i,
{
    if i >= jobs.len() {
        jobs.len() as int
    } else if is_open_match(jobs[i], kind, target) {
        i
    } else {
        first_open(jobs, kind, target, i + 1)
    }
}

pub open spec fn is_eligible(j: Job, caps: Capabilities, now: u64) -> bool {
    j.state == JobState::Scheduled && accepts(caps, j.kind) && j.not_before <= now
}

/// The first job from `i` on that the node may lease, or the length if none.
pub open spec fn first_eligible(jobs: Seq<Job>, caps: Capabilities, now: u64, i: int) -> int
    decreases jobs.len() - i,
{
    if i >= jobs.len() {
        jobs.len() as int
    } else if is_eligible(jobs[i], caps, now) {
        i
    } else {
        first_eligible(jobs, caps, now, i + 1)
    }
}

/// The node holds a valid, unexpired lease on the job under this token.
pub open spec fn holds(j: Job, node: usize, token: u64, now: u64) -> bool {
    &&& j.state == JobState::Leased || j.state == JobState::Running
    &&& j.lease matches Some(l)
    &&& l.node == node
    &&& l.token == token
    &&& now < l.expires_at
}

/// A job after a failure or a lost lease: back to `Scheduled` after a backoff
/// while retries remain, otherwise dead-lettered.
pub open spec fn retry(j: Job, p: Policy, now: u64) -> Job {
    if j.retries >= p.retry_limit {
        Job { state: JobState::DeadLettered, lease: None, ..j }
    } else {
        Job {
            state: JobState::Scheduled,
            lease: None,
            retries: (j.retries + 1) as u64,
            not_before: sat_add(now, backoff(p.backoff_base, j.retries as nat)),
            ..j
        }
    }
}

/// The node has been silent for longer than the timeout.
pub open spec fn silent(n: Node, now: u64, timeout: u64) -> bool {
    n.alive && now > n.last_heartbeat && now - n.last_heartbeat > timeout
}

pub open spec fn expire_node(n: Node, now: u64, timeout: u64) -> Node {
    if silent(n, now, timeout) {
        Node { alive: false, ..n }
    } else {
        n
    }
}

/// The job's lease is lost: its node is dead or its time is up.
pub open spec fn lease_lost(j: Job, nodes: Seq<Node>, now: u64) -> bool {
    j.lease matches Some(l) && (l.node >= nodes.len() || !nodes[l.node as int].alive
        || l.expires_at <= now)
}

/// The chunks whose ids are listed in `retired`, marked deleted.
pub open spec fn retire_chunks(chunks: Seq<Chunk>, retired: Seq<usize>) -> Seq<Chunk> {
    Seq::new(
        chunks.len(),
        |i: int|
            if retired.contains(i as usize) {
                Chunk { deleted: true, ..chunks[i] }
            } else {
                chunks[i]
            },
    )
}

pub open spec fn new_chunk(c: NewChunk) -> Chunk {
    Chunk {
        partition_id: c.partition_id,
        size: c.size,
        rows: c.rows,
        uploaded: true,
        deleted: false,
    }
}

pub open spec fn partition_is_active(m: CatalogModel, p: usize) -> bool {
    p < m.partitions.len() && m.partitions[p as int].active
}

/// The outputs and retired chunks that a job's completion may commit: every
/// output goes to an active partition, every retired chunk exists and is live.
pub open spec fn completion_valid(m: CatalogModel, outputs: Seq<NewChunk>, retired: Seq<usize>) -> bool {
    &&& forall|i: int| 0 <= i < outputs.len() ==> partition_is_active(m, #[trigger] outputs[i].partition_id)
    &&& forall|i: int|
        0 <= i < retired.len() ==> #[trigger] retired[i] < m.chunks.len()
            && !m.chunks[retired[i] as int].deleted
}

/// The live chunks among the first `n` whose partition is `p`, by id.
pub open spec fn live_chunks_upto(chunks: Seq<Chunk>, p: usize, n: int) -> Seq<usize>
    decreases n,
{
    if n <= 0 {
        Seq::empty()
    } else if chunks[n - 1].partition_id == p && !chunks[n - 1].deleted {
        live_chunks_upto(chunks, p, n - 1).push((n - 1) as usize)
    } else {
        live_chunks_upto(chunks, p, n - 1)
    }
}

/// The live chunks of partition `p`, by id.
pub open spec fn live_chunks(m: CatalogModel, p: usize) -> Seq<usize> {
    live_chunks_upto(m.chunks, p, m.chunks.len() as int)
}

/// The ids of the dead-lettered jobs among the first `n`.
pub open spec fn dead_jobs_upto(jobs: Seq<Job>, n: int) -> Seq<usize>
    decreases n,
{
    if n <= 0 {
        Seq::empty()
    } else if jobs[n - 1].state == JobState::DeadLettered {
        dead_jobs_upto(jobs, n - 1).push((n - 1) as usize)
    } else {
        dead_jobs_upto(jobs, n - 1)
    }
}

pub open spec fn set_job(m: CatalogModel, i: usize, j: Job) -> CatalogModel {
    CatalogModel { jobs: m.jobs.update(i as int, j), ..m }
}

/// Every key column names one of the table's columns.
pub open spec fn keys_valid(t: Table) -> bool {
    forall|i: int| 0 <= i < t.key_columns@.len() ==> #[trigger] t.key_columns@[i] < t.columns@.len()
}

pub open spec fn step_add_table(m: CatalogModel, t: Table) -> (CatalogModel, Outcome) {
    if !keys_valid(t) {
        (m, Err(CubeErrorCauseType::User))
    } else {
        (CatalogModel { tables: m.tables.push(t), ..m }, Ok(Effect::Created(m.tables.len() as usize)))
    }
}

pub open spec fn step_add_partition(m: CatalogModel, table_id: usize) -> (CatalogModel, Outcome) {
    if table_id >= m.tables.len() {
        (m, Err(CubeErrorCauseType::User))
    } else {
        let p = Partition { table_id, generation: 0, active: true };
        (
            CatalogModel { partitions: m.partitions.push(p), ..m },
            Ok(Effect::Created(m.partitions.len() as usize)),
        )
    }
}

pub open spec fn step_split_partition(m: CatalogModel, p: usize) -> (CatalogModel, Outcome) {
    if !partition_is_active(m, p) {
        (m, Err(CubeErrorCauseType::User))
    } else if m.partitions[p as int].generation == u64::MAX {
        (m, Err(CubeErrorCauseType::Internal))
    } else {
        let old = m.partitions[p as int];
        let next = Partition { generation: (old.generation + 1) as u64, ..old };
        (
            CatalogModel {
                partitions: m.partitions.update(p as int, Partition { active: false, ..old }).push(
                    next,
                ),
                ..m
            },
            Ok(Effect::Created(m.partitions.len() as usize)),
        )
    }
}

pub open spec fn step_register_chunk(
    m: CatalogModel,
    p: usize,
    size: u64,
    rows: u64,
    uploaded: bool,
) -> (CatalogModel, Outcome) {
    if !partition_is_active(m, p) {
        (m, Err(CubeErrorCauseType::User))
    } else {
        let c = Chunk { partition_id: p, size, rows, uploaded, deleted: false };
        (CatalogModel { chunks: m.chunks.push(c), ..m }, Ok(Effect::Created(m.chunks.len() as usize)))
    }
}

pub open spec fn step_mark_uploaded(m: CatalogModel, c: usize) -> (CatalogModel, Outcome) {
    if c >= m.chunks.len() || m.chunks[c as int].deleted {
        (m, Err(CubeErrorCauseType::User))
    } else {
        let ch = m.chunks[c as int];
        (
            CatalogModel { chunks: m.chunks.update(c as int, Chunk { uploaded: true, ..ch }), ..m },
            Ok(Effect::Updated),
        )
    }
}

pub open spec fn step_register_node(m: CatalogModel, now: u64) -> (CatalogModel, Outcome) {
    (
        CatalogModel { nodes: m.nodes.push(Node { last_heartbeat: now, alive: true }), ..m },
        Ok(Effect::Created(m.nodes.len() as usize)),
    )
}

pub open spec fn step_heartbeat(m: CatalogModel, n: usize, now: u64) -> (CatalogModel, Outcome) {
    if n >= m.nodes.len() {
        (m, Err(CubeErrorCauseType::User))
    } else {
        (
            CatalogModel {
                nodes: m.nodes.update(n as int, Node { last_heartbeat: now, alive: true }),
                ..m
            },
            Ok(Effect::Updated),
        )
    }
}

pub open spec fn step_expire(m: CatalogModel, now: u64) -> (CatalogModel, Outcome) {
    let nodes = Seq::new(
        m.nodes.len(),
        |i: int| expire_node(m.nodes[i], now, m.policy.heartbeat_timeout),
    );
    let jobs = Seq::new(
        m.jobs.len(),
        |i: int|
            if lease_lost(m.jobs[i], nodes, now) {
                retry(m.jobs[i], m.policy, now)
            } else {
                m.jobs[i]
            },
    );
    (CatalogModel { nodes, jobs, ..m }, Ok(Effect::Updated))
}

pub open spec fn step_schedule(m: CatalogModel, kind: JobKind, target: usize) -> (
    CatalogModel,
    Outcome,
) {
    let i = first_open(m.jobs, kind, target, 0);
    if i < m.jobs.len() {
        (m, Ok(Effect::Existing(i as usize)))
    } else {
        let j = Job {
            kind,
            target,
            state: JobState::Scheduled,
            retries: 0,
            not_before: 0,
            lease: None,
        };
        (CatalogModel { jobs: m.jobs.push(j), ..m }, Ok(Effect::Created(m.jobs.len() as usize)))
    }
}

pub open spec fn step_lease_next(m: CatalogModel, n: usize, caps: Capabilities, now: u64) -> (
    CatalogModel,
    Outcome,
) {
    if n >= m.nodes.len() || !m.nodes[n as int].alive {
        (m, Err(CubeErrorCauseType::User))
    } else if m.next_token == u64::MAX {
        (m, Err(CubeErrorCauseType::Internal))
    } else {
        let i = first_eligible(m.jobs, caps, now, 0);
        if i >= m.jobs.len() {
            (m, Ok(Effect::NoWork))
        } else {
            let l = Lease {
                node: n,
                token: m.next_token,
                expires_at: sat_add(now, m.policy.lease_ttl),
            };
            let j = Job { state: JobState::Leased, lease: Some(l), ..m.jobs[i] };
            (
                CatalogModel {
                    jobs: m.jobs.update(i, j),
                    next_token: (m.next_token + 1) as u64,
                    ..m
                },
                Ok(
                    Effect::Granted(
                        LeaseGrant { job: i as usize, token: l.token, expires_at: l.expires_at },
                    ),
                ),
            )
        }
    }
}

pub open spec fn owns(m: CatalogModel, job: usize, n: usize, token: u64, now: u64) -> bool {
    job < m.jobs.len() && holds(m.jobs[job as int], n, token, now)
}

pub open spec fn step_renew(m: CatalogModel, job: usize, n: usize, token: u64, now: u64) -> (
    CatalogModel,
    Outcome,
) {
    if !owns(m, job, n, token, now) {
        (m, Err(CubeErrorCauseType::User))
    } else {
        let j = m.jobs[job as int];
        let l = Lease { expires_at: sat_add(now, m.policy.lease_ttl), ..j.lease->Some_0 };
        (set_job(m, job, Job { lease: Some(l), ..j }), Ok(Effect::Updated))
    }
}

pub open spec fn step_start(m: CatalogModel, job: usize, n: usize, token: u64, now: u64) -> (
    CatalogModel,
    Outcome,
) {
    if !owns(m, job, n, token, now) || m.jobs[job as int].state != JobState::Leased {
        (m, Err(CubeErrorCauseType::User))
    } else {
        let j = m.jobs[job as int];
        (set_job(m, job, Job { state: JobState::Running, ..j }), Ok(Effect::Updated))
    }
}

pub open spec fn step_complete(
    m: CatalogModel,
    job: usize,
    n: usize,
    token: u64,
    now: u64,
    outputs: Seq<NewChunk>,
    retired: Seq<usize>,
) -> (CatalogModel, Outcome) {
    if !owns(m, job, n, token, now) || !completion_valid(m, outputs, retired) {
        (m, Err(CubeErrorCauseType::User))
    } else {
        let j = m.jobs[job as int];
        let done = Job { state: JobState::Done, lease: None, ..j };
        (
            CatalogModel {
                chunks: retire_chunks(m.chunks, retired) + outputs.map_values(
                    |c: NewChunk| new_chunk(c),
                ),
                jobs: m.jobs.update(job as int, done),
                ..m
            },
            Ok(Effect::Updated),
        )
    }
}

pub open spec fn step_fail(m: CatalogModel, job: usize, n: usize, token: u64, now: u64) -> (
    CatalogModel,
    Outcome,
) {
    if !owns(m, job, n, token, now) {
        (m, Err(CubeErrorCauseType::User))
    } else {
        (set_job(m, job, retry(m.jobs[job as int], m.policy, now)), Ok(Effect::Updated))
    }
}

/// The catalog after one mutation, and what the mutation returns. A mutation
/// that fails leaves the catalog as it was.
pub open spec fn step(m: CatalogModel, op: Mutation) -> (CatalogModel, Outcome) {
    match op {
        Mutation::AddTable { table } => step_add_table(m, table),
        Mutation::AddPartition { table_id } => step_add_partition(m, table_id),
        Mutation::SplitPartition { partition } => step_split_partition(m, partition),
        Mutation::RegisterChunk { partition, size, rows, uploaded } => step_register_chunk(
            m,
            partition,
            size,
            rows,
            uploaded,
        ),
        Mutation::MarkUploaded { chunk } => step_mark_uploaded(m, chunk),
        Mutation::RegisterNode { now } => step_register_node(m, now),
        Mutation::Heartbeat { node, now } => step_heartbeat(m, node, now),
        Mutation::ExpireNodes { now } => step_expire(m, now),
        Mutation::Schedule { kind, target } => step_schedule(m, kind, target),
        Mutation::LeaseNext { node, caps, now } => step_lease_next(m, node, caps, now),
        Mutation::Renew { job, node, token, now } => step_renew(m, job, node, token, now),
        Mutation::Start { job, node, token, now } => step_start(m, job, node, token, now),
        Mutation::Complete { job, node, token, now, outputs, retired } => step_complete(
            m,
            job,
            node,
            token,
            now,
            outputs@,
            retired@,
        ),
        Mutation::Fail { job, node, token, now } => step_fail(m, job, node, token, now),
    }
}

/// The catalog after the mutations, applied one after another in order.
pub open spec fn apply_all(m: CatalogModel, ops: Seq<Mutation>) -> CatalogModel
    decreases ops.len(),
{
    if ops.len() == 0 {
        m
    } else {
        apply_all(step(m, ops[0]).0, ops.drop_first())
    }
}

/// The record id that an effect names, or zero.
pub open spec fn effect_id(e: Effect) -> usize {
    match e {
        Effect::Created(i) => i,
        Effect::Existing(i) => i,
        Effect::Granted(g) => g.job,
        _ => 0,
    }
}

/// The kind of record a mutation touches, what it does to it, and the record's
/// id where the mutation itself names it.
pub open spec fn event_shape(op: Mutation) -> (EntityKind, Operation, Option<usize>) {
    match op {
        Mutation::AddTable { .. } => (EntityKind::Table, Operation::Insert, None),
        Mutation::AddPartition { .. } => (EntityKind::Partition, Operation::Insert, None),
        Mutation::SplitPartition { .. } => (EntityKind::Partition, Operation::Insert, None),
        Mutation::RegisterChunk { .. } => (EntityKind::Chunk, Operation::Insert, None),
        Mutation::MarkUploaded { chunk } => (EntityKind::Chunk, Operation::Update, Some(chunk)),
        Mutation::RegisterNode { .. } => (EntityKind::Node, Operation::Insert, None),
        Mutation::Heartbeat { node, .. } => (EntityKind::Node, Operation::Update, Some(node)),
        Mutation::ExpireNodes { .. } => (EntityKind::Node, Operation::Update, Some(0)),
        Mutation::Schedule { .. } => (EntityKind::Job, Operation::Insert, None),
        Mutation::LeaseNext { .. } => (EntityKind::Job, Operation::Update, None),
        Mutation::Renew { job, .. } => (EntityKind::Job, Operation::Update, Some(job)),
        Mutation::Start { job, .. } => (EntityKind::Job, Operation::Update, Some(job)),
        Mutation::Complete { job, .. } => (EntityKind::Job, Operation::Update, Some(job)),
        Mutation::Fail { job, .. } => (EntityKind::Job, Operation::Update, Some(job)),
    }
}

/// The event published for a mutation that returned `e`, if any: none where
/// nothing changed.
pub open spec fn event_for(op: Mutation, e: Effect) -> Option<MetaStoreEvent> {
    let (entity, kind, fixed) = event_shape(op);
    match e {
        Effect::NoWork => None,
        Effect::Existing(_) => None,
        _ => Some(
            MetaStoreEvent {
                entity,
                id: match fixed {
                    Some(i) => i,
                    None => effect_id(e),
                },
                op: kind,
            },
        ),
    }
}

pub open spec fn event(entity: EntityKind, id: usize, op: Operation) -> MetaStoreEvent {
    MetaStoreEvent { entity, id, op }
}

/// One event per node that the expiry marks dead, among the first `n`.
pub open spec fn died_upto(m: CatalogModel, now: u64, n: int) -> Seq<MetaStoreEvent>
    decreases n,
{
    if n <= 0 {
        Seq::empty()
    } else if silent(m.nodes[n - 1], now, m.policy.heartbeat_timeout) {
        died_upto(m, now, n - 1).push(event(EntityKind::Node, (n - 1) as usize, Operation::Update))
    } else {
        died_upto(m, now, n - 1)
    }
}

/// One event per job that the expiry takes a lease from, among the first `n`.
pub open spec fn released_upto(m: CatalogModel, now: u64, n: int) -> Seq<MetaStoreEvent>
    decreases n,
{
    if n <= 0 {
        Seq::empty()
    } else if lease_lost(m.jobs[n - 1], step_expire(m, now).0.nodes, now) {
        released_upto(m, now, n - 1).push(event(EntityKind::Job, (n - 1) as usize, Operation::Update))
    } else {
        released_upto(m, now, n - 1)
    }
}

/// The events that a mutation with outcome `o` on catalog `m` publishes: one
/// per record that it changed, none where it failed or changed nothing.
pub open spec fn events_for(m: CatalogModel, op: Mutation, o: Outcome) -> Seq<MetaStoreEvent> {
    match o {
        Err(_) => Seq::empty(),
        Ok(e) => match op {
            Mutation::SplitPartition { partition } => seq![
                event(EntityKind::Partition, partition, Operation::Update),
                event(EntityKind::Partition, effect_id(e), Operation::Insert),
            ],
            Mutation::ExpireNodes { now } => died_upto(m, now, m.nodes.len() as int) + released_upto(
                m,
                now,
                m.jobs.len() as int,
            ),
            Mutation::Complete { job, outputs, retired, .. } => seq![
                event(EntityKind::Job, job, Operation::Update),
            ] + retired@.map_values(|c: usize| event(EntityKind::Chunk, c, Operation::Delete))
                + Seq::new(
                outputs@.len(),
                |k: int| event(EntityKind::Chunk, (m.chunks.len() + k) as usize, Operation::Insert),
            ),
            _ => match event_for(op, e) {
                Some(x) => seq![x],
                None => Seq::empty(),
            },
        },
    }
}

/// No two unfinished jobs do the same kind of work on the same target.
pub open spec fn open_unique(jobs: Seq<Job>) -> bool {
    forall|i: int, k: int|
        0 <= i < jobs.len() && 0 <= k < jobs.len() && i != k && is_open_match(
            #[trigger] jobs[i],
            jobs[k].kind,
            jobs[k].target,
        ) ==> !is_open_match(#[trigger] jobs[k], jobs[k].kind, jobs[k].target)
}

/// The catalog's invariant: partitions belong to existing tables, chunks to
/// existing partitions; a job holds a lease exactly while it is leased or
/// running, from a live node, under a token that was issued and that no other
/// job holds; no two unfinished jobs share a kind and a target.
pub open spec fn catalog_wf(m: CatalogModel) -> bool {
    &&& open_unique(m.jobs)
    &&& forall|p: int| 0 <= p < m.partitions.len() ==> #[trigger] m.partitions[p].table_id < m.tables.len()
    &&& forall|c: int| 0 <= c < m.chunks.len() ==> #[trigger] m.chunks[c].partition_id < m.partitions.len()
    &&& forall|i: int|
        0 <= i < m.jobs.len() ==> {
            let j = #[trigger] m.jobs[i];
            &&& (j.lease is Some) == (j.state == JobState::Leased || j.state == JobState::Running)
            &&& j.lease matches Some(l) ==> l.node < m.nodes.len() && m.nodes[l.node as int].alive
                && l.token < m.next_token
        }
    &&& forall|i: int, k: int|
        0 <= i < m.jobs.len() && 0 <= k < m.jobs.len() && i != k && (#[trigger] m.jobs[i]).lease is Some
            && (#[trigger] m.jobs[k]).lease is Some ==> m.jobs[i].lease->Some_0.token
            != m.jobs[k].lease->Some_0.token
}


/// A retried job leaves no lease behind and is either scheduled again or
/// dead-lettered.
pub proof fn lemma_retry_shape(j: Job, p: Policy, now: u64)
    ensures
        retry(j, p, now).lease is None,
        retry(j, p, now).state == JobState::Scheduled || retry(j, p, now).state
            == JobState::DeadLettered,
        retry(j, p, now).kind == j.kind,
        retry(j, p, now).target == j.target,
{
}

proof fn lemma_expire_preserves_wf(m: CatalogModel, now: u64)
    requires
        catalog_wf(m),
    ensures
        catalog_wf(step_expire(m, now).0),
{
    let s = step_expire(m, now).0;
    assert forall|i: int| 0 <= i < s.jobs.len() implies {
        let j = #[trigger] s.jobs[i];
        &&& (j.lease is Some) == (j.state == JobState::Leased || j.state == JobState::Running)
        &&& j.lease matches Some(l) ==> l.node < s.nodes.len() && s.nodes[l.node as int].alive
            && l.token < s.next_token
    } by {
        lemma_retry_shape(m.jobs[i], m.policy, now);
    }
    assert forall|i: int, k: int|
        0 <= i < s.jobs.len() && 0 <= k < s.jobs.len() && i != k && (#[trigger] s.jobs[i]).lease is Some
            && (#[trigger] s.jobs[k]).lease is Some implies s.jobs[i].lease->Some_0.token
            != s.jobs[k].lease->Some_0.token by {
        lemma_retry_shape(m.jobs[i], m.policy, now);
        lemma_retry_shape(m.jobs[k], m.policy, now);
        assert(m.jobs[i].lease is Some && m.jobs[k].lease is Some);
    }
}

pub proof fn lemma_first_eligible_bounds(jobs: Seq<Job>, caps: Capabilities, now: u64, i: int)
    requires
        0 <= i <= jobs.len(),
    ensures
        i <= first_eligible(jobs, caps, now, i) <= jobs.len(),
        first_eligible(jobs, caps, now, i) < jobs.len() ==> is_eligible(
            jobs[first_eligible(jobs, caps, now, i)],
            caps,
            now,
        ),
    decreases jobs.len() - i,
{
    if i < jobs.len() && !is_eligible(jobs[i], caps, now) {
        lemma_first_eligible_bounds(jobs, caps, now, i + 1);
    }
}

proof fn lemma_lease_next_preserves_wf(m: CatalogModel, n: usize, caps: Capabilities, now: u64)
    requires
        catalog_wf(m),
    ensures
        catalog_wf(step_lease_next(m, n, caps, now).0),
{
    lemma_first_eligible_bounds(m.jobs, caps, now, 0);
    let s = step_lease_next(m, n, caps, now).0;
    let f = first_eligible(m.jobs, caps, now, 0);
    if !(n >= m.nodes.len() || !m.nodes[n as int].alive) && m.next_token != u64::MAX && f
        < m.jobs.len() {
        assert forall|i: int, k: int|
            0 <= i < s.jobs.len() && 0 <= k < s.jobs.len() && i != k && (#[trigger] s.jobs[i]).lease is Some
                && (#[trigger] s.jobs[k]).lease is Some implies s.jobs[i].lease->Some_0.token
                != s.jobs[k].lease->Some_0.token by {
            if i != f && k != f {
                assert(m.jobs[i].lease is Some && m.jobs[k].lease is Some);
            }
            if i == f {
                assert(m.jobs[k] == s.jobs[k]);
            }
            if k == f {
                assert(m.jobs[i] == s.jobs[i]);
            }
        }
        assert forall|i: int| 0 <= i < s.jobs.len() implies {
            let j = #[trigger] s.jobs[i];
            &&& (j.lease is Some) == (j.state == JobState::Leased || j.state == JobState::Running)
            &&& j.lease matches Some(l) ==> l.node < s.nodes.len() && s.nodes[l.node as int].alive
                && l.token < s.next_token
        } by {
            if i != f {
                assert(m.jobs[i] == s.jobs[i]);
            }
        }
    }
}

proof fn lemma_complete_preserves_wf(
    m: CatalogModel,
    job: usize,
    n: usize,
    token: u64,
    now: u64,
    outputs: Seq<NewChunk>,
    retired: Seq<usize>,
)
    requires
        catalog_wf(m),
    ensures
        catalog_wf(step_complete(m, job, n, token, now, outputs, retired).0),
{
    let s = step_complete(m, job, n, token, now, outputs, retired).0;
    if owns(m, job, n, token, now) && completion_valid(m, outputs, retired) {
        let r = retire_chunks(m.chunks, retired);
        let o = outputs.map_values(|c: NewChunk| new_chunk(c));
        assert forall|c: int| 0 <= c < s.chunks.len() implies #[trigger] s.chunks[c].partition_id
            < s.partitions.len() by {
            if c < r.len() {
                assert(s.chunks[c] == r[c]);
            } else {
                assert(s.chunks[c] == o[c - r.len()]);
                assert(partition_is_active(m, outputs[c - r.len()].partition_id));
            }
        }
        assert forall|i: int, k: int|
            0 <= i < s.jobs.len() && 0 <= k < s.jobs.len() && i != k && (#[trigger] s.jobs[i]).lease is Some
                && (#[trigger] s.jobs[k]).lease is Some implies s.jobs[i].lease->Some_0.token
                != s.jobs[k].lease->Some_0.token by {
            assert(m.jobs[i] == s.jobs[i] && m.jobs[k] == s.jobs[k]);
        }
    }
}

proof fn lemma_set_job_preserves_wf(m: CatalogModel, i: usize, j: Job)
    requires
        catalog_wf(m),
        open_unique(set_job(m, i, j).jobs),
        i < m.jobs.len(),
        (j.lease is Some) == (j.state == JobState::Leased || j.state == JobState::Running),
        j.lease is Some ==> m.jobs[i as int].lease is Some && j.lease->Some_0.node
            == m.jobs[i as int].lease->Some_0.node && j.lease->Some_0.token
            == m.jobs[i as int].lease->Some_0.token,
    ensures
        catalog_wf(set_job(m, i, j)),
{
    let s = set_job(m, i, j);
    assert forall|a: int, k: int|
        0 <= a < s.jobs.len() && 0 <= k < s.jobs.len() && a != k && (#[trigger] s.jobs[a]).lease is Some
            && (#[trigger] s.jobs[k]).lease is Some implies s.jobs[a].lease->Some_0.token
            != s.jobs[k].lease->Some_0.token by {
        assert(m.jobs[a].lease is Some && m.jobs[k].lease is Some);
    }
    assert forall|a: int| 0 <= a < s.jobs.len() implies {
        let jj = #[trigger] s.jobs[a];
        &&& (jj.lease is Some) == (jj.state == JobState::Leased || jj.state == JobState::Running)
        &&& jj.lease matches Some(l) ==> l.node < s.nodes.len() && s.nodes[l.node as int].alive
            && l.token < s.next_token
    } by {
        assert(a != i ==> m.jobs[a] == s.jobs[a]);
    }
}

/// Jobs that keep their kind and target, and that only finish, never start
/// again, keep unfinished jobs unique.
pub proof fn lemma_open_unique_kept(a: Seq<Job>, b: Seq<Job>)
    requires
        open_unique(a),
        a.len() == b.len(),
        forall|i: int|
            0 <= i < a.len() ==> (#[trigger] b[i]).kind == a[i].kind && b[i].target == a[i].target
                && (!is_terminal(b[i].state) ==> !is_terminal(a[i].state)),
    ensures
        open_unique(b),
{
    assert forall|i: int, k: int|
        0 <= i < b.len() && 0 <= k < b.len() && i != k && is_open_match(
            #[trigger] b[i],
            b[k].kind,
            b[k].target,
        ) implies !is_open_match(#[trigger] b[k], b[k].kind, b[k].target) by {
        assert(is_open_match(a[i], a[k].kind, a[k].target));
    }
}

pub proof fn lemma_first_open_none(jobs: Seq<Job>, kind: JobKind, target: usize, i: int)
    requires
        0 <= i <= jobs.len(),
        first_open(jobs, kind, target, i) == jobs.len(),
    ensures
        forall|k: int| i <= k < jobs.len() ==> !is_open_match(#[trigger] jobs[k], kind, target),
    decreases jobs.len() - i,
{
    if i < jobs.len() {
        lemma_first_open_none(jobs, kind, target, i + 1);
    }
}

proof fn lemma_step_keeps_open_unique(m: CatalogModel, op: Mutation)
    requires
        catalog_wf(m),
    ensures
        open_unique(step(m, op).0.jobs),
{
    let s = step(m, op).0;
    match op {
        Mutation::ExpireNodes { now } => {
            assert forall|i: int| 0 <= i < m.jobs.len() implies (#[trigger] s.jobs[i]).kind
                == m.jobs[i].kind && s.jobs[i].target == m.jobs[i].target && (!is_terminal(
                s.jobs[i].state,
            ) ==> !is_terminal(m.jobs[i].state)) by {
                lemma_retry_shape(m.jobs[i], m.policy, now);
            }
            lemma_open_unique_kept(m.jobs, s.jobs);
        },
        Mutation::LeaseNext { node, caps, now } => {
            lemma_first_eligible_bounds(m.jobs, caps, now, 0);
            assert forall|i: int| 0 <= i < m.jobs.len() implies (#[trigger] s.jobs[i]).kind
                == m.jobs[i].kind && s.jobs[i].target == m.jobs[i].target && (!is_terminal(
                s.jobs[i].state,
            ) ==> !is_terminal(m.jobs[i].state)) by {}
            lemma_open_unique_kept(m.jobs, s.jobs);
        },
        Mutation::Fail { job, node, token, now } => {
            if owns(m, job, node, token, now) {
                lemma_retry_shape(m.jobs[job as int], m.policy, now);
            }
            assert forall|i: int| 0 <= i < m.jobs.len() implies (#[trigger] s.jobs[i]).kind
                == m.jobs[i].kind && s.jobs[i].target == m.jobs[i].target && (!is_terminal(
                s.jobs[i].state,
            ) ==> !is_terminal(m.jobs[i].state)) by {}
            lemma_open_unique_kept(m.jobs, s.jobs);
        },
        Mutation::Schedule { kind, target } => {
            lemma_first_open_bounds(m.jobs, kind, target, 0);
            if first_open(m.jobs, kind, target, 0) >= m.jobs.len() {
                lemma_first_open_none(m.jobs, kind, target, 0);
                assert forall|i: int, k: int|
                    0 <= i < s.jobs.len() && 0 <= k < s.jobs.len() && i != k && is_open_match(
                        #[trigger] s.jobs[i],
                        s.jobs[k].kind,
                        s.jobs[k].target,
                    ) implies !is_open_match(#[trigger] s.jobs[k], s.jobs[k].kind, s.jobs[k].target) by {
                    if i < m.jobs.len() && k < m.jobs.len() {
                        assert(s.jobs[i] == m.jobs[i] && s.jobs[k] == m.jobs[k]);
                    } else if k == m.jobs.len() {
                        assert(s.jobs[i] == m.jobs[i]);
                    } else {
                        assert(s.jobs[k] == m.jobs[k]);
                    }
                }
            }
        },
        _ => {
            assert forall|i: int| 0 <= i < m.jobs.len() implies (#[trigger] s.jobs[i]).kind
                == m.jobs[i].kind && s.jobs[i].target == m.jobs[i].target && (!is_terminal(
                s.jobs[i].state,
            ) ==> !is_terminal(m.jobs[i].state)) by {}
            lemma_open_unique_kept(m.jobs, s.jobs);
        },
    }
}

pub proof fn lemma_first_open_bounds(jobs: Seq<Job>, kind: JobKind, target: usize, i: int)
    requires
        0 <= i <= jobs.len(),
    ensures
        i <= first_open(jobs, kind, target, i) <= jobs.len(),
        first_open(jobs, kind, target, i) < jobs.len() ==> is_open_match(
            jobs[first_open(jobs, kind, target, i)],
            kind,
            target,
        ),
    decreases jobs.len() - i,
{
    if i < jobs.len() && !is_open_match(jobs[i], kind, target) {
        lemma_first_open_bounds(jobs, kind, target, i + 1);
    }
}

/// Every mutation keeps the catalog's invariant: in particular each job has at
/// most one lease, held by a live node, under a token no other job holds.
pub proof fn lemma_step_preserves_wf(m: CatalogModel, op: Mutation)
    requires
        catalog_wf(m),
    ensures
        catalog_wf(step(m, op).0),
{
    lemma_step_keeps_open_unique(m, op);
    match op {
        Mutation::ExpireNodes { now } => lemma_expire_preserves_wf(m, now),
        Mutation::LeaseNext { node, caps, now } => lemma_lease_next_preserves_wf(m, node, caps, now),
        Mutation::Complete { job, node, token, now, outputs, retired } => lemma_complete_preserves_wf(
            m,
            job,
            node,
            token,
            now,
            outputs@,
            retired@,
        ),
        Mutation::Renew { job, node, token, now } => {
            if owns(m, job, node, token, now) {
                let j = m.jobs[job as int];
                let l = Lease { expires_at: sat_add(now, m.policy.lease_ttl), ..j.lease->Some_0 };
                lemma_set_job_preserves_wf(m, job, Job { lease: Some(l), ..j });
            }
        },
        Mutation::Start { job, node, token, now } => {
            if owns(m, job, node, token, now) {
                let j = m.jobs[job as int];
                lemma_set_job_preserves_wf(m, job, Job { state: JobState::Running, ..j });
            }
        },
        Mutation::Fail { job, node, token, now } => {
            if owns(m, job, node, token, now) {
                lemma_retry_shape(m.jobs[job as int], m.policy, now);
                lemma_set_job_preserves_wf(m, job, retry(m.jobs[job as int], m.policy, now));
            }
        },
        Mutation::Heartbeat { node, now } => {
            let s = step(m, op).0;
            assert forall|i: int| 0 <= i < s.jobs.len() implies {
                let j = #[trigger] s.jobs[i];
                &&& (j.lease is Some) == (j.state == JobState::Leased || j.state == JobState::Running)
                &&& j.lease matches Some(l) ==> l.node < s.nodes.len() && s.nodes[l.node as int].alive
                    && l.token < s.next_token
            } by {
                assert(m.jobs[i] == s.jobs[i]);
            }
        },
        Mutation::RegisterNode { now } => {
            let s = step(m, op).0;
            assert forall|i: int| 0 <= i < s.jobs.len() implies {
                let j = #[trigger] s.jobs[i];
                &&& (j.lease is Some) == (j.state == JobState::Leased || j.state == JobState::Running)
                &&& j.lease matches Some(l) ==> l.node < s.nodes.len() && s.nodes[l.node as int].alive
                    && l.token < s.next_token
            } by {
                assert(m.jobs[i] == s.jobs[i]);
            }
        },
        Mutation::Schedule { kind, target } => {
            let s = step(m, op).0;
            assert forall|i: int, k: int|
                0 <= i < s.jobs.len() && 0 <= k < s.jobs.len() && i != k && (#[trigger] s.jobs[i]).lease is Some
                    && (#[trigger] s.jobs[k]).lease is Some implies s.jobs[i].lease->Some_0.token
                    != s.jobs[k].lease->Some_0.token by {
                assert(m.jobs[i] == s.jobs[i] && m.jobs[k] == s.jobs[k]);
            }
        },
        Mutation::SplitPartition { partition } => {},
        Mutation::AddPartition { table_id } => {},
        Mutation::AddTable { table } => {},
        Mutation::MarkUploaded { chunk } => {},
        Mutation::RegisterChunk { partition, size, rows, uploaded } => {},
    }
}

} // verus!
