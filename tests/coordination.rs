use cubestore::catalog::{
    Capabilities, Column, ColumnType, Effect, JobKind, JobState, LeaseGrant, Mutation, NewChunk, Policy, Table,
};
use cubestore::scheduler::{needed_maintenance, on_partition_changed, partition_row_count, Thresholds};
use cubestore::events::{EntityKind, EventBus, MetaStoreEvent, Operation, RecvOutcome};
use cubestore::metastore::{backoff_delay, Metastore};
use cubestore::{CubeError, CubeErrorCauseType};

fn policy() -> Policy {
    Policy { retry_limit: 2, backoff_base: 10, lease_ttl: 100, heartbeat_timeout: 30 }
}

fn all_caps() -> Capabilities {
    Capabilities { compaction: true, repartition: true, finalize: true }
}

fn events_table() -> Table {
    Table {
        name: String::from("events"),
        columns: vec![
            Column { name: String::from("id"), column_type: ColumnType::Int },
            Column { name: String::from("at"), column_type: ColumnType::Timestamp },
        ],
        key_columns: vec![0],
    }
}

fn store() -> (Metastore, usize) {
    let mut m = Metastore::new(policy(), 8);
    let t = created(m.add_table(events_table()));
    (m, t)
}

fn created(r: Result<Effect, CubeError>) -> usize {
    match r {
        Ok(Effect::Created(i)) => i,
        _ => panic!("expected a created record"),
    }
}

fn granted(r: Result<Effect, CubeError>) -> LeaseGrant {
    match r {
        Ok(Effect::Granted(g)) => g,
        _ => panic!("expected a lease"),
    }
}

fn user_error(r: Result<Effect, CubeError>) -> bool {
    match r {
        Err(e) => e.cause() == CubeErrorCauseType::User,
        Ok(_) => false,
    }
}

#[test]
fn error_constructors_and_text() {
    let u = CubeError::user(String::from("bad input"));
    assert!(u.is_user());
    assert_eq!(u.message(), "bad input");
    assert_eq!(u.to_display_string(), "User: bad input");
    let i = CubeError::internal(String::from("disk"));
    assert_eq!(i.cause(), CubeErrorCauseType::Internal);
    assert_eq!(i.to_display_string(), "Internal: disk");
}

#[test]
fn outside_failures_become_internal_errors() {
    let utf8 = String::from_utf8(vec![0xff, 0xfe]).unwrap_err();
    let text = utf8.to_string();
    let e = CubeError::from_utf8(utf8);
    assert_eq!(e.cause(), CubeErrorCauseType::Internal);
    assert_eq!(e.message(), text);
    let date = chrono::NaiveDate::parse_from_str("not a date", "%Y-%m-%d").unwrap_err();
    let text = date.to_string();
    let e = CubeError::from_chrono_parse(date);
    assert_eq!(e.cause(), CubeErrorCauseType::Internal);
    assert_eq!(e.message(), text);
    assert!(!e.message().is_empty());
    let dec = "1.2.3".parse::<bigdecimal::BigDecimal>().unwrap_err();
    let e = CubeError::from_decimal_parse(dec);
    assert_eq!(e.cause(), CubeErrorCauseType::Internal);
    assert!(!e.message().is_empty());
}

#[test]
fn backoff_doubles_and_saturates() {
    assert_eq!(backoff_delay(3, 0), 3);
    assert_eq!(backoff_delay(3, 2), 12);
    assert_eq!(backoff_delay(u64::MAX / 2 + 1, 1), u64::MAX);
    assert_eq!(backoff_delay(u64::MAX / 2 + 1, 5), u64::MAX);
}

#[test]
fn registered_chunk_is_read_back() {
    let (mut m, t) = store();
    let p = created(m.add_partition(t));
    let c0 = created(m.register_chunk(p, 100, 10, true));
    assert_eq!(m.partition_chunks(p), vec![c0]);
    let c1 = created(m.register_chunk(p, 50, 5, false));
    assert_eq!(m.partition_chunks(p), vec![c0, c1]);
    assert!(!m.chunk(c1).unwrap().uploaded);
}

#[test]
fn chunk_in_missing_or_superseded_partition_is_refused() {
    let (mut m, t) = store();
    assert!(user_error(m.register_chunk(0, 1, 1, true)));
    assert!(user_error(m.add_partition(t + 1)));
    let p = created(m.add_partition(t));
    let q = created(m.split_partition(p));
    assert_eq!(q, 1);
    assert_eq!(m.partition(q).unwrap().generation, 1);
    assert!(!m.partition(p).unwrap().active);
    assert!(user_error(m.register_chunk(p, 1, 1, true)));
    assert!(user_error(m.split_partition(p)));
    assert!(m.register_chunk(q, 1, 1, true).is_ok());
}

#[test]
fn schedule_twice_gives_same_job() {
    let (mut m, t) = store();
    let p = created(m.add_partition(t));
    let j = created(m.schedule(JobKind::Compaction, p));
    assert!(matches!(m.schedule(JobKind::Compaction, p), Ok(Effect::Existing(x)) if x == j));
    let other = created(m.schedule(JobKind::Repartition, p));
    assert_ne!(other, j);
    assert_eq!(m.job_status(j), Some(JobState::Scheduled));
    assert_eq!(m.job_status(99), None);
}

#[test]
fn one_job_two_lease_calls() {
    let (mut m, t) = store();
    let p = created(m.add_partition(t));
    let a = created(m.register_node(0));
    let b = created(m.register_node(0));
    let j = created(m.schedule(JobKind::Compaction, p));
    let g = granted(m.lease_next_job(a, all_caps(), 1));
    assert_eq!(g.job, j);
    assert!(matches!(m.lease_next_job(b, all_caps(), 1), Ok(Effect::NoWork)));
    assert_eq!(m.job_status(j), Some(JobState::Leased));
}

#[test]
fn lease_respects_capabilities() {
    let (mut m, t) = store();
    let p = created(m.add_partition(t));
    let a = created(m.register_node(0));
    created(m.schedule(JobKind::Repartition, p));
    let caps = Capabilities { compaction: true, repartition: false, finalize: false };
    assert!(matches!(m.lease_next_job(a, caps, 1), Ok(Effect::NoWork)));
    assert!(user_error(m.lease_next_job(5, all_caps(), 1)));
}

#[test]
fn dead_node_job_moves_to_another_node() {
    let (mut m, t) = store();
    let p = created(m.add_partition(t));
    let c1 = created(m.register_chunk(p, 10, 1, true));
    let c2 = created(m.register_chunk(p, 10, 1, true));
    let a = created(m.register_node(0));
    let b = created(m.register_node(0));
    let j1 = created(m.schedule(JobKind::Compaction, p));
    let ga = granted(m.lease_next_job(a, all_caps(), 0));
    assert_eq!(ga.job, j1);
    // b keeps beating, a goes silent past the timeout
    assert!(m.heartbeat(b, 40).is_ok());
    assert!(m.expire_nodes(40).is_ok());
    assert!(!m.node(a).unwrap().alive);
    assert!(m.node(b).unwrap().alive);
    assert_eq!(m.job_status(j1), Some(JobState::Scheduled));
    let not_before = m.job(j1).unwrap().not_before;
    assert_eq!(not_before, 50);
    assert!(matches!(m.lease_next_job(b, all_caps(), 45), Ok(Effect::NoWork)));
    let gb = granted(m.lease_next_job(b, all_caps(), 50));
    assert_eq!(gb.job, j1);
    assert_ne!(gb.token, ga.token);
    let out = vec![NewChunk { partition_id: p, size: 20, rows: 2 }];
    assert!(m.complete_job(j1, b, gb.token, 60, out, vec![c1, c2]).is_ok());
    let live = m.partition_chunks(p);
    assert_eq!(live.len(), 1);
    let c3 = live[0];
    assert_eq!(m.chunk(c3).unwrap().size, 20);
    assert!(m.chunk(c1).unwrap().deleted && m.chunk(c2).unwrap().deleted);
    assert_eq!(m.job_status(j1), Some(JobState::Done));
    // the old holder's late completion changes nothing
    let late = vec![NewChunk { partition_id: p, size: 20, rows: 2 }];
    assert!(user_error(m.complete_job(j1, a, ga.token, 61, late, vec![c1, c2])));
    assert_eq!(m.partition_chunks(p), vec![c3]);
}

#[test]
fn stale_token_cannot_renew() {
    let (mut m, t) = store();
    let p = created(m.add_partition(t));
    let a = created(m.register_node(0));
    let j = created(m.schedule(JobKind::Finalize, p));
    let g = granted(m.lease_next_job(a, all_caps(), 0));
    assert!(m.renew_lease(j, a, g.token, 50).is_ok());
    assert_eq!(m.job(j).unwrap().lease.unwrap().expires_at, 150);
    assert!(user_error(m.renew_lease(j, a, g.token + 1, 50)));
    assert!(user_error(m.renew_lease(j, a, g.token, 150)));
    assert!(m.start_job(j, a, g.token, 60).is_ok());
    assert_eq!(m.job_status(j), Some(JobState::Running));
    assert!(user_error(m.start_job(j, a, g.token, 60)));
}

#[test]
fn retries_end_in_dead_letter() {
    let (mut m, t) = store();
    let p = created(m.add_partition(t));
    let a = created(m.register_node(0));
    let j = created(m.schedule(JobKind::Compaction, p));
    let mut now: u64 = 0;
    for expected_retries in 1..=2u64 {
        let g = granted(m.lease_next_job(a, all_caps(), now));
        assert!(m.fail_job(j, a, g.token, now).is_ok());
        let job = m.job(j).unwrap();
        assert_eq!(job.state, JobState::Scheduled);
        assert_eq!(job.retries, expected_retries);
        now = job.not_before;
        assert!(m.heartbeat(a, now).is_ok());
    }
    let g = granted(m.lease_next_job(a, all_caps(), now));
    assert!(m.fail_job(j, a, g.token, now).is_ok());
    assert_eq!(m.job_status(j), Some(JobState::DeadLettered));
    assert_eq!(m.dead_lettered_jobs(), vec![j]);
    assert!(matches!(m.lease_next_job(a, all_caps(), now + 1000), Ok(Effect::NoWork)));
    assert!(m.expire_nodes(now + 1000).is_ok());
    assert_eq!(m.job_status(j), Some(JobState::DeadLettered));
    // a dead-lettered job is finished: scheduling again makes a new one
    let again = created(m.schedule(JobKind::Compaction, p));
    assert_ne!(again, j);
}

#[test]
fn expired_lease_is_retried() {
    let (mut m, t) = store();
    let p = created(m.add_partition(t));
    let a = created(m.register_node(0));
    let j = created(m.schedule(JobKind::Compaction, p));
    let g = granted(m.lease_next_job(a, all_caps(), 0));
    assert_eq!(g.expires_at, 100);
    assert!(m.heartbeat(a, 100).is_ok());
    assert!(m.expire_nodes(100).is_ok());
    assert_eq!(m.job_status(j), Some(JobState::Scheduled));
    assert_eq!(m.job(j).unwrap().retries, 1);
}

#[test]
fn batch_equals_writes_in_order() {
    let ops = || {
        vec![
            Mutation::AddTable { table: events_table() },
            Mutation::AddPartition { table_id: 0 },
            Mutation::RegisterChunk { partition: 0, size: 5, rows: 1, uploaded: true },
            Mutation::RegisterChunk { partition: 4, size: 5, rows: 1, uploaded: true },
            Mutation::Schedule { kind: JobKind::Compaction, target: 0 },
            Mutation::Schedule { kind: JobKind::Compaction, target: 0 },
        ]
    };
    let mut a = Metastore::new(policy(), 8);
    let rs = a.write_all(ops());
    let mut b = Metastore::new(policy(), 8);
    for op in ops() {
        b.write(op).ok();
    }
    assert_eq!(rs.len(), 6);
    assert!(rs[3].is_err());
    assert!(matches!(rs[5], Ok(Effect::Existing(0))));
    assert_eq!(a.partition_chunks(0), b.partition_chunks(0));
    assert_eq!(a.job_status(0), b.job_status(0));
    assert_eq!(a.job_status(1), None);
}

#[test]
fn subscriber_sees_commits_in_order() {
    let mut m = Metastore::new(policy(), 8);
    let s = m.subscribe();
    assert_eq!(m.recv(s), RecvOutcome::Empty);
    let t = created(m.add_table(events_table()));
    let p = created(m.add_partition(t));
    let c = created(m.register_chunk(p, 1, 1, true));
    assert!(m.register_chunk(9, 1, 1, true).is_err());
    assert_eq!(
        m.recv(s),
        RecvOutcome::Event(MetaStoreEvent { entity: EntityKind::Table, id: t, op: Operation::Insert })
    );
    assert_eq!(
        m.recv(s),
        RecvOutcome::Event(MetaStoreEvent { entity: EntityKind::Partition, id: p, op: Operation::Insert })
    );
    assert_eq!(
        m.recv(s),
        RecvOutcome::Event(MetaStoreEvent { entity: EntityKind::Chunk, id: c, op: Operation::Insert })
    );
    assert_eq!(m.recv(s), RecvOutcome::Empty);
}

#[test]
fn slow_subscriber_is_lagged_then_resubscribes() {
    let mut bus = EventBus::new(2);
    let slow = bus.subscribe();
    let fast = bus.subscribe();
    let ev = |id: usize| MetaStoreEvent { entity: EntityKind::Job, id, op: Operation::Update };
    bus.publish(ev(1));
    assert_eq!(bus.recv(fast), RecvOutcome::Event(ev(1)));
    bus.publish(ev(2));
    assert_eq!(bus.recv(fast), RecvOutcome::Event(ev(2)));
    bus.publish(ev(3));
    assert_eq!(bus.recv(fast), RecvOutcome::Event(ev(3)));
    assert_eq!(bus.recv(slow), RecvOutcome::Lagged);
    assert_eq!(bus.recv(slow), RecvOutcome::Lagged);
    bus.resubscribe(slow);
    assert_eq!(bus.recv(slow), RecvOutcome::Empty);
    bus.publish(ev(4));
    assert_eq!(bus.recv(slow), RecvOutcome::Event(ev(4)));
    assert_eq!(bus.recv(fast), RecvOutcome::Event(ev(4)));
}

#[test]
fn table_with_bad_key_is_refused() {
    let mut m = Metastore::new(policy(), 8);
    let mut bad = events_table();
    bad.key_columns = vec![0, 2];
    assert!(user_error(m.add_table(bad)));
    assert!(m.table(0).is_none());
    let t = created(m.add_table(events_table()));
    assert_eq!(m.table(t).unwrap().name, "events");
    assert_eq!(m.table(t).unwrap().columns.len(), 2);
}

#[test]
fn many_small_chunks_trigger_one_compaction() {
    let (mut m, t) = store();
    let p = created(m.add_partition(t));
    let th = Thresholds { max_chunks: 2, max_rows: 1000 };
    for _ in 0..2 {
        created(m.register_chunk(p, 1, 10, true));
    }
    assert!(matches!(on_partition_changed(&mut m, p, th), Ok(None)));
    created(m.register_chunk(p, 1, 10, true));
    assert_eq!(needed_maintenance(&m, p, th), Some(JobKind::Compaction));
    let j = match on_partition_changed(&mut m, p, th) {
        Ok(Some(Effect::Created(j))) => j,
        _ => panic!("expected a new compaction job"),
    };
    assert_eq!(m.job(j).unwrap().kind, JobKind::Compaction);
    assert!(matches!(on_partition_changed(&mut m, p, th), Ok(Some(Effect::Existing(x))) if x == j));
}

#[test]
fn large_partition_triggers_repartition() {
    let (mut m, t) = store();
    let p = created(m.add_partition(t));
    let th = Thresholds { max_chunks: 10, max_rows: 100 };
    created(m.register_chunk(p, 1, 60, true));
    assert_eq!(needed_maintenance(&m, p, th), None);
    created(m.register_chunk(p, 1, 60, true));
    assert_eq!(partition_row_count(&m, p), 120);
    assert_eq!(needed_maintenance(&m, p, th), Some(JobKind::Repartition));
    created(m.register_chunk(p, 1, u64::MAX, true));
    assert_eq!(partition_row_count(&m, p), u64::MAX);
    let q = created(m.split_partition(p));
    assert_eq!(needed_maintenance(&m, p, th), None);
    assert_eq!(needed_maintenance(&m, q, th), None);
}

#[test]
fn configuration_failures_become_user_errors() {
    let e = CubeError::from_credentials(awscreds::error::CredentialsError::NotEc2);
    assert_eq!(e.cause(), CubeErrorCauseType::User);
    assert_eq!(e.message(), "Not an AWS instance");
    let bytes: Vec<u8> = vec![0xff];
    let region = awsregion::error::RegionError::Utf8 { source: std::str::from_utf8(&bytes).unwrap_err() };
    let text = region.to_string();
    let e = CubeError::from_region(region);
    assert!(e.is_user());
    assert_eq!(e.message(), text);
    assert_eq!(e.to_display_string(), format!("User: {}", text));
}

#[test]
fn channel_and_parser_failures_become_internal_errors() {
    let e = CubeError::from_broadcast_recv(tokio::sync::broadcast::error::RecvError::Lagged(3));
    assert_eq!(e.cause(), CubeErrorCauseType::Internal);
    assert!(e.message().contains('3'));
    let e = CubeError::from_sql_parse(sqlparser::parser::ParserError::ParserError(String::from("oops")));
    assert_eq!(e.cause(), CubeErrorCauseType::Internal);
    assert!(e.message().contains("oops"));
    let e = CubeError::from_io(std::io::Error::new(std::io::ErrorKind::Other, "disk gone"));
    assert_eq!(e.message(), "disk gone");
    assert!(!e.is_user());
}

#[test]
fn columnar_failures_become_internal_errors() {
    let e = CubeError::from_arrow(arrow::error::ArrowError::ComputeError(String::from("overflow")));
    assert_eq!(e.cause(), CubeErrorCauseType::Internal);
    assert!(e.message().contains("overflow"));
    let e = CubeError::from_parquet(parquet::errors::ParquetError::General(String::from("bad page")));
    assert_eq!(e.cause(), CubeErrorCauseType::Internal);
    assert!(e.message().contains("bad page"));
    assert_eq!(CubeError::user(String::from("no")).http_status(), 400);
    assert_eq!(CubeError::internal(String::from("no")).http_status(), 500);
}

#[test]
fn upload_is_confirmed_once_registered() {
    let (mut m, t) = store();
    let p = created(m.add_partition(t));
    let c = created(m.register_chunk(p, 10, 1, false));
    assert!(!m.chunk(c).unwrap().uploaded);
    assert!(m.mark_uploaded(c).is_ok());
    assert!(m.chunk(c).unwrap().uploaded);
    assert!(user_error(m.mark_uploaded(c + 1)));
}

#[test]
fn query_engine_errors_convert_both_ways() {
    let df = datafusion::error::DataFusionError::Plan(String::from("no such column"));
    let e = CubeError::from_datafusion(df);
    assert_eq!(e.cause(), CubeErrorCauseType::Internal);
    assert!(e.message().contains("no such column"));
    let back = CubeError::user(String::from("bad query")).to_datafusion();
    assert!(matches!(back, datafusion::error::DataFusionError::Execution(ref m) if m == "User: bad query"));
}

#[test]
fn object_store_failures_become_internal_errors() {
    let e = CubeError::from_object_store(s3::error::S3Error::HttpFail);
    assert_eq!(e.cause(), CubeErrorCauseType::Internal);
    assert_eq!(e.message(), "Http request returned a non 2** code");
}

#[test]
fn internal_error_reaches_query_engine_with_its_text() {
    let back = CubeError::internal(String::from("boom")).to_datafusion();
    assert!(matches!(back, datafusion::error::DataFusionError::Execution(ref m) if m == "Internal: boom"));
    let dep = datafusion::error::DataFusionError::Plan(String::from("x"));
    let text = dep.to_string();
    let back = CubeError::from_datafusion(dep).to_datafusion();
    assert!(matches!(back, datafusion::error::DataFusionError::Execution(ref m) if *m == format!("Internal: {}", text)));
}

#[test]
fn closed_event_queue_becomes_internal_error() {
    let ev = MetaStoreEvent { entity: EntityKind::Job, id: 1, op: Operation::Update };
    let v = tokio::sync::mpsc::error::SendError(ev);
    let e = CubeError::from_event_queue_send(v);
    assert_eq!(e.cause(), CubeErrorCauseType::Internal);
    assert_eq!(e.message(), "channel closed");
    let bytes: Vec<u8> = vec![0xff];
    let e = CubeError::from_utf8(String::from_utf8(bytes).unwrap_err());
    assert_eq!(e.message(), "invalid utf-8 sequence of 1 bytes from index 0");
}

#[test]
fn every_changed_record_is_announced() {
    let (mut m, t) = store();
    let p = created(m.add_partition(t));
    let c1 = created(m.register_chunk(p, 10, 1, true));
    let c2 = created(m.register_chunk(p, 10, 1, true));
    let a = created(m.register_node(0));
    let j = created(m.schedule(JobKind::Compaction, p));
    let g = granted(m.lease_next_job(a, all_caps(), 0));
    let s = m.subscribe();
    let out = vec![NewChunk { partition_id: p, size: 20, rows: 2 }];
    assert!(m.complete_job(j, a, g.token, 1, out, vec![c1, c2]).is_ok());
    let ev = |entity: EntityKind, id: usize, op: Operation| RecvOutcome::Event(MetaStoreEvent { entity, id, op });
    assert_eq!(m.recv(s), ev(EntityKind::Job, j, Operation::Update));
    assert_eq!(m.recv(s), ev(EntityKind::Chunk, c1, Operation::Delete));
    assert_eq!(m.recv(s), ev(EntityKind::Chunk, c2, Operation::Delete));
    assert_eq!(m.recv(s), ev(EntityKind::Chunk, 2, Operation::Insert));
    assert_eq!(m.recv(s), RecvOutcome::Empty);
    let q = created(m.split_partition(p));
    assert_eq!(m.recv(s), ev(EntityKind::Partition, p, Operation::Update));
    assert_eq!(m.recv(s), ev(EntityKind::Partition, q, Operation::Insert));
    assert!(m.expire_nodes(10).is_ok());
    assert_eq!(m.recv(s), RecvOutcome::Empty);
    let j2 = created(m.schedule(JobKind::Compaction, q));
    assert_eq!(m.recv(s), ev(EntityKind::Job, j2, Operation::Insert));
    granted(m.lease_next_job(a, all_caps(), 10));
    assert_eq!(m.recv(s), ev(EntityKind::Job, j2, Operation::Update));
    assert!(m.expire_nodes(100).is_ok());
    assert_eq!(m.recv(s), ev(EntityKind::Node, a, Operation::Update));
    assert_eq!(m.recv(s), ev(EntityKind::Job, j2, Operation::Update));
    assert_eq!(m.recv(s), RecvOutcome::Empty);
}
