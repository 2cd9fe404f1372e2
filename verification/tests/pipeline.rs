use store_migrate::errors::HubError;
use store_migrate::pipeline::{run, Migration, PipelineConfig, Record};
use store_migrate::progress::ProgressReporter;
use store_migrate::round_robin_worker;

fn rec(key: &[u8], value: &[u8]) -> Record {
    Record { key: key.to_vec(), value: value.to_vec() }
}

fn five_records() -> Vec<Record> {
    (1u8..=5)
        .map(|i| rec(&[0x00, i], &[i.wrapping_mul(11), i]))
        .collect()
}

fn sorted_pairs(records: &[Record]) -> Vec<(Vec<u8>, Vec<u8>)> {
    let mut pairs: Vec<(Vec<u8>, Vec<u8>)> =
        records.iter().map(|r| (r.key.clone(), r.value.clone())).collect();
    pairs.sort();
    pairs
}

#[test]
fn round_robin_cycles_over_workers() {
    assert_eq!(round_robin_worker(0, 8), 0);
    assert_eq!(round_robin_worker(7, 8), 7);
    assert_eq!(round_robin_worker(8, 8), 0);
    assert_eq!(round_robin_worker(13, 8), 5);
    assert_eq!(round_robin_worker(13, 1), 0);
}

#[test]
fn config_rejects_zero_knobs() {
    assert_eq!(PipelineConfig::new(0, 10, 10).unwrap_err(), HubError::Validation);
    assert_eq!(PipelineConfig::new(10, 0, 10).unwrap_err(), HubError::Validation);
    assert_eq!(PipelineConfig::new(10, 10, 0).unwrap_err(), HubError::Validation);
    let c = PipelineConfig::new(8, 2048, 500000).unwrap();
    assert_eq!(c.worker_count, 8);
    assert_eq!(c.queue_capacity, 2048);
    assert_eq!(c.progress_interval, 500000);
}

#[test]
fn migration_preserves_all_records_two_workers_capacity_one() {
    let source = five_records();
    let expected = sorted_pairs(&source);
    let config = PipelineConfig::new(2, 1, 1000).unwrap();
    let dest = run(config, source).expect("run succeeds");
    assert_eq!(dest.len(), 5);
    assert_eq!(sorted_pairs(&dest), expected);
}

#[test]
fn migration_is_independent_of_worker_count_and_capacity() {
    let expected = sorted_pairs(&five_records());
    for (workers, capacity) in [(1usize, 1usize), (1, 8), (2, 1), (3, 2), (8, 2048)] {
        let config = PipelineConfig::new(workers, capacity, 7).unwrap();
        let dest = run(config, five_records()).expect("run succeeds");
        assert_eq!(sorted_pairs(&dest), expected, "workers={workers} capacity={capacity}");
    }
}

#[test]
fn migration_of_empty_source_is_empty() {
    let config = PipelineConfig::new(4, 4, 1).unwrap();
    let dest = run(config, Vec::new()).expect("run succeeds");
    assert!(dest.is_empty());
}

#[test]
fn dispatch_blocks_at_capacity_and_worker_drains_fifo() {
    let config = PipelineConfig::new(2, 1, 1000).unwrap();
    let mut m = Migration::new(config);
    assert_eq!(m.next_worker(), 0);
    assert_eq!(m.enqueue(rec(b"a", b"1")).unwrap(), 0);
    assert_eq!(m.enqueue(rec(b"b", b"2")).unwrap(), 1);
    // Both queues are now at capacity: the control thread would block here.
    assert!(m.queue_full(0));
    assert!(m.queue_full(1));
    // A worker step frees one slot, after which dispatch can proceed.
    assert!(m.worker_write(0));
    assert!(!m.queue_full(0));
    assert_eq!(m.enqueue(rec(b"c", b"3")).unwrap(), 0);
    assert!(m.worker_write(0));
    assert!(m.worker_write(1));
    assert!(!m.worker_write(1), "queue 1 already drained");
    let dest = m.finish().expect("all queues drained");
    // Worker 0 wrote its queue in order; the cross-worker interleaving was
    // a..c here.
    let keys: Vec<&[u8]> = dest.iter().map(|r| r.key.as_slice()).collect();
    assert_eq!(keys, vec![b"a".as_slice(), b"c".as_slice(), b"b".as_slice()]);
}

#[test]
fn finish_refuses_undrained_queues() {
    let config = PipelineConfig::new(2, 4, 1000).unwrap();
    let mut m = Migration::new(config);
    m.enqueue(rec(b"a", b"1")).unwrap();
    assert_eq!(m.finish().unwrap_err(), HubError::Pipeline);
}

#[test]
fn write_failure_aborts_the_run() {
    let config = PipelineConfig::new(2, 4, 1000).unwrap();
    let mut m = Migration::new(config);
    m.enqueue(rec(b"a", b"1")).unwrap();
    m.enqueue(rec(b"b", b"2")).unwrap();
    assert!(m.worker_write(0));
    // Worker 1 reports a failed put: the run aborts.
    m.record_failure();
    // No further record is dispatched...
    assert_eq!(m.enqueue(rec(b"c", b"3")).unwrap_err(), HubError::StoreIo);
    // ...and the run never declares success, drained or not.
    assert_eq!(m.finish().unwrap_err(), HubError::StoreIo);
}

#[test]
fn progress_reporter_flags_every_interval() {
    let mut p = ProgressReporter::new(2);
    assert!(!p.record_one());
    assert!(p.record_one());
    assert!(!p.record_one());
    assert!(p.record_one());
    assert_eq!(p.processed, 4);

    let mut q = ProgressReporter::new(1);
    assert!(q.record_one());
    assert!(q.record_one());
}
