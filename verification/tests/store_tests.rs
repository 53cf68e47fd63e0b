use viddy::store::memory::MemoryStore;
use viddy::store::sqlite::SqliteStore;
use viddy::store::{Record, RuntimeConfig, Store, StoreError, Timestamp};
use viddy::types::ExecutionId;

fn sample_record(id: u32) -> Record {
    Record {
        id: ExecutionId(id),
        start_time: Timestamp { millis: 1700000000123 },
        stdout: b"hello\n".to_vec(),
        stderr: b"warning\n".to_vec(),
        end_time: Timestamp { millis: 1700000001456 },
        exit_code: 0,
        diff: Some((3, 1)),
        previous_id: if id > 0 { Some(ExecutionId(id - 1)) } else { None },
    }
}

fn assert_same_record(a: &Record, b: &Record) {
    assert_eq!(a.id, b.id);
    assert_eq!(a.start_time, b.start_time);
    assert_eq!(a.stdout, b.stdout);
    assert_eq!(a.stderr, b.stderr);
    assert_eq!(a.end_time, b.end_time);
    assert_eq!(a.exit_code, b.exit_code);
    assert_eq!(a.diff, b.diff);
    assert_eq!(a.previous_id, b.previous_id);
}

#[test]
fn memory_store_round_trip() {
    let mut store = MemoryStore::new();
    assert!(matches!(store.get_latest_id(), Ok(None)));
    let record = sample_record(0);
    store.add_record(record).unwrap();
    let got = store.get_record(ExecutionId(0)).unwrap().unwrap();
    assert_same_record(&got, &sample_record(0));
    assert!(store.get_record(ExecutionId(7)).unwrap().is_none());
}

#[test]
fn memory_store_latest_id_tracks_appends() {
    let mut store = MemoryStore::new();
    store.add_record(sample_record(0)).unwrap();
    assert_eq!(store.get_latest_id().unwrap(), Some(ExecutionId(0)));
    store.add_record(sample_record(1)).unwrap();
    assert_eq!(store.get_latest_id().unwrap(), Some(ExecutionId(1)));
    let records = store.get_records().unwrap();
    assert_eq!(records.len(), 2);
}

#[test]
fn memory_store_runtime_config() {
    let mut store = MemoryStore::new();
    assert!(store.get_runtime_config().unwrap().is_none());
    store
        .set_runtime_config(RuntimeConfig { interval: 2000, command: "ls -l".to_string() })
        .unwrap();
    store
        .set_runtime_config(RuntimeConfig { interval: 500, command: "date".to_string() })
        .unwrap();
    let cfg = store.get_runtime_config().unwrap().unwrap();
    assert_eq!(cfg.interval, 500);
    assert_eq!(cfg.command, "date");
}

#[test]
fn sqlite_store_round_trip() {
    let mut store = SqliteStore::new(":memory:", true).unwrap();
    let record = sample_record(0);
    store.add_record(record).unwrap();
    let got = store.get_record(ExecutionId(0)).unwrap().unwrap();
    // The durable backend keeps timestamps losslessly, to the millisecond.
    assert_same_record(&got, &sample_record(0));
    assert!(store.get_record(ExecutionId(9)).unwrap().is_none());
}

#[test]
fn sqlite_store_latest_id_and_replay() {
    let mut store = SqliteStore::new(":memory:", true).unwrap();
    assert!(store.get_latest_id().unwrap().is_none());
    store.add_record(sample_record(0)).unwrap();
    store.add_record(sample_record(1)).unwrap();
    assert_eq!(store.get_latest_id().unwrap(), Some(ExecutionId(1)));
    let mut records = store.get_records().unwrap();
    records.sort_by_key(|r| r.id.0);
    assert_eq!(records.len(), 2);
    assert_same_record(&records[0], &sample_record(0));
    assert_same_record(&records[1], &sample_record(1));
}

#[test]
fn sqlite_store_runtime_config_latest_wins() {
    let mut store = SqliteStore::new(":memory:", true).unwrap();
    assert!(store.get_runtime_config().unwrap().is_none());
    store
        .set_runtime_config(RuntimeConfig { interval: 2000, command: "ls".to_string() })
        .unwrap();
    store
        .set_runtime_config(RuntimeConfig { interval: 300, command: "uptime".to_string() })
        .unwrap();
    let cfg = store.get_runtime_config().unwrap().unwrap();
    assert_eq!(cfg.interval, 300);
    assert_eq!(cfg.command, "uptime");
}

#[test]
fn sqlite_store_duplicate_id_is_backend_error() {
    let mut store = SqliteStore::new(":memory:", true).unwrap();
    store.add_record(sample_record(0)).unwrap();
    let err = store.add_record(sample_record(0)).unwrap_err();
    let StoreError::Backend(message) = err;
    assert!(!message.is_empty());
}
