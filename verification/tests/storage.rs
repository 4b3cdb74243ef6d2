use loradb::config::StorageConfig;
use loradb::frames::{DownlinkFrame, Frame, UplinkFrame};
use loradb::lorawan::{ApplicationId, DataRate, DevEui};
use loradb::storage::{StorageEngine, WriteOutcome};

const MINUTE_MS: i64 = 60_000;
const NOW_MS: i64 = 1_700_000_000_000;

fn create_test_config(memtable_size_mb: usize, compaction_threshold: usize) -> StorageConfig {
    StorageConfig {
        data_dir: "/var/lib/loradb-test".to_string(),
        wal_sync_interval_ms: 1000,
        memtable_size_mb,
        compaction_threshold,
        enable_encryption: false,
        encryption_key: None,
    }
}

fn create_test_frame(dev_eui: &str, timestamp: i64) -> Frame {
    Frame::Uplink(UplinkFrame {
        dev_eui: DevEui::new(dev_eui.to_string()).unwrap(),
        application_id: ApplicationId::new("test-app".to_string()),
        device_name: Some("test-device".to_string()),
        received_at: timestamp,
        f_port: 1,
        f_cnt: 42,
        confirmed: false,
        adr: true,
        dr: DataRate::new_lora(125000, 7),
        frequency: 868100000,
        rx_info: vec![],
        decoded_payload: None,
        raw_payload: Some("aGVsbG8=".to_string()),
    })
}

fn counter_frame(dev_eui: &str, timestamp: i64, f_cnt: u32) -> Frame {
    Frame::Downlink(DownlinkFrame {
        dev_eui: DevEui::new(dev_eui.to_string()).unwrap(),
        application_id: ApplicationId::new("test-app".to_string()),
        queued_at: timestamp,
        f_port: 2,
        f_cnt,
        confirmed: false,
        raw_payload: None,
    })
}

#[test]
fn test_storage_engine_write_and_query() {
    let mut engine = StorageEngine::new(create_test_config(1, 3), vec![], 0, vec![]);
    let dev_eui = DevEui::new("0123456789ABCDEF".to_string()).unwrap();

    let frame = create_test_frame("0123456789ABCDEF", NOW_MS);
    engine.write(frame, 300, NOW_MS);

    let results = engine.query(&dev_eui, None, None);
    assert_eq!(results.len(), 1);
    assert_eq!(results[0].dev_eui(), &dev_eui);
}

#[test]
fn test_storage_engine_recovery() {
    let config = create_test_config(1, 3);
    let dev_eui = DevEui::new("0123456789ABCDEF".to_string()).unwrap();

    // Write frames, keeping what a restart finds on disk: the write-ahead
    // log (emptied by each flush) and the tables each outcome produced.
    let mut engine = StorageEngine::new(config, vec![], 0, vec![]);
    let mut log: Vec<i64> = vec![];
    let mut log_bytes: usize = 0;
    let mut tables: Vec<Vec<i64>> = vec![];
    for i in 0..3 {
        let t = NOW_MS + i * 1000;
        log.push(t);
        log_bytes += 600_000;
        match engine.write(create_test_frame("0123456789ABCDEF", t), 600_000, NOW_MS) {
            WriteOutcome::Buffered => {}
            WriteOutcome::Flushed => {
                tables.push(std::mem::take(&mut log));
                log_bytes = 0;
            }
            WriteOutcome::FlushedAndCompacted => {
                let mut all: Vec<i64> = tables.concat();
                all.append(&mut log);
                tables = vec![all];
                log_bytes = 0;
            }
        }
    }
    assert_eq!(log, vec![NOW_MS + 2000]);
    assert_eq!(tables, vec![vec![NOW_MS, NOW_MS + 1000]]);
    let before: Vec<i64> = engine.query(&dev_eui, None, None).iter().map(|f| f.timestamp()).collect();
    drop(engine);

    // Reopen on the log and the tables and verify recovery
    let frames = |ts: &Vec<i64>| -> Vec<Frame> {
        ts.iter().map(|t| create_test_frame("0123456789ABCDEF", *t)).collect()
    };
    let engine = StorageEngine::new(
        create_test_config(1, 3),
        frames(&log),
        log_bytes,
        tables.iter().map(frames).collect(),
    );
    let results = engine.query(&dev_eui, None, None);
    assert_eq!(results.len(), 3);
    let after: Vec<i64> = results.iter().map(|f| f.timestamp()).collect();
    assert_eq!(after, before);
}

#[test]
fn query_orders_by_time_and_keeps_ties_in_stored_order() {
    let mut engine = StorageEngine::new(create_test_config(1, 10), vec![], 0, vec![]);
    engine.write(counter_frame("0123456789ABCDEF", NOW_MS + 20, 1), 10, NOW_MS);
    engine.write(counter_frame("0123456789ABCDEF", NOW_MS + 10, 2), 10, NOW_MS);
    engine.write(counter_frame("0123456789ABCDEF", NOW_MS + 20, 3), 10, NOW_MS);
    engine.write(counter_frame("FEDCBA9876543210", NOW_MS + 5, 4), 10, NOW_MS);
    engine.write(counter_frame("0123456789ABCDEF", NOW_MS + 10, 5), 10, NOW_MS);
    let dev = DevEui::new("0123456789ABCDEF".to_string()).unwrap();
    let counts: Vec<u32> = engine
        .query(&dev, None, None)
        .iter()
        .map(|f| match f {
            Frame::Downlink(d) => d.f_cnt,
            _ => unreachable!(),
        })
        .collect();
    assert_eq!(counts, vec![2, 5, 1, 3]);
}

#[test]
fn query_bounds_are_inclusive() {
    let mut engine = StorageEngine::new(create_test_config(1, 10), vec![], 0, vec![]);
    for i in 0..5 {
        engine.write(create_test_frame("0123456789ABCDEF", NOW_MS + i * MINUTE_MS), 10, NOW_MS);
    }
    let dev = DevEui::new("0123456789ABCDEF".to_string()).unwrap();
    assert_eq!(engine.query(&dev, Some(NOW_MS + MINUTE_MS), Some(NOW_MS + 3 * MINUTE_MS)).len(), 3);
    assert_eq!(engine.query(&dev, Some(NOW_MS + 4 * MINUTE_MS), None).len(), 1);
    assert_eq!(engine.query(&dev, None, Some(NOW_MS - 1)).len(), 0);
}

#[test]
fn memtable_flushes_at_its_size_and_tables_compact_at_threshold() {
    // 1 MiB memtable: a write that brings it to the limit flushes it.
    let mut engine = StorageEngine::new(create_test_config(1, 3), vec![], 0, vec![]);
    let mib = 1_048_576;
    assert_eq!(engine.write(create_test_frame("0123456789ABCDEF", NOW_MS), mib - 1, NOW_MS), WriteOutcome::Buffered);
    assert_eq!(engine.write(create_test_frame("0123456789ABCDEF", NOW_MS + 1), 1, NOW_MS), WriteOutcome::Flushed);
    assert_eq!(engine.memtable().len(), 0);
    assert_eq!(engine.sstables().len(), 1);
    assert_eq!(engine.sstables()[0].len(), 2);
    assert_eq!(engine.write(create_test_frame("0123456789ABCDEF", NOW_MS + 2), mib, NOW_MS), WriteOutcome::Flushed);
    assert_eq!(engine.sstables().len(), 2);
    assert_eq!(
        engine.write(create_test_frame("0123456789ABCDEF", NOW_MS + 3), mib, NOW_MS),
        WriteOutcome::FlushedAndCompacted
    );
    assert_eq!(engine.sstables().len(), 1);
    assert_eq!(engine.sstables()[0].len(), 4);
    let dev = DevEui::new("0123456789ABCDEF".to_string()).unwrap();
    assert_eq!(engine.query(&dev, None, None).len(), 4);
}

#[test]
fn writes_register_devices() {
    let mut engine = StorageEngine::new(create_test_config(1, 3), vec![], 0, vec![]);
    engine.write(create_test_frame("0123456789ABCDEF", NOW_MS), 10, NOW_MS);
    engine.write(counter_frame("0123456789ABCDEF", NOW_MS + 1, 7), 10, NOW_MS + 5);
    engine.write(create_test_frame("FEDCBA9876543210", NOW_MS), 10, NOW_MS + 9);
    let devices = engine.device_registry().list_devices();
    assert_eq!(devices.len(), 2);
    assert_eq!(devices[0].dev_eui, "0123456789ABCDEF");
    // A downlink names no device, so the name is cleared on the update.
    assert_eq!(devices[0].device_name, None);
    assert_eq!(devices[0].application_id, "test-app");
    assert_eq!(devices[0].last_seen, Some(NOW_MS + 5));
    assert_eq!(devices[1].device_name, Some("test-device".to_string()));
}

#[test]
fn writes_flushes_and_merges_keep_every_answer() {
    // One flush at the second write, a merge at the fourth.
    let mut engine = StorageEngine::new(create_test_config(1, 2), vec![], 0, vec![]);
    let dev = DevEui::new("0123456789ABCDEF".to_string()).unwrap();
    let other = DevEui::new("FEDCBA9876543210".to_string()).unwrap();
    let mut outcomes = vec![];
    for (i, d) in ["0123456789ABCDEF", "FEDCBA9876543210", "0123456789ABCDEF", "0123456789ABCDEF"]
        .iter()
        .enumerate()
    {
        let before = engine.query(&dev, Some(NOW_MS + 1), None).len();
        outcomes.push(engine.write(counter_frame(d, NOW_MS + i as i64, i as u32), 600_000, NOW_MS));
        let after = engine.query(&dev, Some(NOW_MS + 1), None).len();
        let selected = *d == "0123456789ABCDEF" && i >= 1;
        assert_eq!(after, before + if selected { 1 } else { 0 });
    }
    assert_eq!(
        outcomes,
        vec![WriteOutcome::Buffered, WriteOutcome::Flushed, WriteOutcome::Buffered, WriteOutcome::FlushedAndCompacted]
    );
    assert_eq!(engine.sstables().len(), 1);
    assert_eq!(engine.query(&dev, None, None).len(), 3);
    assert_eq!(engine.query(&other, None, None).len(), 1);
}

#[test]
fn registering_a_device_stores_no_frame() {
    let mut engine = StorageEngine::new(create_test_config(1, 3), vec![], 0, vec![]);
    let frame = create_test_frame("0123456789ABCDEF", NOW_MS);
    engine.register_device(&frame, NOW_MS + 3);
    let devices = engine.device_registry().list_devices();
    assert_eq!(devices.len(), 1);
    assert_eq!(devices[0].dev_eui, "0123456789ABCDEF");
    assert_eq!(devices[0].last_seen, Some(NOW_MS + 3));
    assert_eq!(engine.memtable().len(), 0);
    let dev = DevEui::new("0123456789ABCDEF".to_string()).unwrap();
    assert_eq!(engine.query(&dev, None, None).len(), 0);
}
