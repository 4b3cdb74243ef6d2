use loradb::config::StorageConfig;
use loradb::decoded::JsonValue;
use loradb::error::LoraDbError;
use loradb::executor::{
    project_fields, FilterClause, FromClause, Query, QueryExecutor, QueryResult, SelectClause,
};
use loradb::frames::{DownlinkFrame, Frame, JoinAcceptFrame, JoinRequestFrame, UplinkFrame};
use loradb::lorawan::{ApplicationId, DataRate, DevEui};
use loradb::storage::StorageEngine;

const NOW_MS: i64 = 1_700_000_000_000;
const MINUTE_MS: i64 = 60_000;
const HOUR_MS: i64 = 60 * MINUTE_MS;

fn create_test_config() -> StorageConfig {
    StorageConfig {
        data_dir: "/var/lib/loradb-test".to_string(),
        wal_sync_interval_ms: 1000,
        memtable_size_mb: 1,
        compaction_threshold: 3,
        enable_encryption: false,
        encryption_key: None,
    }
}

fn create_test_uplink(dev_eui: &str, timestamp: i64) -> Frame {
    Frame::Uplink(UplinkFrame {
        dev_eui: DevEui::new(dev_eui.to_string()).unwrap(),
        application_id: ApplicationId::new("test-app".to_string()),
        device_name: Some("test-device".to_string()),
        received_at: timestamp,
        f_port: 1,
        f_cnt: 42,
        confirmed: false,
        adr: true,
        dr: DataRate::new_lora(125000, 7),
        frequency: 868100000,
        rx_info: vec![],
        decoded_payload: None,
        raw_payload: Some("aGVsbG8=".to_string()),
    })
}

fn dev(s: &str) -> DevEui {
    DevEui::new(s.to_string()).unwrap()
}

fn query(select: SelectClause, dev_eui: &str, filter: Option<FilterClause>) -> Query {
    Query::new(select, FromClause { dev_eui: dev_eui.to_string() }, filter)
}

#[test]
fn test_execute_query_all() {
    let mut storage = StorageEngine::new(create_test_config(), vec![], 0, vec![]);
    let executor = QueryExecutor::new();

    let dev_eui_str = "0123456789ABCDEF";
    for i in 0..3 {
        storage.write(create_test_uplink(dev_eui_str, NOW_MS + i * 1000), 300, NOW_MS);
    }

    let q = query(SelectClause::All, dev_eui_str, None);
    let frames = executor.execute(&storage, &q, NOW_MS).unwrap();
    let json: Vec<JsonValue> = frames.iter().map(|_| JsonValue::Null).collect();
    let result = QueryResult::from_frames(&q, json);
    assert_eq!(result.total_frames, 3);
    assert_eq!(result.dev_eui, dev_eui_str);
}

#[test]
fn test_execute_query_with_time_filter() {
    let mut storage = StorageEngine::new(create_test_config(), vec![], 0, vec![]);
    let executor = QueryExecutor::new();

    let dev_eui_str = "0123456789ABCDEF";
    let base_time = NOW_MS - 2 * HOUR_MS;
    for i in 0..5 {
        storage.write(create_test_uplink(dev_eui_str, base_time + i * 30 * MINUTE_MS), 300, NOW_MS);
    }

    // Query for last 1 hour (should get 2-3 frames)
    let q = query(SelectClause::All, dev_eui_str, Some(FilterClause::Last(HOUR_MS)));
    let frames = executor.execute(&storage, &q, NOW_MS).unwrap();
    assert!(frames.len() >= 2);
    assert_eq!(frames.len(), 3);
}

#[test]
fn test_execute_query_uplink_only() {
    let mut storage = StorageEngine::new(create_test_config(), vec![], 0, vec![]);
    let executor = QueryExecutor::new();

    let dev_eui_str = "0123456789ABCDEF";
    for i in 0..3 {
        storage.write(create_test_uplink(dev_eui_str, NOW_MS + i * 1000), 300, NOW_MS);
    }

    let q = query(SelectClause::Uplink, dev_eui_str, None);
    let frames = executor.execute(&storage, &q, NOW_MS).unwrap();
    assert_eq!(frames.len(), 3);
}

#[test]
fn test_execute_query_nonexistent_device() {
    let storage = StorageEngine::new(create_test_config(), vec![], 0, vec![]);
    let executor = QueryExecutor::new();

    let q = query(SelectClause::All, "FEDCBA9876543210", None);
    let frames = executor.execute(&storage, &q, NOW_MS).unwrap();
    assert_eq!(frames.len(), 0);
}

#[test]
fn invalid_device_fails_the_query() {
    let storage = StorageEngine::new(create_test_config(), vec![], 0, vec![]);
    let q = query(SelectClause::All, "not-a-dev-eui", None);
    match QueryExecutor::new().execute(&storage, &q, NOW_MS) {
        Err(e @ LoraDbError::QueryExecutionError(_)) => {
            assert_eq!(e.response_status().0, 500);
            assert_eq!(e.detail(), "Invalid DevEUI: not-a-dev-eui");
        }
        other => panic!("{:?}", other.map(|v| v.len())),
    }
}

#[test]
fn selections_keep_their_kinds() {
    let mut storage = StorageEngine::new(create_test_config(), vec![], 0, vec![]);
    let d = "0123456789ABCDEF";
    storage.write(create_test_uplink(d, NOW_MS), 10, NOW_MS);
    storage.write(
        Frame::Downlink(DownlinkFrame {
            dev_eui: dev(d),
            application_id: ApplicationId::new("a".to_string()),
            queued_at: NOW_MS + 1,
            f_port: 1,
            f_cnt: 1,
            confirmed: true,
            raw_payload: None,
        }),
        10,
        NOW_MS,
    );
    storage.write(
        Frame::JoinRequest(JoinRequestFrame { dev_eui: dev(d), join_eui: "0000000000000000".to_string(), received_at: NOW_MS + 2 }),
        10,
        NOW_MS,
    );
    storage.write(
        Frame::JoinAccept(JoinAcceptFrame { dev_eui: dev(d), application_id: ApplicationId::new("a".to_string()), accepted_at: NOW_MS + 3 }),
        10,
        NOW_MS,
    );
    let ex = QueryExecutor::new();
    let count = |sel: SelectClause| ex.execute(&storage, &query(sel, d, None), NOW_MS).unwrap().len();
    assert_eq!(count(SelectClause::All), 4);
    assert_eq!(count(SelectClause::Uplink), 1);
    assert_eq!(count(SelectClause::Downlink), 1);
    assert_eq!(count(SelectClause::Join), 2);
    assert_eq!(count(SelectClause::Fields(vec!["f_cnt".to_string()])), 4);
    let joins = ex.execute(&storage, &query(SelectClause::Join, d, None), NOW_MS).unwrap();
    assert!(matches!(joins[0], Frame::JoinRequest(_)));
    assert!(matches!(joins[1], Frame::JoinAccept(_)));
}

#[test]
fn time_range_of_last() {
    let q = query(SelectClause::All, "0123456789ABCDEF", Some(FilterClause::Last(HOUR_MS)));
    assert_eq!(q.time_range(NOW_MS), (Some(NOW_MS - HOUR_MS), None));
    let q = query(SelectClause::All, "0123456789ABCDEF", None);
    assert_eq!(q.time_range(NOW_MS), (None, None));
}

fn obj(members: Vec<(&str, JsonValue)>) -> JsonValue {
    JsonValue::Object(members.into_iter().map(|(k, v)| (k.to_string(), v)).collect())
}

#[test]
fn projection_keeps_named_members_in_order() {
    let frame = obj(vec![
        ("dev_eui", JsonValue::Str("0123456789ABCDEF".to_string())),
        ("f_port", JsonValue::Number("1".to_string())),
        ("f_cnt", JsonValue::Number("42".to_string())),
    ]);
    let sel = SelectClause::Fields(vec!["f_cnt".to_string(), "dev_eui".to_string(), "absent".to_string()]);
    let projected = project_fields(frame, &sel);
    assert_eq!(
        projected,
        obj(vec![
            ("dev_eui", JsonValue::Str("0123456789ABCDEF".to_string())),
            ("f_cnt", JsonValue::Number("42".to_string())),
        ])
    );
    // Projecting again changes nothing.
    let twice = project_fields(
        obj(vec![
            ("dev_eui", JsonValue::Str("0123456789ABCDEF".to_string())),
            ("f_cnt", JsonValue::Number("42".to_string())),
        ]),
        &sel,
    );
    assert_eq!(twice, projected);
    // Other selections and non-objects are left as they are.
    assert_eq!(project_fields(JsonValue::Bool(true), &sel), JsonValue::Bool(true));
    assert_eq!(
        project_fields(obj(vec![("a", JsonValue::Null)]), &SelectClause::All),
        obj(vec![("a", JsonValue::Null)])
    );
}

#[test]
fn query_result_projects_every_frame() {
    let q = query(SelectClause::Fields(vec!["a".to_string()]), "0123456789ABCDEF", None);
    let r = QueryResult::from_frames(
        &q,
        vec![obj(vec![("a", JsonValue::Null), ("b", JsonValue::Null)]), obj(vec![("b", JsonValue::Null)])],
    );
    assert_eq!(r.total_frames, 2);
    assert_eq!(r.frames, vec![obj(vec![("a", JsonValue::Null)]), obj(vec![])]);
}
