use loradb::config::StorageConfig;
use loradb::error::LoraDbError;
use loradb::frames::{Frame, UplinkFrame};
use loradb::executor::{FromClause, Query, QueryExecutor, SelectClause};
use loradb::handlers::{error_response, execute_query, get_device, health_check, list_devices};
use loradb::lorawan::{ApplicationId, DataRate, DevEui};
use loradb::registry::DeviceRegistry;
use loradb::storage::StorageEngine;

fn create_test_uplink(dev_eui: &str) -> Frame {
    Frame::Uplink(UplinkFrame {
        dev_eui: DevEui::new(dev_eui.to_string()).unwrap(),
        application_id: ApplicationId::new("test-app".to_string()),
        device_name: Some("test-device".to_string()),
        received_at: 1_700_000_000_000,
        f_port: 1,
        f_cnt: 42,
        confirmed: false,
        adr: true,
        dr: DataRate::new_lora(125000, 7),
        frequency: 868100000,
        rx_info: vec![],
        decoded_payload: None,
        raw_payload: Some("aGVsbG8=".to_string()),
    })
}

fn create_test_storage() -> StorageEngine {
    let config = StorageConfig {
        data_dir: "/var/lib/loradb-test".to_string(),
        wal_sync_interval_ms: 1000,
        memtable_size_mb: 1,
        compaction_threshold: 3,
        enable_encryption: false,
        encryption_key: None,
    };
    StorageEngine::new(config, vec![], 0, vec![])
}

#[test]
fn test_health_check() {
    let response = health_check("0.1.0");
    assert_eq!(response.status, "ok");
    assert_eq!(response.version, "0.1.0");
}

#[test]
fn test_list_devices() {
    let mut storage = create_test_storage();

    for i in 0..3 {
        let dev_eui = format!("012345678{:07X}", i);
        storage.write(create_test_uplink(&dev_eui), 300, 1_700_000_000_000 + i as i64);
    }

    let response = list_devices(storage.device_registry());
    assert_eq!(response.total_devices, 3);
    assert_eq!(response.devices[2].dev_eui, "0123456780000002");
    assert_eq!(response.devices[2].last_seen, Some(1_700_000_000_002));
}

#[test]
fn get_device_finds_known_devices() {
    let mut storage = create_test_storage();
    storage.write(create_test_uplink("0123456789ABCDEF"), 300, 5);
    let info = get_device(storage.device_registry(), "0123456789ABCDEF").ok().unwrap();
    assert_eq!(info.device_name.as_deref(), Some("test-device"));
    assert_eq!(info.application_id, "test-app");
    match get_device(storage.device_registry(), "FEDCBA9876543210") {
        Err(LoraDbError::InvalidDevEui(m)) => assert_eq!(m, "Device FEDCBA9876543210 not found"),
        _ => panic!("expected InvalidDevEui"),
    }
}

#[test]
fn empty_registry_lists_nothing() {
    let r = list_devices(&DeviceRegistry::new());
    assert_eq!(r.total_devices, 0);
    assert!(r.devices.is_empty());
}

#[test]
fn errors_map_to_statuses() {
    let cases = vec![
        (LoraDbError::QueryParseError("p".to_string()), 400, "QueryParseError"),
        (LoraDbError::QueryExecutionError("e".to_string()), 500, "QueryExecutionError"),
        (LoraDbError::AuthError("a".to_string()), 401, "AuthError"),
        (LoraDbError::InvalidDevEui("d".to_string()), 400, "InvalidDevEui"),
        (LoraDbError::ConfigError("c".to_string()), 500, "InternalError"),
        (LoraDbError::MqttParseError("m".to_string()), 500, "InternalError"),
        (LoraDbError::StorageError("s".to_string()), 500, "InternalError"),
    ];
    for (e, status, kind) in cases {
        let (s, body) = error_response(&e);
        assert_eq!(s, status);
        assert_eq!(body.error, kind);
        assert_eq!(&body.message, e.detail());
    }
}

#[test]
fn query_requests_map_their_failures() {
    let mut storage = create_test_storage();
    storage.write(create_test_uplink("0123456789ABCDEF"), 100, 1_700_000_000_000);
    let executor = QueryExecutor::new();
    let now = 1_700_000_100_000;

    let refused: Result<Query, String> = Err("unexpected token".to_string());
    match execute_query(&executor, &storage, &refused, now) {
        Err(e @ LoraDbError::QueryParseError(_)) => {
            assert_eq!(e.detail(), "unexpected token");
            assert_eq!(e.response_status(), (400, "QueryParseError"));
        }
        other => panic!("{:?}", other.map(|v| v.len())),
    }

    let bad_device = Ok(Query::new(SelectClause::All, FromClause { dev_eui: "nope".to_string() }, None));
    match execute_query(&executor, &storage, &bad_device, now) {
        Err(e @ LoraDbError::QueryExecutionError(_)) => assert_eq!(e.detail(), "Invalid DevEUI: nope"),
        other => panic!("{:?}", other.map(|v| v.len())),
    }

    let good = Ok(Query::new(SelectClause::All, FromClause { dev_eui: "0123456789ABCDEF".to_string() }, None));
    assert_eq!(execute_query(&executor, &storage, &good, now).unwrap().len(), 1);
}
