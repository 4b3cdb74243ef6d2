use loradb::address::{IpAddress, SocketAddress};
use loradb::config::{Config, ConfigError, EnvKey, EnvVars, PathChecks};

const SECRET: &str = "this-is-a-very-secure-secret-key-for-testing";

fn env(pairs: &[(&str, &str)]) -> EnvVars {
    EnvVars {
        vars: pairs.iter().map(|(k, v)| (k.to_string(), v.to_string())).collect(),
    }
}

fn all_files() -> PathChecks {
    PathChecks { api_tls_cert_exists: true, api_tls_key_exists: true, mqtt_ca_cert_exists: true }
}

#[test]
fn defaults_apply_when_unset() {
    let c = Config::from_env_with_client_id(
        &env(&[("LORADB_API_JWT_SECRET", SECRET)]),
        "loradb-fixed".to_string(),
    )
    .unwrap();
    assert_eq!(c.mqtt.client_id, "loradb-fixed");
    assert_eq!(c.mqtt.chirpstack_broker, None);
    assert_eq!(c.mqtt.reconnect_interval_secs, 5);
    assert_eq!(c.mqtt.max_reconnect_interval_secs, 300);
    assert_eq!(c.storage.data_dir, "/var/lib/loradb");
    assert_eq!(c.storage.wal_sync_interval_ms, 1000);
    assert_eq!(c.storage.memtable_size_mb, 64);
    assert_eq!(c.storage.compaction_threshold, 10);
    assert!(!c.storage.enable_encryption);
    assert_eq!(c.api.bind_addr, SocketAddress { ip: IpAddress::V4(0, 0, 0, 0), port: 8080 });
    assert!(!c.api.enable_tls);
    assert_eq!(c.api.rate_limit_per_minute, 60);
    assert_eq!(c.api.jwt_secret, SECRET);
}

#[test]
fn values_are_read_from_the_environment() {
    let c = Config::from_env_with_client_id(
        &env(&[
            ("LORADB_MQTT_CHIRPSTACK_BROKER", "mqtt://broker:1883"),
            ("LORADB_MQTT_CLIENT_ID", "gateway-reader"),
            ("LORADB_MQTT_RECONNECT_INTERVAL_SECS", "+7"),
            ("LORADB_STORAGE_MEMTABLE_SIZE_MB", "0128"),
            ("LORADB_STORAGE_ENABLE_ENCRYPTION", "true"),
            ("LORADB_STORAGE_ENCRYPTION_KEY", "a2V5"),
            ("LORADB_API_ENABLE_TLS", "true"),
            ("LORADB_API_TLS_CERT", "/etc/cert.pem"),
            ("LORADB_API_TLS_KEY", "/etc/key.pem"),
            ("LORADB_API_BIND_ADDR", "127.0.0.1:9000"),
            ("LORADB_API_JWT_SECRET", SECRET),
            ("LORADB_API_RATE_LIMIT_PER_MINUTE", "4294967295"),
        ]),
        "unused".to_string(),
    )
    .unwrap();
    assert_eq!(c.mqtt.chirpstack_broker.as_deref(), Some("mqtt://broker:1883"));
    assert_eq!(c.mqtt.client_id, "gateway-reader");
    assert_eq!(c.mqtt.reconnect_interval_secs, 7);
    assert_eq!(c.storage.memtable_size_mb, 128);
    assert!(c.storage.enable_encryption);
    assert!(c.api.enable_tls);
    assert_eq!(c.api.tls_cert.as_deref(), Some("/etc/cert.pem"));
    assert_eq!(c.api.bind_addr, SocketAddress { ip: IpAddress::V4(127, 0, 0, 1), port: 9000 });
    assert_eq!(c.api.rate_limit_per_minute, u32::MAX);
}

#[test]
fn generated_client_id_has_uuid_shape() {
    let c = Config::from_env(&env(&[("LORADB_API_JWT_SECRET", SECRET)])).unwrap();
    let id = c.mqtt.client_id;
    assert!(id.starts_with("loradb-"));
    let u = &id["loradb-".len()..];
    assert_eq!(u.len(), 36);
    for (i, ch) in u.chars().enumerate() {
        if i == 8 || i == 13 || i == 18 || i == 23 {
            assert_eq!(ch, '-');
        } else {
            assert!(ch.is_ascii_digit() || ('a'..='f').contains(&ch));
        }
    }
    assert_eq!(u.as_bytes()[14], b'4');
    assert!(matches!(u.as_bytes()[19], b'8' | b'9' | b'a' | b'b'));
    let again = Config::from_env(&env(&[("LORADB_API_JWT_SECRET", SECRET)])).unwrap();
    assert_ne!(again.mqtt.client_id, id);
}

#[test]
fn malformed_numbers_and_flags_are_refused() {
    let invalid = "invalid digit found in string";
    let too_large = "number too large to fit in target type";
    let not_bool = "provided string was not `true` or `false`";
    let cases: Vec<(&str, &str, EnvKey, &str)> = vec![
        ("LORADB_MQTT_RECONNECT_INTERVAL_SECS", "-1", EnvKey::MqttReconnectIntervalSecs, invalid),
        (
            "LORADB_MQTT_MAX_RECONNECT_INTERVAL_SECS",
            "",
            EnvKey::MqttMaxReconnectIntervalSecs,
            "cannot parse integer from empty string",
        ),
        ("LORADB_STORAGE_WAL_SYNC_INTERVAL_MS", "18446744073709551616", EnvKey::StorageWalSyncIntervalMs, too_large),
        ("LORADB_STORAGE_WAL_SYNC_INTERVAL_MS", "99999999999999999999x", EnvKey::StorageWalSyncIntervalMs, too_large),
        ("LORADB_STORAGE_MEMTABLE_SIZE_MB", "64MB", EnvKey::StorageMemtableSizeMb, invalid),
        ("LORADB_STORAGE_COMPACTION_THRESHOLD", "+", EnvKey::StorageCompactionThreshold, invalid),
        ("LORADB_STORAGE_ENABLE_ENCRYPTION", "yes", EnvKey::StorageEnableEncryption, not_bool),
        ("LORADB_API_ENABLE_TLS", "TRUE", EnvKey::ApiEnableTls, not_bool),
        ("LORADB_API_BIND_ADDR", "abc", EnvKey::ApiBindAddr, "invalid socket address syntax"),
        ("LORADB_API_RATE_LIMIT_PER_MINUTE", "4294967296", EnvKey::ApiRateLimitPerMinute, too_large),
    ];
    for (key, value, expected, reason) in cases {
        let r = Config::from_env_with_client_id(
            &env(&[(key, value), ("LORADB_API_JWT_SECRET", SECRET)]),
            "id".to_string(),
        );
        match r {
            Err(ConfigError::InvalidValue(k, why)) => {
                assert_eq!(k, expected);
                assert_eq!(why, reason);
            }
            other => panic!("{}={} gave {:?}", key, value, other.err()),
        }
    }
}

#[test]
fn consistency_errors_in_order() {
    let r = Config::from_env_with_client_id(
        &env(&[("LORADB_STORAGE_ENABLE_ENCRYPTION", "true"), ("LORADB_API_JWT_SECRET", SECRET)]),
        "id".to_string(),
    );
    assert!(matches!(r, Err(ConfigError::EncryptionKeyMissing)));

    let r = Config::from_env_with_client_id(
        &env(&[("LORADB_API_ENABLE_TLS", "true"), ("LORADB_API_JWT_SECRET", SECRET)]),
        "id".to_string(),
    );
    assert!(matches!(r, Err(ConfigError::Missing(EnvKey::ApiTlsCert))));

    let r = Config::from_env_with_client_id(
        &env(&[("LORADB_API_ENABLE_TLS", "true"), ("LORADB_API_TLS_CERT", "c"), ("LORADB_API_JWT_SECRET", SECRET)]),
        "id".to_string(),
    );
    assert!(matches!(r, Err(ConfigError::Missing(EnvKey::ApiTlsKey))));

    let r = Config::from_env_with_client_id(&env(&[]), "id".to_string());
    assert!(matches!(r, Err(ConfigError::Missing(EnvKey::ApiJwtSecret))));

    let r = Config::from_env_with_client_id(&env(&[("LORADB_API_JWT_SECRET", "short")]), "id".to_string());
    assert!(matches!(r, Err(ConfigError::JwtSecretTooShort)));

    // 31 bytes is too short; 32 bytes (16 two-byte characters) is enough.
    let r = Config::from_env_with_client_id(
        &env(&[("LORADB_API_JWT_SECRET", "0123456789012345678901234567890")]),
        "id".to_string(),
    );
    assert!(matches!(r, Err(ConfigError::JwtSecretTooShort)));
    let r = Config::from_env_with_client_id(
        &env(&[("LORADB_API_JWT_SECRET", "éééééééééééééééé")]),
        "id".to_string(),
    );
    assert!(r.is_ok());

    // The first problem in reading order is the one reported.
    let r = Config::from_env_with_client_id(
        &env(&[("LORADB_MQTT_RECONNECT_INTERVAL_SECS", "x"), ("LORADB_API_JWT_SECRET", "short")]),
        "id".to_string(),
    );
    assert!(matches!(r, Err(ConfigError::InvalidValue(EnvKey::MqttReconnectIntervalSecs, _))));

    // A malformed bind address is reported after the TLS flag and before
    // the missing TLS certificate.
    let r = Config::from_env_with_client_id(
        &env(&[("LORADB_API_ENABLE_TLS", "true"), ("LORADB_API_BIND_ADDR", "0.0.0.0"), ("LORADB_API_JWT_SECRET", SECRET)]),
        "id".to_string(),
    );
    assert!(matches!(r, Err(ConfigError::InvalidValue(EnvKey::ApiBindAddr, _))));
    let r = Config::from_env_with_client_id(
        &env(&[("LORADB_API_ENABLE_TLS", "maybe"), ("LORADB_API_BIND_ADDR", "0.0.0.0")]),
        "id".to_string(),
    );
    assert!(matches!(r, Err(ConfigError::InvalidValue(EnvKey::ApiEnableTls, _))));
}

#[test]
fn first_setting_of_a_name_wins() {
    let c = Config::from_env_with_client_id(
        &env(&[
            ("LORADB_MQTT_USERNAME", "first"),
            ("LORADB_MQTT_USERNAME", "second"),
            ("LORADB_API_JWT_SECRET", SECRET),
        ]),
        "id".to_string(),
    )
    .unwrap();
    assert_eq!(c.mqtt.username.as_deref(), Some("first"));
}

fn base_config(pairs: &[(&str, &str)]) -> Config {
    let mut all: Vec<(&str, &str)> = pairs.to_vec();
    all.push(("LORADB_API_JWT_SECRET", SECRET));
    Config::from_env_with_client_id(&env(&all), "id".to_string()).unwrap()
}

#[test]
fn validate_requires_a_broker() {
    let c = base_config(&[]);
    assert!(matches!(c.validate(&all_files()), Err(ConfigError::NoBroker)));
    let c = base_config(&[("LORADB_MQTT_TTN_BROKER", "mqtt://ttn")]);
    assert!(c.validate(&all_files()).is_ok());
}

#[test]
fn validate_checks_tls_files() {
    let c = base_config(&[
        ("LORADB_MQTT_TTN_BROKER", "mqtt://ttn"),
        ("LORADB_API_ENABLE_TLS", "true"),
        ("LORADB_API_TLS_CERT", "/etc/cert.pem"),
        ("LORADB_API_TLS_KEY", "/etc/key.pem"),
    ]);
    let missing_cert = PathChecks { api_tls_cert_exists: false, ..all_files() };
    match c.validate(&missing_cert) {
        Err(ConfigError::TlsCertNotFound(p)) => assert_eq!(p, "/etc/cert.pem"),
        other => panic!("{:?}", other),
    }
    let missing_key = PathChecks { api_tls_key_exists: false, ..all_files() };
    match c.validate(&missing_key) {
        Err(ConfigError::TlsKeyNotFound(p)) => assert_eq!(p, "/etc/key.pem"),
        other => panic!("{:?}", other),
    }
    assert!(c.validate(&all_files()).is_ok());
}

#[test]
fn validate_checks_ca_cert() {
    let c = base_config(&[("LORADB_MQTT_TTN_BROKER", "mqtt://ttn"), ("LORADB_MQTT_CA_CERT", "/etc/ca.pem")]);
    let missing = PathChecks { mqtt_ca_cert_exists: false, ..all_files() };
    match c.validate(&missing) {
        Err(ConfigError::CaCertNotFound(p)) => assert_eq!(p, "/etc/ca.pem"),
        other => panic!("{:?}", other),
    }
}

#[test]
fn validate_checks_encryption_key_is_base64() {
    let good = base_config(&[
        ("LORADB_MQTT_TTN_BROKER", "mqtt://ttn"),
        ("LORADB_STORAGE_ENABLE_ENCRYPTION", "true"),
        ("LORADB_STORAGE_ENCRYPTION_KEY", "aGVsbG8="),
    ]);
    assert!(good.validate(&all_files()).is_ok());
    let bad = base_config(&[
        ("LORADB_MQTT_TTN_BROKER", "mqtt://ttn"),
        ("LORADB_STORAGE_ENABLE_ENCRYPTION", "true"),
        ("LORADB_STORAGE_ENCRYPTION_KEY", "not base64!"),
    ]);
    assert!(matches!(bad.validate(&all_files()), Err(ConfigError::InvalidEncryptionKey(_))));
    // Without encryption the key is not examined.
    let off = base_config(&[("LORADB_MQTT_TTN_BROKER", "mqtt://ttn"), ("LORADB_STORAGE_ENCRYPTION_KEY", "not base64!")]);
    assert!(off.validate(&all_files()).is_ok());
}

#[test]
fn key_names() {
    assert_eq!(EnvKey::ApiJwtSecret.name(), "LORADB_API_JWT_SECRET");
    assert_eq!(EnvKey::StorageDataDir.name(), "LORADB_STORAGE_DATA_DIR");
    let e = env(&[("LORADB_MQTT_PASSWORD", "p")]);
    assert_eq!(e.lookup(EnvKey::MqttPassword).map(|s| s.as_str()), Some("p"));
    assert_eq!(e.lookup(EnvKey::MqttUsername), None);
}
