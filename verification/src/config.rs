//! Service configuration: read from a snapshot of the process environment,
//! with defaults, typed parsing and the consistency checks of the service.

use vstd::prelude::*;
use vstd::string::*;
use vstd::utf8::*;
use crate::address::{addr_model, parse_socket_address, socket_addr_value, IpAddress, SocketAddress};
use crate::text::{bounded_decimal, number_refusal, number_refusal_text, parse_bool, parse_unsigned};

verus! {

/// The environment variables the service reads.
#[derive(Clone, Copy, Debug, PartialEq, Eq, Structural)]
pub enum EnvKey {
    MqttChirpstackBroker,
    MqttTtnBroker,
    MqttClientId,
    MqttUsername,
    MqttPassword,
    MqttCaCert,
    MqttClientCert,
    MqttClientKey,
    MqttReconnectIntervalSecs,
    MqttMaxReconnectIntervalSecs,
    StorageDataDir,
    StorageWalSyncIntervalMs,
    StorageMemtableSizeMb,
    StorageCompactionThreshold,
    StorageEnableEncryption,
    StorageEncryptionKey,
    ApiEnableTls,
    ApiBindAddr,
    ApiTlsCert,
    ApiTlsKey,
    ApiJwtSecret,
    ApiRateLimitPerMinute,
}

pub open spec fn key_name(k: EnvKey) -> Seq<char> {
    match k {
        EnvKey::MqttChirpstackBroker => "LORADB_MQTT_CHIRPSTACK_BROKER"@,
        EnvKey::MqttTtnBroker => "LORADB_MQTT_TTN_BROKER"@,
        EnvKey::MqttClientId => "LORADB_MQTT_CLIENT_ID"@,
        EnvKey::MqttUsername => "LORADB_MQTT_USERNAME"@,
        EnvKey::MqttPassword => "LORADB_MQTT_PASSWORD"@,
        EnvKey::MqttCaCert => "LORADB_MQTT_CA_CERT"@,
        EnvKey::MqttClientCert => "LORADB_MQTT_CLIENT_CERT"@,
        EnvKey::MqttClientKey => "LORADB_MQTT_CLIENT_KEY"@,
        EnvKey::MqttReconnectIntervalSecs => "LORADB_MQTT_RECONNECT_INTERVAL_SECS"@,
        EnvKey::MqttMaxReconnectIntervalSecs => "LORADB_MQTT_MAX_RECONNECT_INTERVAL_SECS"@,
        EnvKey::StorageDataDir => "LORADB_STORAGE_DATA_DIR"@,
        EnvKey::StorageWalSyncIntervalMs => "LORADB_STORAGE_WAL_SYNC_INTERVAL_MS"@,
        EnvKey::StorageMemtableSizeMb => "LORADB_STORAGE_MEMTABLE_SIZE_MB"@,
        EnvKey::StorageCompactionThreshold => "LORADB_STORAGE_COMPACTION_THRESHOLD"@,
        EnvKey::StorageEnableEncryption => "LORADB_STORAGE_ENABLE_ENCRYPTION"@,
        EnvKey::StorageEncryptionKey => "LORADB_STORAGE_ENCRYPTION_KEY"@,
        EnvKey::ApiEnableTls => "LORADB_API_ENABLE_TLS"@,
        EnvKey::ApiBindAddr => "LORADB_API_BIND_ADDR"@,
        EnvKey::ApiTlsCert => "LORADB_API_TLS_CERT"@,
        EnvKey::ApiTlsKey => "LORADB_API_TLS_KEY"@,
        EnvKey::ApiJwtSecret => "LORADB_API_JWT_SECRET"@,
        EnvKey::ApiRateLimitPerMinute => "LORADB_API_RATE_LIMIT_PER_MINUTE"@,
    }
}

impl EnvKey {
    /// The variable's name in the environment.
    pub fn name(&self) -> (r: &'static str)
        ensures
            r@ == key_name(*self),
    {
        match self {
            EnvKey::MqttChirpstackBroker => "LORADB_MQTT_CHIRPSTACK_BROKER",
            EnvKey::MqttTtnBroker => "LORADB_MQTT_TTN_BROKER",
            EnvKey::MqttClientId => "LORADB_MQTT_CLIENT_ID",
            EnvKey::MqttUsername => "LORADB_MQTT_USERNAME",
            EnvKey::MqttPassword => "LORADB_MQTT_PASSWORD",
            EnvKey::MqttCaCert => "LORADB_MQTT_CA_CERT",
            EnvKey::MqttClientCert => "LORADB_MQTT_CLIENT_CERT",
            EnvKey::MqttClientKey => "LORADB_MQTT_CLIENT_KEY",
            EnvKey::MqttReconnectIntervalSecs => "LORADB_MQTT_RECONNECT_INTERVAL_SECS",
            EnvKey::MqttMaxReconnectIntervalSecs => "LORADB_MQTT_MAX_RECONNECT_INTERVAL_SECS",
            EnvKey::StorageDataDir => "LORADB_STORAGE_DATA_DIR",
            EnvKey::StorageWalSyncIntervalMs => "LORADB_STORAGE_WAL_SYNC_INTERVAL_MS",
            EnvKey::StorageMemtableSizeMb => "LORADB_STORAGE_MEMTABLE_SIZE_MB",
            EnvKey::StorageCompactionThreshold => "LORADB_STORAGE_COMPACTION_THRESHOLD",
            EnvKey::StorageEnableEncryption => "LORADB_STORAGE_ENABLE_ENCRYPTION",
            EnvKey::StorageEncryptionKey => "LORADB_STORAGE_ENCRYPTION_KEY",
            EnvKey::ApiEnableTls => "LORADB_API_ENABLE_TLS",
            EnvKey::ApiBindAddr => "LORADB_API_BIND_ADDR",
            EnvKey::ApiTlsCert => "LORADB_API_TLS_CERT",
            EnvKey::ApiTlsKey => "LORADB_API_TLS_KEY",
            EnvKey::ApiJwtSecret => "LORADB_API_JWT_SECRET",
            EnvKey::ApiRateLimitPerMinute => "LORADB_API_RATE_LIMIT_PER_MINUTE",
        }
    }
}

/// A snapshot of the environment: (name, value) pairs whose values are text.
pub struct EnvVars {
    pub vars: Vec<(String, String)>,
}

/// The value of the first variable named `name`, as `env::var` reads it.
pub open spec fn env_lookup(vars: Seq<(String, String)>, name: Seq<char>) -> Option<Seq<char>>
    decreases vars.len(),
{
    if vars.len() == 0 {
        None
    } else if vars[0].0@ == name {
        Some(vars[0].1@)
    } else {
        env_lookup(vars.drop_first(), name)
    }
}

pub open spec fn env_get(vars: Seq<(String, String)>, k: EnvKey) -> Option<Seq<char>> {
    env_lookup(vars, key_name(k))
}

pub open spec fn opt_view(o: Option<String>) -> Option<Seq<char>> {
    match o {
        Some(s) => Some(s@),
        None => None,
    }
}

/// An unsigned setting: the default when unset, `None` when set but not a
/// number no larger than `max`.
pub open spec fn num_setting(vars: Seq<(String, String)>, k: EnvKey, default: nat, max: nat) -> Option<nat> {
    match env_get(vars, k) {
        None => Some(default),
        Some(t) => bounded_decimal(t, max),
    }
}

/// A boolean setting: the default when unset, `None` when set but neither
/// `true` nor `false`.
pub open spec fn flag_setting(vars: Seq<(String, String)>, k: EnvKey, default: bool) -> Option<bool> {
    match env_get(vars, k) {
        None => Some(default),
        Some(t) => if t == "true"@ {
            Some(true)
        } else if t == "false"@ {
            Some(false)
        } else {
            None
        },
    }
}

impl EnvVars {
    pub fn lookup(&self, k: EnvKey) -> (r: Option<&String>)
        ensures
            match r {
                Some(v) => env_get(self.vars@, k) == Some(v@),
                None => env_get(self.vars@, k) is None,
            },
    {
        let name = k.name().to_owned();
        let mut i: usize = 0;
        assert(self.vars@.skip(0) =~= self.vars@);
        while i < self.vars.len()
            invariant
                0 <= i <= self.vars@.len(),
                name@ == key_name(k),
                env_get(self.vars@, k) == env_lookup(self.vars@.skip(i as int), name@),
            decreases self.vars@.len() - i,
        {
            let ghost rest = self.vars@.skip(i as int);
            assert(rest.drop_first() =~= self.vars@.skip(i + 1));
            assert(rest[0] == self.vars@[i as int]);
            if self.vars[i].0 == name {
                return Some(&self.vars[i].1);
            }
            i = i + 1;
        }
        None
    }

    fn lookup_owned(&self, k: EnvKey) -> (r: Option<String>)
        ensures
            opt_view(r) == env_get(self.vars@, k),
    {
        match self.lookup(k) {
            Some(v) => Some(v.clone()),
            None => None,
        }
    }

    fn number(&self, k: EnvKey, default: u64, max: u64) -> (r: Result<u64, ConfigError>)
        requires
            default <= max,
        ensures
            match num_setting(self.vars@, k, default as nat, max as nat) {
                Some(v) => r == Ok::<u64, ConfigError>(v as u64),
                None => r matches Err(e) && e@ == number_fault(self.vars@, k, max as nat),
            },
    {
        match self.lookup(k) {
            None => Ok(default),
            Some(t) => match parse_unsigned(t.as_str(), max) {
                Some(v) => Ok(v),
                None => Err(ConfigError::InvalidValue(k, number_refusal_text(t.as_str(), max))),
            },
        }
    }

    fn flag(&self, k: EnvKey, default: bool) -> (r: Result<bool, ConfigError>)
        ensures
            match flag_setting(self.vars@, k, default) {
                Some(b) => r == Ok::<bool, ConfigError>(b),
                None => r matches Err(e) && e@ == ConfigFault::InvalidValue(k, bool_refusal()),
            },
    {
        match self.lookup(k) {
            None => Ok(default),
            Some(t) => match parse_bool(t.as_str()) {
                Some(b) => Ok(b),
                None => Err(
                    ConfigError::InvalidValue(k, String::from_str("provided string was not `true` or `false`")),
                ),
            },
        }
    }
}

/// Why a configuration was refused.
#[derive(Debug)]
pub enum ConfigError {
    /// The variable is set, but not to a value of its type; the reason
    /// reading it failed.
    InvalidValue(EnvKey, String),
    /// A variable that must be set is not.
    Missing(EnvKey),
    /// Encryption is enabled without an encryption key.
    EncryptionKeyMissing,
    /// The JWT secret is shorter than 32 bytes.
    JwtSecretTooShort,
    /// Neither MQTT broker is configured.
    NoBroker,
    /// TLS is enabled without a certificate path.
    TlsCertNotSet,
    /// The TLS certificate path names no file.
    TlsCertNotFound(String),
    /// TLS is enabled without a key path.
    TlsKeyNotSet,
    /// The TLS key path names no file.
    TlsKeyNotFound(String),
    /// The MQTT CA certificate path names no file.
    CaCertNotFound(String),
    /// The encryption key is not standard base64; the decoder's reason.
    InvalidEncryptionKey(String),
}

/// What a `ConfigError` says, with its texts as character sequences.
pub enum ConfigFault {
    InvalidValue(EnvKey, Seq<char>),
    Missing(EnvKey),
    EncryptionKeyMissing,
    JwtSecretTooShort,
    NoBroker,
    TlsCertNotSet,
    TlsCertNotFound(Seq<char>),
    TlsKeyNotSet,
    TlsKeyNotFound(Seq<char>),
    CaCertNotFound(Seq<char>),
    InvalidEncryptionKey(Seq<char>),
}

impl View for ConfigError {
    type V = ConfigFault;

    open spec fn view(&self) -> ConfigFault {
        match self {
            ConfigError::InvalidValue(k, r) => ConfigFault::InvalidValue(*k, r@),
            ConfigError::Missing(k) => ConfigFault::Missing(*k),
            ConfigError::EncryptionKeyMissing => ConfigFault::EncryptionKeyMissing,
            ConfigError::JwtSecretTooShort => ConfigFault::JwtSecretTooShort,
            ConfigError::NoBroker => ConfigFault::NoBroker,
            ConfigError::TlsCertNotSet => ConfigFault::TlsCertNotSet,
            ConfigError::TlsCertNotFound(p) => ConfigFault::TlsCertNotFound(p@),
            ConfigError::TlsKeyNotSet => ConfigFault::TlsKeyNotSet,
            ConfigError::TlsKeyNotFound(p) => ConfigFault::TlsKeyNotFound(p@),
            ConfigError::CaCertNotFound(p) => ConfigFault::CaCertNotFound(p@),
            ConfigError::InvalidEncryptionKey(r) => ConfigFault::InvalidEncryptionKey(r@),
        }
    }
}

/// The reason `bool`'s `FromStr` gives for a text other than `true` and `false`.
pub open spec fn bool_refusal() -> Seq<char> {
    "provided string was not `true` or `false`"@
}

/// The reason `SocketAddr`'s `FromStr` gives for a text it cannot read.
pub open spec fn addr_refusal() -> Seq<char> {
    "invalid socket address syntax"@
}

/// The error for a numeric setting `k` whose text is no number up to `max`.
pub open spec fn number_fault(vars: Seq<(String, String)>, k: EnvKey, max: nat) -> ConfigFault {
    ConfigFault::InvalidValue(k, number_refusal(env_get(vars, k).unwrap(), max))
}

/// The bind address the environment gives: its family (`true` for IPv6),
/// parts, scope id and port; the IPv4 address `0.0.0.0:8080` when unset;
/// `None` when set to no socket address.
pub open spec fn bind_addr_setting(vars: Seq<(String, String)>) -> Option<(bool, Seq<nat>, nat, nat)> {
    match env_get(vars, EnvKey::ApiBindAddr) {
        None => Some((false, seq![0nat, 0nat, 0nat, 0nat], 0nat, 8080nat)),
        Some(t) => socket_addr_value(t),
    }
}

pub struct MqttConfig {
    pub chirpstack_broker: Option<String>,
    pub ttn_broker: Option<String>,
    pub client_id: String,
    pub username: Option<String>,
    pub password: Option<String>,
    pub tls_ca_cert: Option<String>,
    pub tls_client_cert: Option<String>,
    pub tls_client_key: Option<String>,
    pub reconnect_interval_secs: u64,
    pub max_reconnect_interval_secs: u64,
}

pub struct StorageConfig {
    pub data_dir: String,
    pub wal_sync_interval_ms: u64,
    pub memtable_size_mb: usize,
    pub compaction_threshold: usize,
    pub enable_encryption: bool,
    pub encryption_key: Option<String>,
}

pub struct ApiConfig {
    pub bind_addr: SocketAddress,
    pub enable_tls: bool,
    pub tls_cert: Option<String>,
    pub tls_key: Option<String>,
    pub jwt_secret: String,
    pub rate_limit_per_minute: u32,
}

pub struct Config {
    pub mqtt: MqttConfig,
    pub storage: StorageConfig,
    pub api: ApiConfig,
}

pub open spec fn default_data_dir() -> Seq<char> {
    "/var/lib/loradb"@
}

pub open spec fn or_default(o: Option<Seq<char>>, d: Seq<char>) -> Seq<char> {
    match o {
        Some(v) => v,
        None => d,
    }
}

/// The first reason, in the order the settings are read, for which the
/// environment gives no configuration.
pub open spec fn config_error(vars: Seq<(String, String)>) -> Option<ConfigFault> {
    let tls = flag_setting(vars, EnvKey::ApiEnableTls, false);
    if num_setting(vars, EnvKey::MqttReconnectIntervalSecs, 5, u64::MAX as nat) is None {
        Some(number_fault(vars, EnvKey::MqttReconnectIntervalSecs, u64::MAX as nat))
    } else if num_setting(vars, EnvKey::MqttMaxReconnectIntervalSecs, 300, u64::MAX as nat) is None {
        Some(number_fault(vars, EnvKey::MqttMaxReconnectIntervalSecs, u64::MAX as nat))
    } else if num_setting(vars, EnvKey::StorageWalSyncIntervalMs, 1000, u64::MAX as nat) is None {
        Some(number_fault(vars, EnvKey::StorageWalSyncIntervalMs, u64::MAX as nat))
    } else if num_setting(vars, EnvKey::StorageMemtableSizeMb, 64, usize::MAX as nat) is None {
        Some(number_fault(vars, EnvKey::StorageMemtableSizeMb, usize::MAX as nat))
    } else if num_setting(vars, EnvKey::StorageCompactionThreshold, 10, usize::MAX as nat) is None {
        Some(number_fault(vars, EnvKey::StorageCompactionThreshold, usize::MAX as nat))
    } else if flag_setting(vars, EnvKey::StorageEnableEncryption, false) is None {
        Some(ConfigFault::InvalidValue(EnvKey::StorageEnableEncryption, bool_refusal()))
    } else if flag_setting(vars, EnvKey::StorageEnableEncryption, false) == Some(true)
        && env_get(vars, EnvKey::StorageEncryptionKey) is None {
        Some(ConfigFault::EncryptionKeyMissing)
    } else if tls is None {
        Some(ConfigFault::InvalidValue(EnvKey::ApiEnableTls, bool_refusal()))
    } else if bind_addr_setting(vars) is None {
        Some(ConfigFault::InvalidValue(EnvKey::ApiBindAddr, addr_refusal()))
    } else if tls == Some(true) && env_get(vars, EnvKey::ApiTlsCert) is None {
        Some(ConfigFault::Missing(EnvKey::ApiTlsCert))
    } else if tls == Some(true) && env_get(vars, EnvKey::ApiTlsKey) is None {
        Some(ConfigFault::Missing(EnvKey::ApiTlsKey))
    } else if env_get(vars, EnvKey::ApiJwtSecret) is None {
        Some(ConfigFault::Missing(EnvKey::ApiJwtSecret))
    } else if num_setting(vars, EnvKey::ApiRateLimitPerMinute, 60, u32::MAX as nat) is None {
        Some(number_fault(vars, EnvKey::ApiRateLimitPerMinute, u32::MAX as nat))
    } else if encode_utf8(env_get(vars, EnvKey::ApiJwtSecret).unwrap()).len() < 32 {
        Some(ConfigFault::JwtSecretTooShort)
    } else {
        None
    }
}

/// `c` holds what the environment says, with `client_id` standing for the
/// client id when none is set.
pub open spec fn config_from_env(c: Config, vars: Seq<(String, String)>, client_id: Seq<char>) -> bool {
    &&& opt_view(c.mqtt.chirpstack_broker) == env_get(vars, EnvKey::MqttChirpstackBroker)
    &&& opt_view(c.mqtt.ttn_broker) == env_get(vars, EnvKey::MqttTtnBroker)
    &&& c.mqtt.client_id@ == or_default(env_get(vars, EnvKey::MqttClientId), client_id)
    &&& opt_view(c.mqtt.username) == env_get(vars, EnvKey::MqttUsername)
    &&& opt_view(c.mqtt.password) == env_get(vars, EnvKey::MqttPassword)
    &&& opt_view(c.mqtt.tls_ca_cert) == env_get(vars, EnvKey::MqttCaCert)
    &&& opt_view(c.mqtt.tls_client_cert) == env_get(vars, EnvKey::MqttClientCert)
    &&& opt_view(c.mqtt.tls_client_key) == env_get(vars, EnvKey::MqttClientKey)
    &&& Some(c.mqtt.reconnect_interval_secs as nat) == num_setting(
        vars,
        EnvKey::MqttReconnectIntervalSecs,
        5,
        u64::MAX as nat,
    )
    &&& Some(c.mqtt.max_reconnect_interval_secs as nat) == num_setting(
        vars,
        EnvKey::MqttMaxReconnectIntervalSecs,
        300,
        u64::MAX as nat,
    )
    &&& c.storage.data_dir@ == or_default(env_get(vars, EnvKey::StorageDataDir), default_data_dir())
    &&& Some(c.storage.wal_sync_interval_ms as nat) == num_setting(
        vars,
        EnvKey::StorageWalSyncIntervalMs,
        1000,
        u64::MAX as nat,
    )
    &&& Some(c.storage.memtable_size_mb as nat) == num_setting(
        vars,
        EnvKey::StorageMemtableSizeMb,
        64,
        usize::MAX as nat,
    )
    &&& Some(c.storage.compaction_threshold as nat) == num_setting(
        vars,
        EnvKey::StorageCompactionThreshold,
        10,
        usize::MAX as nat,
    )
    &&& Some(c.storage.enable_encryption) == flag_setting(vars, EnvKey::StorageEnableEncryption, false)
    &&& opt_view(c.storage.encryption_key) == env_get(vars, EnvKey::StorageEncryptionKey)
    &&& bind_addr_setting(vars) == Some(addr_model(c.api.bind_addr))
    &&& Some(c.api.enable_tls) == flag_setting(vars, EnvKey::ApiEnableTls, false)
    &&& opt_view(c.api.tls_cert) == env_get(vars, EnvKey::ApiTlsCert)
    &&& opt_view(c.api.tls_key) == env_get(vars, EnvKey::ApiTlsKey)
    &&& Some(c.api.jwt_secret@) == env_get(vars, EnvKey::ApiJwtSecret)
    &&& Some(c.api.rate_limit_per_minute as nat) == num_setting(
        vars,
        EnvKey::ApiRateLimitPerMinute,
        60,
        u32::MAX as nat,
    )
}

/// The shape of a generated MQTT client id: `loradb-` and a hyphenated
/// lowercase UUID.
pub open spec fn generated_client_id(id: Seq<char>) -> bool {
    exists|u: Seq<char>| id == "loradb-"@ + u && uuid_text_shape(u)
}

pub open spec fn is_lower_hex(c: char) -> bool {
    ('0' <= c && c <= '9') || ('a' <= c && c <= 'f')
}

/// The text of a version 4 (random) UUID in hyphenated lowercase form:
/// version digit `4`, and a variant digit of `8`, `9`, `a` or `b`.
pub open spec fn uuid_text_shape(u: Seq<char>) -> bool {
    &&& u.len() == 36
    &&& forall|i: int|
        0 <= i < 36 ==> (if i == 8 || i == 13 || i == 18 || i == 23 {
            #[trigger] u[i] == '-'
        } else {
            is_lower_hex(u[i])
        })
    &&& u[14] == '4'
    &&& (u[19] == '8' || u[19] == '9' || u[19] == 'a' || u[19] == 'b')
}

/// `uuid::Uuid::new_v4`, formatted with `Display`: a random version 4 UUID
/// as hyphenated lowercase hex. Claimed: 36 characters, hyphens at
/// positions 8, 13, 18 and 23, lowercase hex digits elsewhere, the version
/// digit `4` at position 14 and a variant digit of `8`, `9`, `a` or `b` at
/// position 19 (`new_v4` masks those bits in). The rest is random, so
/// nothing more is stated of it.
#[verifier::external_body]
fn random_uuid_text() -> (r: String)
    ensures
        uuid_text_shape(r@),
{
    uuid::Uuid::new_v4().to_string()
}

impl Config {
    /// Builds the configuration from an environment snapshot, using
    /// `fallback_client_id` when `LORADB_MQTT_CLIENT_ID` is unset.
    pub fn from_env_with_client_id(env: &EnvVars, fallback_client_id: String) -> (r: Result<
        Config,
        ConfigError,
    >)
        ensures
            match r {
                Ok(c) => config_error(env.vars@) is None && config_from_env(
                    c,
                    env.vars@,
                    fallback_client_id@,
                ),
                Err(e) => config_error(env.vars@) == Some(e@),
            },
    {
        let reconnect_interval_secs = match env.number(EnvKey::MqttReconnectIntervalSecs, 5, u64::MAX) {
            Ok(v) => v,
            Err(e) => return Err(e),
        };
        let max_reconnect_interval_secs = match env.number(
            EnvKey::MqttMaxReconnectIntervalSecs,
            300,
            u64::MAX,
        ) {
            Ok(v) => v,
            Err(e) => return Err(e),
        };
        let client_id = match env.lookup_owned(EnvKey::MqttClientId) {
            Some(v) => v,
            None => fallback_client_id,
        };
        let mqtt = MqttConfig {
            chirpstack_broker: env.lookup_owned(EnvKey::MqttChirpstackBroker),
            ttn_broker: env.lookup_owned(EnvKey::MqttTtnBroker),
            client_id,
            username: env.lookup_owned(EnvKey::MqttUsername),
            password: env.lookup_owned(EnvKey::MqttPassword),
            tls_ca_cert: env.lookup_owned(EnvKey::MqttCaCert),
            tls_client_cert: env.lookup_owned(EnvKey::MqttClientCert),
            tls_client_key: env.lookup_owned(EnvKey::MqttClientKey),
            reconnect_interval_secs,
            max_reconnect_interval_secs,
        };

        let data_dir = match env.lookup_owned(EnvKey::StorageDataDir) {
            Some(v) => v,
            None => String::from_str("/var/lib/loradb"),
        };
        let wal_sync_interval_ms = match env.number(EnvKey::StorageWalSyncIntervalMs, 1000, u64::MAX) {
            Ok(v) => v,
            Err(e) => return Err(e),
        };
        let memtable_size_mb = match env.number(
            EnvKey::StorageMemtableSizeMb,
            64,
            usize::MAX as u64,
        ) {
            Ok(v) => v as usize,
            Err(e) => return Err(e),
        };
        let compaction_threshold = match env.number(
            EnvKey::StorageCompactionThreshold,
            10,
            usize::MAX as u64,
        ) {
            Ok(v) => v as usize,
            Err(e) => return Err(e),
        };
        let enable_encryption = match env.flag(EnvKey::StorageEnableEncryption, false) {
            Ok(b) => b,
            Err(e) => return Err(e),
        };
        let storage = StorageConfig {
            data_dir,
            wal_sync_interval_ms,
            memtable_size_mb,
            compaction_threshold,
            enable_encryption,
            encryption_key: env.lookup_owned(EnvKey::StorageEncryptionKey),
        };
        if storage.enable_encryption && storage.encryption_key.is_none() {
            return Err(ConfigError::EncryptionKeyMissing);
        }

        let enable_tls = match env.flag(EnvKey::ApiEnableTls, false) {
            Ok(b) => b,
            Err(e) => return Err(e),
        };
        let bind_addr = match env.lookup(EnvKey::ApiBindAddr) {
            Some(t) => match parse_socket_address(t.as_str()) {
                Some(a) => a,
                None => {
                    return Err(
                        ConfigError::InvalidValue(
                            EnvKey::ApiBindAddr,
                            String::from_str("invalid socket address syntax"),
                        ),
                    )
                },
            },
            None => SocketAddress { ip: IpAddress::V4(0, 0, 0, 0), port: 8080 },
        };
        let tls_cert = env.lookup_owned(EnvKey::ApiTlsCert);
        if enable_tls && tls_cert.is_none() {
            return Err(ConfigError::Missing(EnvKey::ApiTlsCert));
        }
        let tls_key = env.lookup_owned(EnvKey::ApiTlsKey);
        if enable_tls && tls_key.is_none() {
            return Err(ConfigError::Missing(EnvKey::ApiTlsKey));
        }
        let jwt_secret = match env.lookup_owned(EnvKey::ApiJwtSecret) {
            Some(v) => v,
            None => return Err(ConfigError::Missing(EnvKey::ApiJwtSecret)),
        };
        let rate_limit_per_minute = match env.number(
            EnvKey::ApiRateLimitPerMinute,
            60,
            u32::MAX as u64,
        ) {
            Ok(v) => v as u32,
            Err(e) => return Err(e),
        };
        let api = ApiConfig {
            bind_addr,
            enable_tls,
            tls_cert,
            tls_key,
            jwt_secret,
            rate_limit_per_minute,
        };
        let secret_len = api.jwt_secret.as_str().as_bytes().len();
        assert(secret_len == encode_utf8(api.jwt_secret@).len());
        if secret_len < 32 {
            return Err(ConfigError::JwtSecretTooShort);
        }
        Ok(Config { mqtt, storage, api })
    }

    /// Builds the configuration from an environment snapshot. When
    /// `LORADB_MQTT_CLIENT_ID` is unset, the client id is `loradb-` followed by
    /// a fresh random UUID.
    pub fn from_env(env: &EnvVars) -> (r: Result<Config, ConfigError>)
        ensures
            match r {
                Ok(c) => {
                    &&& config_error(env.vars@) is None
                    &&& config_from_env(c, env.vars@, c.mqtt.client_id@)
                    &&& env_get(env.vars@, EnvKey::MqttClientId) is None ==> generated_client_id(
                        c.mqtt.client_id@,
                    )
                },
                Err(e) => config_error(env.vars@) == Some(e@),
            },
    {
        let fallback = match env.lookup(EnvKey::MqttClientId) {
            Some(_) => String::new(),
            None => {
                let u = random_uuid_text();
                let id = String::from_str("loradb-").concat(u.as_str());
                assert(id@ == "loradb-"@ + u@);
                id
            },
        };
        Config::from_env_with_client_id(env, fallback)
    }
}

/// Whether the files that the configuration names exist on disk.
pub struct PathChecks {
    pub api_tls_cert_exists: bool,
    pub api_tls_key_exists: bool,
    pub mqtt_ca_cert_exists: bool,
}

/// What the standard base64 decoder (alphabet `A-Z a-z 0-9 + /`, canonical
/// `=` padding) yields for the bytes of `text`: `None` when it refuses them.
pub uninterp spec fn base64_standard_decode(text: Seq<char>) -> Option<Seq<u8>>;

#[verifier::external_type_specification]
#[verifier::external_body]
pub struct ExDecodeError(base64::DecodeError);

/// `base64::decode`: decodes with the `STANDARD` engine. Claimed: the bytes
/// returned, or the refusal, are those that `base64_standard_decode` names
/// for the text, a function of the text alone.
#[verifier::external_body]
fn decode_base64(text: &str) -> (r: Result<Vec<u8>, base64::DecodeError>)
    ensures
        match r {
            Ok(v) => base64_standard_decode(text@) == Some(v@),
            Err(_) => base64_standard_decode(text@) is None,
        },
{
    #[allow(deprecated)]
    base64::decode(text)
}

/// The outcome of checking `c`, given which of the files it names exist.
pub open spec fn validation_outcome(c: Config, files: PathChecks, r: Result<(), ConfigError>) -> bool {
    if c.mqtt.chirpstack_broker is None && c.mqtt.ttn_broker is None {
        r == Err::<(), ConfigError>(ConfigError::NoBroker)
    } else if c.api.enable_tls && c.api.tls_cert is Some && !files.api_tls_cert_exists {
        r == Err::<(), ConfigError>(ConfigError::TlsCertNotFound(c.api.tls_cert.unwrap()))
    } else if c.api.enable_tls && c.api.tls_cert is None {
        r == Err::<(), ConfigError>(ConfigError::TlsCertNotSet)
    } else if c.api.enable_tls && c.api.tls_key is Some && !files.api_tls_key_exists {
        r == Err::<(), ConfigError>(ConfigError::TlsKeyNotFound(c.api.tls_key.unwrap()))
    } else if c.api.enable_tls && c.api.tls_key is None {
        r == Err::<(), ConfigError>(ConfigError::TlsKeyNotSet)
    } else if c.mqtt.tls_ca_cert is Some && !files.mqtt_ca_cert_exists {
        r == Err::<(), ConfigError>(ConfigError::CaCertNotFound(c.mqtt.tls_ca_cert.unwrap()))
    } else if c.storage.enable_encryption && c.storage.encryption_key is Some
        && base64_standard_decode(c.storage.encryption_key.unwrap()@) is None {
        r matches Err(ConfigError::InvalidEncryptionKey(_))
    } else {
        r is Ok
    }
}

impl Config {
    /// Checks the configuration: a broker is set; with TLS on, its
    /// certificate and key are set and exist; the MQTT CA certificate, when
    /// set, exists; with encryption on, the key is standard base64.
    pub fn validate(&self, files: &PathChecks) -> (r: Result<(), ConfigError>)
        ensures
            validation_outcome(*self, *files, r),
            (self.mqtt.chirpstack_broker is Some || self.mqtt.ttn_broker is Some) ==> !(r matches Err(
                ConfigError::NoBroker,
            )),
            (self.mqtt.chirpstack_broker is None && self.mqtt.ttn_broker is None) ==> r matches Err(
                ConfigError::NoBroker,
            ),
    {
        if self.mqtt.chirpstack_broker.is_none() && self.mqtt.ttn_broker.is_none() {
            return Err(ConfigError::NoBroker);
        }
        if self.api.enable_tls {
            match &self.api.tls_cert {
                Some(cert) => {
                    if !files.api_tls_cert_exists {
                        return Err(ConfigError::TlsCertNotFound(cert.clone()));
                    }
                },
                None => return Err(ConfigError::TlsCertNotSet),
            }
            match &self.api.tls_key {
                Some(key) => {
                    if !files.api_tls_key_exists {
                        return Err(ConfigError::TlsKeyNotFound(key.clone()));
                    }
                },
                None => return Err(ConfigError::TlsKeyNotSet),
            }
        }
        if let Some(ca_cert) = &self.mqtt.tls_ca_cert {
            if !files.mqtt_ca_cert_exists {
                return Err(ConfigError::CaCertNotFound(ca_cert.clone()));
            }
        }
        if self.storage.enable_encryption {
            if let Some(key) = &self.storage.encryption_key {
                match decode_base64(key.as_str()) {
                    Ok(_) => {},
                    Err(e) => return Err(ConfigError::InvalidEncryptionKey(e.to_string())),
                }
            }
        }
        Ok(())
    }
}


/// Each setting is read from its own variable: the name every key reads.
pub proof fn lemma_env_key_names()
    ensures
        key_name(EnvKey::MqttChirpstackBroker) == "LORADB_MQTT_CHIRPSTACK_BROKER"@,
        key_name(EnvKey::MqttTtnBroker) == "LORADB_MQTT_TTN_BROKER"@,
        key_name(EnvKey::MqttClientId) == "LORADB_MQTT_CLIENT_ID"@,
        key_name(EnvKey::MqttUsername) == "LORADB_MQTT_USERNAME"@,
        key_name(EnvKey::MqttPassword) == "LORADB_MQTT_PASSWORD"@,
        key_name(EnvKey::MqttCaCert) == "LORADB_MQTT_CA_CERT"@,
        key_name(EnvKey::MqttClientCert) == "LORADB_MQTT_CLIENT_CERT"@,
        key_name(EnvKey::MqttClientKey) == "LORADB_MQTT_CLIENT_KEY"@,
        key_name(EnvKey::MqttReconnectIntervalSecs) == "LORADB_MQTT_RECONNECT_INTERVAL_SECS"@,
        key_name(EnvKey::MqttMaxReconnectIntervalSecs) == "LORADB_MQTT_MAX_RECONNECT_INTERVAL_SECS"@,
        key_name(EnvKey::StorageDataDir) == "LORADB_STORAGE_DATA_DIR"@,
        key_name(EnvKey::StorageWalSyncIntervalMs) == "LORADB_STORAGE_WAL_SYNC_INTERVAL_MS"@,
        key_name(EnvKey::StorageMemtableSizeMb) == "LORADB_STORAGE_MEMTABLE_SIZE_MB"@,
        key_name(EnvKey::StorageCompactionThreshold) == "LORADB_STORAGE_COMPACTION_THRESHOLD"@,
        key_name(EnvKey::StorageEnableEncryption) == "LORADB_STORAGE_ENABLE_ENCRYPTION"@,
        key_name(EnvKey::StorageEncryptionKey) == "LORADB_STORAGE_ENCRYPTION_KEY"@,
        key_name(EnvKey::ApiEnableTls) == "LORADB_API_ENABLE_TLS"@,
        key_name(EnvKey::ApiBindAddr) == "LORADB_API_BIND_ADDR"@,
        key_name(EnvKey::ApiTlsCert) == "LORADB_API_TLS_CERT"@,
        key_name(EnvKey::ApiTlsKey) == "LORADB_API_TLS_KEY"@,
        key_name(EnvKey::ApiJwtSecret) == "LORADB_API_JWT_SECRET"@,
        key_name(EnvKey::ApiRateLimitPerMinute) == "LORADB_API_RATE_LIMIT_PER_MINUTE"@,
{
}

/// The configuration holds, in each field, what the variable of that
/// field's name says (the text settings as given, the client id and data
/// directory with their fallbacks).
pub proof fn lemma_config_reads_named_variables(c: Config, vars: Seq<(String, String)>, client_id: Seq<char>)
    requires
        config_from_env(c, vars, client_id),
    ensures
        opt_view(c.mqtt.chirpstack_broker) == env_lookup(vars, "LORADB_MQTT_CHIRPSTACK_BROKER"@),
        opt_view(c.mqtt.ttn_broker) == env_lookup(vars, "LORADB_MQTT_TTN_BROKER"@),
        c.mqtt.client_id@ == or_default(env_lookup(vars, "LORADB_MQTT_CLIENT_ID"@), client_id),
        opt_view(c.mqtt.username) == env_lookup(vars, "LORADB_MQTT_USERNAME"@),
        opt_view(c.mqtt.password) == env_lookup(vars, "LORADB_MQTT_PASSWORD"@),
        opt_view(c.mqtt.tls_ca_cert) == env_lookup(vars, "LORADB_MQTT_CA_CERT"@),
        opt_view(c.mqtt.tls_client_cert) == env_lookup(vars, "LORADB_MQTT_CLIENT_CERT"@),
        opt_view(c.mqtt.tls_client_key) == env_lookup(vars, "LORADB_MQTT_CLIENT_KEY"@),
        c.storage.data_dir@ == or_default(env_lookup(vars, "LORADB_STORAGE_DATA_DIR"@), "/var/lib/loradb"@),
        opt_view(c.storage.encryption_key) == env_lookup(vars, "LORADB_STORAGE_ENCRYPTION_KEY"@),
        opt_view(c.api.tls_cert) == env_lookup(vars, "LORADB_API_TLS_CERT"@),
        opt_view(c.api.tls_key) == env_lookup(vars, "LORADB_API_TLS_KEY"@),
        Some(c.api.jwt_secret@) == env_lookup(vars, "LORADB_API_JWT_SECRET"@),
        env_lookup(vars, "LORADB_STORAGE_MEMTABLE_SIZE_MB"@) is None ==> c.storage.memtable_size_mb == 64,
        env_lookup(vars, "LORADB_STORAGE_COMPACTION_THRESHOLD"@) is None ==> c.storage.compaction_threshold == 10,
        env_lookup(vars, "LORADB_MQTT_RECONNECT_INTERVAL_SECS"@) is None ==> c.mqtt.reconnect_interval_secs == 5,
        env_lookup(vars, "LORADB_MQTT_MAX_RECONNECT_INTERVAL_SECS"@) is None ==> c.mqtt.max_reconnect_interval_secs
            == 300,
        env_lookup(vars, "LORADB_STORAGE_WAL_SYNC_INTERVAL_MS"@) is None ==> c.storage.wal_sync_interval_ms == 1000,
        env_lookup(vars, "LORADB_API_RATE_LIMIT_PER_MINUTE"@) is None ==> c.api.rate_limit_per_minute == 60,
        env_lookup(vars, "LORADB_API_ENABLE_TLS"@) is None ==> !c.api.enable_tls,
        env_lookup(vars, "LORADB_STORAGE_ENABLE_ENCRYPTION"@) is None ==> !c.storage.enable_encryption,
{
}

/// A configuration that names either broker is never refused for want of
/// one; one that names neither always is.
pub proof fn lemma_validate_brokers(c: Config, files: PathChecks, r: Result<(), ConfigError>)
    requires
        validation_outcome(c, files, r),
    ensures
        (c.mqtt.chirpstack_broker is Some || c.mqtt.ttn_broker is Some) ==> !(r matches Err(ConfigError::NoBroker)),
        (c.mqtt.chirpstack_broker is None && c.mqtt.ttn_broker is None) ==> r matches Err(ConfigError::NoBroker),
{
}

} // verus!
