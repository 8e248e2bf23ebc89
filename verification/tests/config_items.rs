//! Configuration items, value accounting, and the delegating
//! manager.

use spin_bridge::azure_store::{
    AzureBlobStore, AzureBlobStoreRuntimeConfig, BlobStoreAzureAuthOptions,
};
use spin_bridge::errors::Error;
use spin_bridge::http_config::{HttpExecutorType, WagiTriggerConfig};
use spin_bridge::locked::lock_schema_version;
use spin_bridge::manager::{AppState, DelegatingStoreManager, StoreBackend};
use spin_bridge::memory_store::{MemoryBlobStore, MemoryBlobStoreRuntimeConfig};
use spin_bridge::postgres_values::DbValue as PgValue;
use spin_bridge::rdbms_values::DbValue as RdbmsValue;
use spin_bridge::sqlite_values::Value;

#[test]
fn wagi_config_smoke_test() {
    let HttpExecutorType::Wagi(config) = HttpExecutorType::Wagi(WagiTriggerConfig::default())
    else {
        panic!("wrong type");
    };
    assert_eq!(config.entrypoint, "_start");
    assert_eq!(config.argv, "${SCRIPT_NAME} ${ARGS}");
}

#[test]
fn sqlite_value_memory_size_formula() {
    assert_eq!(Value::Null.memory_size(), 32);
    assert_eq!(Value::Integer(7).memory_size(), 32);
    assert_eq!(Value::Real(0x4000_0000_0000_0000).memory_size(), 32);
    assert_eq!(Value::Text("abc".to_string()).memory_size(), 35);
    assert_eq!(Value::Blob(vec![1, 2]).memory_size(), 34);
}

#[test]
fn postgres_value_memory_size_formula() {
    assert_eq!(PgValue::DbNull.memory_size(), 56);
    assert_eq!(PgValue::Int64(-1).memory_size(), 56);
    assert_eq!(PgValue::Str("hello".to_string()).memory_size(), 61);
    assert_eq!(PgValue::Jsonb(vec![0; 10]).memory_size(), 66);
    assert_eq!(
        PgValue::ArrayInt32(vec![None, Some(1), Some(2)]).memory_size(),
        56 + 3 * 8
    );
    assert_eq!(
        PgValue::ArrayInt64(vec![Some(1), None]).memory_size(),
        56 + 2 * 16
    );
    assert_eq!(
        PgValue::ArrayStr(vec![Some("ab".to_string()), None]).memory_size(),
        56 + (24 + 2) + 24
    );
}

#[test]
fn rdbms_value_memory_size_formula() {
    assert_eq!(RdbmsValue::Floating64(0).memory_size(), 32);
    assert_eq!(RdbmsValue::Str("xyzw".to_string()).memory_size(), 36);
    assert_eq!(RdbmsValue::Binary(vec![0; 5]).memory_size(), 37);
}

struct FixedSummary;

impl StoreBackend for FixedSummary {
    fn summary_text(&self) -> Option<String> {
        Some("test backend".to_string())
    }
}

struct NamedBackend(&'static str);

impl StoreBackend for NamedBackend {
    fn summary_text(&self) -> Option<String> {
        Some(self.0.to_string())
    }
}

#[test]
fn delegating_manager_looks_up_labels() {
    let manager = DelegatingStoreManager::new(vec![
        ("default".to_string(), FixedSummary),
        ("cache".to_string(), FixedSummary),
    ]);
    assert!(manager.is_defined(&"default".to_string()));
    assert!(manager.is_defined(&"cache".to_string()));
    assert!(!manager.is_defined(&"absent".to_string()));
    assert!(manager.get(&"default".to_string()).is_ok());
    assert!(matches!(
        manager.get(&"absent".to_string()),
        Err(Error::NoSuchResource)
    ));
    assert_eq!(
        manager.summary(&"cache".to_string()),
        Some("test backend".to_string())
    );
    assert_eq!(manager.summary(&"absent".to_string()), None);
}

#[test]
fn delegating_manager_lets_a_later_duplicate_label_win() {
    let manager = DelegatingStoreManager::new(vec![
        ("default".to_string(), NamedBackend("first")),
        ("cache".to_string(), NamedBackend("other")),
        ("default".to_string(), NamedBackend("second")),
    ]);
    assert_eq!(
        manager.summary(&"default".to_string()),
        Some("second".to_string())
    );
    assert_eq!(
        manager.summary(&"cache".to_string()),
        Some("other".to_string())
    );
    assert!(manager.is_defined(&"default".to_string()));
}

#[test]
fn lock_schema_version_is_zero_only_without_host_requirements() {
    assert_eq!(lock_schema_version(&vec![], 0), 0);
    assert_eq!(lock_schema_version(&vec!["host_requirements".to_string()], 0), 1);
    assert_eq!(lock_schema_version(&vec![], 2), 1);
}

#[test]
fn configuration_rejects_an_unknown_allowed_label() {
    let manager = DelegatingStoreManager::new(vec![("default".to_string(), NamedBackend("kv"))]);
    let state = AppState::configure(
        manager,
        vec![("frontend".to_string(), vec!["default".to_string()])],
    );
    assert!(state.is_ok());

    let manager = DelegatingStoreManager::new(vec![("default".to_string(), NamedBackend("kv"))]);
    let bad = AppState::configure(
        manager,
        vec![
            ("frontend".to_string(), vec!["default".to_string()]),
            ("worker".to_string(), vec!["unknown".to_string()]),
        ],
    );
    assert!(matches!(bad, Err(Error::NoSuchResource)));
}

#[test]
fn app_state_reports_used_labels_and_summaries() {
    let manager = DelegatingStoreManager::new(vec![
        ("default".to_string(), NamedBackend("kv")),
        ("cache".to_string(), NamedBackend("mem")),
    ]);
    let state = AppState::new(
        manager,
        vec![
            ("frontend".to_string(), vec!["default".to_string()]),
            ("worker".to_string(), vec!["cache".to_string(), "default".to_string()]),
        ],
    );
    assert!(state.store_is_used(&"default".to_string()));
    assert!(state.store_is_used(&"cache".to_string()));
    assert!(!state.store_is_used(&"unused".to_string()));
    assert_eq!(state.store_summary(&"cache".to_string()), Some("mem".to_string()));
    assert_eq!(state.store_summary(&"absent".to_string()), None);
}

#[test]
fn azure_auth_options_follow_the_runtime_config() {
    let store = AzureBlobStore::new();
    let direct = store
        .make_store(AzureBlobStoreRuntimeConfig {
            key: Some("examplekey".to_string()),
            account: "acct".to_string(),
        })
        .unwrap();
    assert!(matches!(
        direct,
        BlobStoreAzureAuthOptions::RuntimeConfigValues(_)
    ));
    let env = store
        .make_store(AzureBlobStoreRuntimeConfig { key: None, account: "acct".to_string() })
        .unwrap();
    assert!(matches!(env, BlobStoreAzureAuthOptions::Environmental));
}

#[test]
fn memory_store_factory_makes_an_empty_store() {
    let factory = MemoryBlobStore::new();
    let store = factory.make_store(MemoryBlobStoreRuntimeConfig {}).unwrap();
    assert_eq!(store.container_count(), 0);
}

#[test]
fn error_messages_describe_each_variant() {
    assert_eq!(Error::AccessDenied.message(), "access denied");
    assert_eq!(Error::NoSuchResource.message(), "no such resource");
    assert_eq!(Error::ResourceExhausted.message(), "resource table full");
    assert_eq!(Error::InvalidHandle.message(), "invalid handle");
    assert_eq!(
        Error::BackendFailure("boom".to_string()).message(),
        "boom"
    );
    assert_eq!(
        spin_bridge::errors::log_error(&Error::TransferAborted("gone".to_string())),
        "gone"
    );
}
