use indexeddb_kv::backend::IndexeddbBuilder;
use indexeddb_kv::config::IndexeddbConfig;
use indexeddb_kv::connection::needs_schema_declaration;
use indexeddb_kv::connection::ConnectionAction;
use indexeddb_kv::connection::ConnectionCell;

#[test]
fn build_falls_back_to_documented_defaults() {
    let config = IndexeddbConfig::default();
    let backend = config.into_builder().build();
    assert_eq!(backend.adapter.db_name, "opendal");
    assert_eq!(backend.adapter.object_store_name, "main");
    assert_eq!(backend.root, "/");
}

#[test]
fn build_keeps_configured_names() {
    let config = IndexeddbConfig {
        db_name: Some("sessions".to_string()),
        object_store_name: Some("records".to_string()),
        root: Some("/tenant/".to_string()),
    };
    let backend = config.into_builder().build();
    assert_eq!(backend.adapter.db_name, "sessions");
    assert_eq!(backend.adapter.object_store_name, "records");
    assert_eq!(backend.root, "/tenant/");
}

#[test]
fn default_builder_matches_default_config() {
    let backend = IndexeddbBuilder::default().build();
    assert_eq!(backend.adapter.db_name, "opendal");
    assert_eq!(backend.adapter.object_store_name, "main");
    assert_eq!(backend.root, "/");
}

#[test]
fn info_descriptor_declares_the_capabilities() {
    let backend = IndexeddbConfig::default().into_builder().build();
    let info = backend.adapter.info();
    assert_eq!(info.scheme, "indexeddb");
    assert_eq!(info.name, "opendal-main");
    assert!(info.capability.read);
    assert!(info.capability.write);
    assert!(info.capability.delete);
    assert!(info.capability.list);
    assert!(!info.capability.shared);
}

#[test]
fn concurrent_first_operations_start_initialization_once() {
    let mut cell = ConnectionCell::new();
    // many operations arrive before the connection exists: only the
    // first is told to start the work, the rest await the same outcome
    let mut starts: u32 = 0;
    let mut awaits: u32 = 0;
    for _ in 0..100 {
        match cell.on_request() {
            ConnectionAction::StartInit => starts += 1,
            ConnectionAction::AwaitInFlight => awaits += 1,
            ConnectionAction::UseReady => panic!("nothing is cached yet"),
        }
    }
    assert_eq!(starts, 1);
    assert_eq!(awaits, 99);
    // the establishment completes: every later operation reuses it
    cell.on_init_result(true);
    for _ in 0..100 {
        assert!(matches!(cell.on_request(), ConnectionAction::UseReady));
    }
}

#[test]
fn failed_initialization_allows_a_fresh_attempt() {
    let mut cell = ConnectionCell::new();
    assert!(matches!(cell.on_request(), ConnectionAction::StartInit));
    cell.on_init_result(false);
    // the failure is not cached forever: the next operation retries
    assert!(matches!(cell.on_request(), ConnectionAction::StartInit));
    cell.on_init_result(true);
    assert!(matches!(cell.on_request(), ConnectionAction::UseReady));
}

#[test]
fn record_space_is_declared_only_on_first_creation() {
    // the upgrade that creates the database at schema version 1 declares
    // the record space; any other version transition must not
    assert!(needs_schema_declaration(1));
    assert!(!needs_schema_declaration(0));
    assert!(!needs_schema_declaration(2));
}
