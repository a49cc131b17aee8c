use openapi_catalog::store::{CollectionStore, SyncOutcome};

const DOC_V1: &str = r#"{"info": {"title": "One"}, "paths": {"/a": {"get": {}}}}"#;
const DOC_V2: &str = r#"{"info": {"title": "Two"}, "paths": {"/a": {"get": {}}, "/b": {"get": {}}}}"#;

#[test]
fn import_stores_and_returns_the_collection() {
    let mut store = CollectionStore::new();
    let c = store
        .import_collection("http://x", DOC_V1, Some("e1".to_string()), 111)
        .expect("a valid document");
    assert_eq!(c.name, "One");
    assert_eq!(c.etag.as_deref(), Some("e1"));
    assert_eq!(c.last_updated, 111);
    assert!(c.sync_enabled);
    assert_eq!(store.len(), 1);
    assert!(store.get("http://x").is_some());
    assert!(store.get("http://y").is_none());
}

#[test]
fn import_error_leaves_store_empty() {
    let mut store = CollectionStore::new();
    assert!(store.import_collection("u", "{broken", None, 0).is_err());
    assert_eq!(store.len(), 0);
}

#[test]
fn reimport_replaces_by_url() {
    let mut store = CollectionStore::new();
    store.import_collection("u", DOC_V1, None, 1).unwrap();
    store.import_collection("u", DOC_V2, None, 2).unwrap();
    assert_eq!(store.len(), 1);
    let c = store.get("u").unwrap();
    assert_eq!(c.name, "Two");
    assert_eq!(c.last_updated, 2);
}

#[test]
fn toggle_sync_flips_only_the_named_collection() {
    let mut store = CollectionStore::new();
    store.import_collection("a", DOC_V1, None, 1).unwrap();
    store.import_collection("b", DOC_V1, None, 1).unwrap();
    store.toggle_sync("a", false);
    assert!(!store.get("a").unwrap().sync_enabled);
    assert!(store.get("b").unwrap().sync_enabled);
    store.toggle_sync("missing", false);
    assert_eq!(store.len(), 2);
}

#[test]
fn sync_targets_lists_only_enabled_collections() {
    let mut store = CollectionStore::new();
    store.import_collection("a", DOC_V1, Some("ea".to_string()), 1).unwrap();
    store.import_collection("b", DOC_V1, None, 1).unwrap();
    store.toggle_sync("b", false);
    let targets = store.sync_targets();
    assert_eq!(targets.len(), 1);
    assert_eq!(targets[0].0, "a");
    assert_eq!(targets[0].1.as_deref(), Some("ea"));
}

#[test]
fn not_modified_leaves_collection_untouched() {
    let mut store = CollectionStore::new();
    store.import_collection("u", DOC_V1, Some("e1".to_string()), 5).unwrap();
    let changed = store.apply_sync_fetch("u", SyncOutcome::NotModified, 99);
    assert!(!changed);
    let c = store.get("u").unwrap();
    assert_eq!(c.last_updated, 5);
    assert_eq!(c.etag.as_deref(), Some("e1"));
    assert_eq!(c.name, "One");
}

#[test]
fn failed_fetch_changes_nothing() {
    let mut store = CollectionStore::new();
    store.import_collection("u", DOC_V1, None, 5).unwrap();
    assert!(!store.apply_sync_fetch("u", SyncOutcome::Failed, 99));
    assert_eq!(store.get("u").unwrap().last_updated, 5);
}

#[test]
fn fresh_content_updates_etag_and_time_and_keeps_flag() {
    let mut store = CollectionStore::new();
    store.import_collection("u", DOC_V1, Some("e1".to_string()), 5).unwrap();
    store.toggle_sync("u", false);
    let outcome = SyncOutcome::Fresh {
        body: DOC_V2.to_string(),
        etag: Some("e2".to_string()),
    };
    let changed = store.apply_sync_fetch("u", outcome, 99);
    assert!(changed);
    let c = store.get("u").unwrap();
    assert_eq!(c.name, "Two");
    assert_eq!(c.etag.as_deref(), Some("e2"));
    assert_eq!(c.last_updated, 99);
    // The rebuild defaults the flag to enabled; the prior state is kept.
    assert!(!c.sync_enabled);
}

#[test]
fn fresh_content_that_does_not_parse_is_skipped() {
    let mut store = CollectionStore::new();
    store.import_collection("u", DOC_V1, Some("e1".to_string()), 5).unwrap();
    let outcome = SyncOutcome::Fresh { body: "{oops".to_string(), etag: Some("e2".to_string()) };
    assert!(!store.apply_sync_fetch("u", outcome, 99));
    let c = store.get("u").unwrap();
    assert_eq!(c.etag.as_deref(), Some("e1"));
    assert_eq!(c.last_updated, 5);
}

#[test]
fn import_now_uses_the_clock() {
    let mut store = CollectionStore::new();
    let before = 1_000_000_000_000i64;
    let t = store
        .import_collection_now("u", DOC_V1, None)
        .expect("a valid document")
        .last_updated;
    // The wall clock lies well past 2001 and moves forward.
    assert!(t > before);
}
