use ctxl::db::{
    accept_version, join_path, plan_schema, schema_action, session_dir_at, still_applies,
    version_set_by, DbError, SchemaAction, MAX_KNOWN_VERSION, SCHEMA_VERSION,
};
use ctxl::global_db::{
    compute_session_stats, days_ago, global_db_path, global_schema_step, removal_totals,
    GlobalSchemaAction, SessionCounts, GLOBAL_SCHEMA_VERSION,
};

/// The version that a plan leaves behind.
fn version_after(current: i32) -> i32 {
    let mut version = current;
    for action in plan_schema(current).unwrap() {
        if still_applies(action, version) {
            version = version_set_by(action);
        }
    }
    version
}

#[test]
fn fresh_db_gets_latest_version() {
    assert_eq!(version_after(0), MAX_KNOWN_VERSION);
}

#[test]
fn idempotent_apply() {
    let ver = version_after(version_after(0));
    assert_eq!(ver, MAX_KNOWN_VERSION);
    assert!(plan_schema(MAX_KNOWN_VERSION).unwrap().is_empty());
}

#[test]
fn future_version_rejected() {
    let err = plan_schema(MAX_KNOWN_VERSION + 1).unwrap_err();
    assert!(matches!(err, DbError::VersionMismatch { .. }));
    assert!(accept_version(MAX_KNOWN_VERSION).is_ok());
    assert!(accept_version(MAX_KNOWN_VERSION + 1).is_err());
}

#[test]
fn every_known_version_is_brought_forward() {
    for v in 1..=MAX_KNOWN_VERSION {
        assert_eq!(version_after(v), MAX_KNOWN_VERSION);
    }
    assert_eq!(schema_action(SCHEMA_VERSION, 0), SchemaAction::CreateBase);
    assert_eq!(schema_action(SCHEMA_VERSION, 1), SchemaAction::FixTimestamps);
}

#[test]
fn another_process_may_have_migrated_already() {
    for action in plan_schema(0).unwrap() {
        assert!(!still_applies(action, MAX_KNOWN_VERSION));
    }
}

#[test]
fn paths_are_joined() {
    assert_eq!(join_path("/cache", "ctxl"), "/cache/ctxl");
    assert_eq!(join_path("/cache/", "ctxl"), "/cache/ctxl");
    assert_eq!(session_dir_at("/cache", "s-1"), "/cache/ctxl/s-1");
    assert_eq!(global_db_path(Some("/r"), Some("/d")), Some("/r/ctxl/global.db".to_string()));
    assert_eq!(global_db_path(None, Some("/d")), Some("/d/ctxl/global.db".to_string()));
    assert_eq!(global_db_path(None, None), None);
}

/// The version that the steps on the global DB leave behind.
fn global_version_after(current: i32) -> i32 {
    let mut version = current;
    loop {
        let (action, next) = global_schema_step(version);
        if action == GlobalSchemaAction::Done {
            return version;
        }
        version = next;
    }
}

#[test]
fn global_schema_idempotent() {
    let ver = global_version_after(global_version_after(0));
    assert_eq!(ver, GLOBAL_SCHEMA_VERSION);
}

#[test]
fn v1_to_v2_migration() {
    let (action, ver) = global_schema_step(1);
    assert_eq!(action, GlobalSchemaAction::AddSummaries);
    assert_eq!(ver, 2);
    assert_eq!(global_version_after(1), 2);
}

#[test]
fn failed_counts_are_zero() {
    let counts = SessionCounts {
        handles: Some(4),
        tokens: Some(900),
        bytes: None,
        calls_tables: Some(1),
        calls: Some(3),
        calls_intercepted: Some(1),
        retrieval_calls: Some(1),
        retrieval_tokens: Some(150),
        counts_retrievals: false,
        handles_retrieved: Some(9),
        total_retrievals: Some(9),
    };
    let stats = compute_session_stats(counts);
    assert_eq!(stats.retrieval_calls, 1);
    assert_eq!(stats.retrieval_tokens, 150);
    assert_eq!(stats.calls_count, 3);
    assert_eq!(stats.calls_intercepted, 1);
    assert_eq!((stats.bytes_intercepted, stats.handles_retrieved), (0, 0));
    let old = compute_session_stats(SessionCounts { calls_tables: Some(0), ..counts });
    assert_eq!((old.calls_count, old.retrieval_tokens, old.handles_count), (0, 0, 4));
}

#[test]
fn removals_are_added_up() {
    assert_eq!(removal_totals(&[(1, 10), (2, 32)]), (2, 42));
    assert_eq!(removal_totals(&[]), (0, 0));
    assert_eq!(days_ago(30), "-30 days");
}

#[test]
fn errors_have_messages() {
    assert_eq!(DbError::Sqlite("locked".to_string()).message(), "sqlite: locked");
    let e = DbError::VersionMismatch { found: 9, expected: 7 };
    assert!(e.message().contains('9') && e.message().contains('7'));
}
