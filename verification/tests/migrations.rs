use miyu::state::migrations::{
    check_foreign_keys, column_missing, migrations, newer_schema_message, pending_migrations,
    SchemaError, LATEST_VERSION,
};

fn versions() -> Vec<i64> {
    migrations().iter().map(|m| m.0).collect()
}

#[test]
fn fresh_database_needs_every_migration() {
    let all = versions();
    assert_eq!(all.len() as i64, LATEST_VERSION);
    assert_eq!(*all.last().unwrap(), LATEST_VERSION);
    assert_eq!(pending_migrations(0, &all).unwrap(), (0..24).collect::<Vec<usize>>());
    assert_eq!(migrations()[0].1, "baseline");
    assert_eq!(migrations()[23].1, "retire_session_goals");
}

#[test]
fn migrations_are_idempotent_once_current() {
    let all = versions();
    assert!(pending_migrations(LATEST_VERSION, &all).unwrap().is_empty());
    assert_eq!(pending_migrations(21, &all).unwrap(), vec![21, 22, 23]);
}

#[test]
fn newer_database_version_is_refused() {
    let all = versions();
    let error = pending_migrations(9999, &all).unwrap_err();
    assert_eq!(error, SchemaError::Newer { current: 9999, latest: 24 });
    let message = newer_schema_message(9999, 24);
    assert!(message.contains("newer"));
    assert_eq!(
        message,
        "conversation.db schema version 9999 is newer than this build supports (24); refusing to open"
    );
    assert_eq!(pending_migrations(1, &Vec::new()).unwrap_err(), SchemaError::Newer { current: 1, latest: 0 });
}

#[test]
fn migration_checks() {
    assert_eq!(check_foreign_keys("sessions", 0), Ok(()));
    assert_eq!(
        check_foreign_keys("sessions", 3),
        Err("schema migration 'sessions' left 3 foreign-key violations; rolling back".to_string())
    );
    let columns = vec!["turn_id".to_string(), "hidden".to_string()];
    assert!(!column_missing(&columns, "hidden"));
    assert!(column_missing(&columns, "assistant_model"));
}
