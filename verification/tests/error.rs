use meilisearch_sql_connector::logging::{log_debug, log_error, log_info, log_warning, LogLevel};
use meilisearch_sql_connector::ConnectorError;

#[test]
fn every_error_kind_has_a_message() {
    let cases = vec![
        (
            ConnectorError::Database("boom".to_string()),
            "Database error: boom",
        ),
        (
            ConnectorError::Meilisearch("down".to_string()),
            "Meilisearch error: down",
        ),
        (ConnectorError::Config("bad".to_string()), "Config error: bad"),
        (
            ConnectorError::TomlSerialization("oops".to_string()),
            "TOML serialization error: oops",
        ),
        (
            ConnectorError::NoPrimaryKey("users".to_string()),
            "No primary key found for table: users",
        ),
        (
            ConnectorError::UnsupportedDatabaseType("redis".to_string()),
            "Unsupported database type: redis",
        ),
        (ConnectorError::Io("denied".to_string()), "IO error: denied"),
        (
            ConnectorError::NotImplemented("feature".to_string()),
            "Not implemented: feature",
        ),
    ];
    for (err, expected) in cases {
        assert_eq!(err.message(), expected);
    }
}

#[test]
fn errors_compare_and_clone() {
    let e = ConnectorError::Config("x".to_string());
    assert_eq!(e.clone(), e);
    assert_ne!(e, ConnectorError::Config("y".to_string()));
    assert_ne!(e, ConnectorError::Io("x".to_string()));
}

#[test]
fn log_lines_carry_level_message_and_context() {
    let err = ConnectorError::Database("gone".to_string());
    let line = log_error(&err, "startup");
    assert_eq!(line.level, LogLevel::Error);
    assert_eq!(line.message, "Database error: gone");
    assert_eq!(line.context, "startup");

    let line = log_warning("slow", "sync");
    assert_eq!(line.level, LogLevel::Warning);
    assert_eq!(line.message, "slow");
    assert_eq!(line.context, "sync");

    let line = log_info("started", "main");
    assert_eq!(line.level, LogLevel::Info);
    assert_eq!(line.message, "started");
    assert_eq!(line.context, "main");

    let line = log_debug("tick", "scheduler");
    assert_eq!(line.level, LogLevel::Debug);
    assert_eq!(line.message, "tick");
    assert_eq!(line.context, "scheduler");
}
