use meilisearch_sql_connector::database::{
    blob_placeholder, normalize_sqlite_path, null_column_value, plan_database_adapter,
    primary_key_from_columns, sqlite_connection_string, AdapterPlan, MySqlAdapter,
    PostgresAdapter,
};
use meilisearch_sql_connector::document::FieldValue;
use meilisearch_sql_connector::ConnectorError;

#[test]
fn double_slash_paths_collapse() {
    assert_eq!(normalize_sqlite_path("//Users/me/db.sqlite"), "/Users/me/db.sqlite");
    assert_eq!(normalize_sqlite_path("////x"), "/x");
    assert_eq!(normalize_sqlite_path("/abs/path.db"), "/abs/path.db");
    assert_eq!(normalize_sqlite_path("relative.db"), "relative.db");
    assert_eq!(normalize_sqlite_path(""), "");
}

#[test]
fn sqlite_connection_strings_follow_path_shape() {
    assert_eq!(sqlite_connection_string(":memory:"), "sqlite::memory:");
    assert_eq!(sqlite_connection_string("sqlite://already"), "sqlite://already");
    assert_eq!(sqlite_connection_string("sqlite:already"), "sqlite:already");
    assert_eq!(sqlite_connection_string("/abs/db.sqlite"), "sqlite:///abs/db.sqlite");
    assert_eq!(sqlite_connection_string("C:db.sqlite"), "sqlite:C:db.sqlite");
    assert_eq!(sqlite_connection_string("relative.db"), "sqlite:./relative.db");
}

#[test]
fn adapter_plan_takes_the_url_apart() {
    // The URL's scheme picks the adapter and only the path reaches SQLite,
    // so the plan must not be the input handed back whole.
    let plan = plan_database_adapter("sqlite:///tmp/data.db", Some(7)).unwrap();
    assert_eq!(
        plan,
        AdapterPlan::Sqlite { path: "/tmp/data.db".to_string(), pool_size: Some(7) }
    );
    let plan = plan_database_adapter("sqlite://host/data.db", None).unwrap();
    assert_eq!(plan, AdapterPlan::Sqlite { path: "/data.db".to_string(), pool_size: None });
}

#[test]
fn adapter_plan_reserves_other_dialects() {
    let plan = plan_database_adapter("postgres://u@h/db", None).unwrap();
    assert_eq!(plan, AdapterPlan::Postgres { url: "postgres://u@h/db".to_string() });
    let plan = plan_database_adapter("postgresql://u@h/db", None).unwrap();
    assert_eq!(plan, AdapterPlan::Postgres { url: "postgresql://u@h/db".to_string() });
    let plan = plan_database_adapter("mysql://u@h/db", None).unwrap();
    assert_eq!(plan, AdapterPlan::MySql { url: "mysql://u@h/db".to_string() });
}

#[test]
fn adapter_plan_rejects_unknown_schemes_and_bad_urls() {
    match plan_database_adapter("redis://h", None) {
        Err(ConnectorError::UnsupportedDatabaseType(s)) => assert_eq!(s, "redis"),
        other => panic!("unexpected: {other:?}"),
    }
    match plan_database_adapter("not a url", None) {
        Err(e @ ConnectorError::Config(_)) => {
            assert!(e.message().starts_with("Config error: Invalid database URL: "))
        }
        other => panic!("unexpected: {other:?}"),
    }
}

#[test]
fn first_flagged_column_is_the_primary_key() {
    let cols = vec![
        ("a".to_string(), "TEXT".to_string(), false),
        ("b".to_string(), "INTEGER".to_string(), true),
        ("c".to_string(), "INTEGER".to_string(), true),
    ];
    assert_eq!(primary_key_from_columns("t", &cols).unwrap(), "b");
}

#[test]
fn table_without_key_column_is_reported() {
    let cols = vec![("a".to_string(), "TEXT".to_string(), false)];
    match primary_key_from_columns("orders", &cols) {
        Err(e @ ConnectorError::NoPrimaryKey(_)) => {
            assert_eq!(e.message(), "No primary key found for table: orders")
        }
        other => panic!("unexpected: {other:?}"),
    }
}

#[test]
fn binary_columns_become_placeholders() {
    assert_eq!(blob_placeholder(0), "BLOB(0)");
    assert_eq!(blob_placeholder(1024), "BLOB(1024)");
}

#[test]
fn null_id_columns_coerce_to_zero() {
    assert_eq!(null_column_value("id"), FieldValue::Integer(0));
    assert_eq!(null_column_value("name"), FieldValue::Null);
    assert_eq!(null_column_value("identifier"), FieldValue::Null);
}

#[test]
fn reserved_adapters_report_not_implemented() {
    let pg = PostgresAdapter::new("postgres://u@h/db");
    assert_eq!(pg.connection_string, "postgres://u@h/db");
    match pg.fetch_all_records("t") {
        Err(e) => assert_eq!(
            e.message(),
            "Not implemented: PostgreSQL adapter fetch_all_records"
        ),
        Ok(_) => panic!("stub returned rows"),
    }
    assert!(pg.get_all_tables().is_err());
    assert!(pg.get_table_columns("t").is_err());
    assert!(pg.get_primary_key("t").is_err());

    let my = MySqlAdapter::new("mysql://u@h/db");
    assert_eq!(my.connection_string, "mysql://u@h/db");
    match my.get_primary_key("t") {
        Err(e) => assert_eq!(e.message(), "Not implemented: MySQL adapter get_primary_key"),
        Ok(_) => panic!("stub returned a key"),
    }
    assert!(my.fetch_all_records("t").is_err());
    assert!(my.get_all_tables().is_err());
    assert!(my.get_table_columns("t").is_err());
}
