use meilisearch_sql_connector::config::{
    build_generated_config, default_connection_pool_size, default_document_batch_size,
    default_max_concurrent_batches, DatabaseConfig, TableConfig, TableIntrospection,
};
use meilisearch_sql_connector::connector::{check_tables_exist, database_url_for};
use meilisearch_sql_connector::config::TypoToleranceConfig;
use meilisearch_sql_connector::meilisearch::{build_index_settings, setup_index_plan, SetupIndexPlan};
use meilisearch_sql_connector::ConnectorError;

fn table(name: &str, pk: &str) -> TableConfig {
    TableConfig {
        name: name.to_string(),
        primary_key: pk.to_string(),
        index_name: None,
        fields_to_index: Vec::new(),
        watch_for_changes: true,
        searchable_attributes: None,
        ranking_rules: None,
        typo_tolerance: None,
    }
}

fn db_config(type_: &str, conn: &str) -> DatabaseConfig {
    DatabaseConfig {
        type_: type_.to_string(),
        connection_string: conn.to_string(),
        poll_interval_seconds: Some(10),
        tables: Vec::new(),
        connection_pool_size: default_connection_pool_size(),
        max_concurrent_batches: default_max_concurrent_batches(),
        document_batch_size: default_document_batch_size(),
    }
}

#[test]
fn index_setup_is_idempotent() {
    // A missing index is created with the key first; an existing one only
    // has its settings applied, so preparing twice creates nothing twice.
    assert_eq!(setup_index_plan(true, false), SetupIndexPlan::CreateWithKeyThenSettings);
    assert_eq!(setup_index_plan(true, true), SetupIndexPlan::UpdateSettingsOnly);
    assert_eq!(setup_index_plan(false, false), SetupIndexPlan::UpdateSettingsOnly);
    assert_eq!(setup_index_plan(false, true), SetupIndexPlan::UpdateSettingsOnly);
}

#[test]
fn index_settings_come_from_the_table() {
    let mut t = table("users", "id");
    let s = build_index_settings(&t);
    assert_eq!(s.searchable_attributes, None);
    assert_eq!(s.typo_tolerance_enabled, None);

    t.searchable_attributes = Some(vec!["name".to_string(), "bio".to_string()]);
    t.typo_tolerance = Some(TypoToleranceConfig { enabled: false });
    let s = build_index_settings(&t);
    assert_eq!(
        s.searchable_attributes,
        Some(vec!["name".to_string(), "bio".to_string()])
    );
    assert_eq!(s.typo_tolerance_enabled, Some(false));
}

#[test]
fn performance_defaults() {
    assert_eq!(default_connection_pool_size(), 5);
    assert_eq!(default_max_concurrent_batches(), 5);
    assert_eq!(default_document_batch_size(), 100);
}

#[test]
fn index_name_defaults_to_table_name() {
    let mut t = table("users", "id");
    assert_eq!(t.effective_index_name(), "users");
    t.index_name = Some("user_index".to_string());
    assert_eq!(t.effective_index_name(), "user_index");
}

#[test]
fn poll_interval_defaults_to_a_minute() {
    let mut d = db_config("sqlite", "test.db");
    assert_eq!(d.effective_poll_interval(), 10);
    d.poll_interval_seconds = None;
    assert_eq!(d.effective_poll_interval(), 60);
}

#[test]
fn connector_url_for_sqlite_paths() {
    let mut d = db_config("sqlite", "//Users/me/app.db");
    assert_eq!(database_url_for(&d).unwrap(), "sqlite:/Users/me/app.db");
    d.connection_string = "/var/app.db".to_string();
    assert_eq!(database_url_for(&d).unwrap(), "sqlite:/var/app.db");
    d.connection_string = "C:app.db".to_string();
    assert_eq!(database_url_for(&d).unwrap(), "sqlite:C:app.db");
    d.connection_string = "app.db".to_string();
    assert_eq!(database_url_for(&d).unwrap(), "sqlite:./app.db");
}

#[test]
fn connector_rejects_other_database_types() {
    let d = db_config("postgres", "postgres://u@h/db");
    match database_url_for(&d) {
        Err(ConnectorError::UnsupportedDatabaseType(s)) => assert_eq!(s, "postgres"),
        other => panic!("unexpected: {other:?}"),
    }
}

#[test]
fn missing_configured_table_is_an_error() {
    let tables = vec![table("users", "id"), table("orders", "id")];
    let db_tables = vec!["users".to_string(), "orders".to_string()];
    assert!(check_tables_exist(&tables, &db_tables).is_ok());

    let fewer = vec!["users".to_string()];
    match check_tables_exist(&tables, &fewer) {
        Err(e) => assert_eq!(
            e.message(),
            "Config error: Table 'orders' not found in database"
        ),
        Ok(()) => panic!("missing table accepted"),
    }
}

#[test]
fn generated_config_indexes_every_column() {
    let introspections = vec![
        TableIntrospection {
            name: "users".to_string(),
            columns: vec![
                ("id".to_string(), "INTEGER".to_string(), true),
                ("name".to_string(), "TEXT".to_string(), false),
            ],
            primary_key: Ok("id".to_string()),
        },
        TableIntrospection {
            name: "no_key".to_string(),
            columns: vec![("x".to_string(), "TEXT".to_string(), false)],
            primary_key: Err(ConnectorError::NoPrimaryKey("no_key".to_string())),
        },
    ];
    let config = build_generated_config(
        "sqlite".to_string(),
        "/tmp/app.db".to_string(),
        "http://localhost:7701".to_string(),
        60,
        &introspections,
    )
    .unwrap();
    assert_eq!(config.database.type_, "sqlite");
    assert_eq!(config.database.connection_string, "/tmp/app.db");
    assert_eq!(config.database.poll_interval_seconds, Some(60));
    assert_eq!(config.database.connection_pool_size, 5);
    assert_eq!(config.database.max_concurrent_batches, 5);
    assert_eq!(config.database.document_batch_size, 100);
    assert_eq!(config.meilisearch.host, "http://localhost:7701");
    assert_eq!(config.meilisearch.api_key, None);
    // The keyless table is skipped; the keyed one indexes every column.
    assert_eq!(config.database.tables.len(), 1);
    let t = &config.database.tables[0];
    assert_eq!(t.name, "users");
    assert_eq!(t.primary_key, "id");
    assert_eq!(t.index_name, None);
    assert_eq!(t.fields_to_index, vec!["id".to_string(), "name".to_string()]);
    assert!(t.watch_for_changes);
    assert_eq!(t.typo_tolerance.map(|tt| tt.enabled), Some(true));
}

#[test]
fn generated_config_needs_at_least_one_keyed_table() {
    let introspections = vec![TableIntrospection {
        name: "no_key".to_string(),
        columns: Vec::new(),
        primary_key: Err(ConnectorError::NoPrimaryKey("no_key".to_string())),
    }];
    match build_generated_config(
        "sqlite".to_string(),
        "a.db".to_string(),
        "http://localhost:7701".to_string(),
        60,
        &introspections,
    ) {
        Err(e) => assert_eq!(
            e.message(),
            "Config error: No tables with primary keys found in database"
        ),
        Ok(_) => panic!("empty generation accepted"),
    }
}

#[test]
fn generation_stops_on_a_database_error() {
    let introspections = vec![
        TableIntrospection {
            name: "ok".to_string(),
            columns: Vec::new(),
            primary_key: Ok("id".to_string()),
        },
        TableIntrospection {
            name: "broken".to_string(),
            columns: Vec::new(),
            primary_key: Err(ConnectorError::Database("disk gone".to_string())),
        },
    ];
    match build_generated_config(
        "sqlite".to_string(),
        "a.db".to_string(),
        "http://localhost:7701".to_string(),
        60,
        &introspections,
    ) {
        Err(e) => assert_eq!(e.message(), "Database error: disk gone"),
        Ok(_) => panic!("error was swallowed"),
    }
}
