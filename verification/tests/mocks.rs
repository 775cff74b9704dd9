use meilisearch_sql_connector::common::{MockMeilisearchClient, MockSqliteAdapter};
use meilisearch_sql_connector::config::TableConfig;
use meilisearch_sql_connector::sync::plan_table_sync;

fn table(name: &str, pk: &str) -> TableConfig {
    TableConfig {
        name: name.to_string(),
        primary_key: pk.to_string(),
        index_name: None,
        fields_to_index: Vec::new(),
        watch_for_changes: true,
        searchable_attributes: None,
        ranking_rules: None,
        typo_tolerance: None,
    }
}

#[test]
fn test_mock_integration() {
    let adapter = MockSqliteAdapter::new();

    let tables = adapter.get_all_tables().unwrap();
    assert!(tables.contains(&"test".to_string()), "Test table not found");

    let pk = adapter.get_primary_key("test").unwrap();
    assert_eq!(pk, "id", "Primary key should be 'id'");

    let records = adapter.fetch_all_records("test").unwrap();
    assert!(records.is_empty(), "Mock should return empty records list");
}

#[test]
fn test_mock_sqlite_adapter() {
    let adapter = MockSqliteAdapter::new();

    let tables = adapter.get_all_tables().unwrap();
    assert_eq!(tables, vec!["test".to_string()]);

    let columns = adapter.get_table_columns("test").unwrap();
    assert_eq!(columns.len(), 1);
    assert_eq!(columns[0].0, "id");
    assert_eq!(columns[0].1, "INTEGER");
    assert!(columns[0].2);

    let primary_key = adapter.get_primary_key("test").unwrap();
    assert_eq!(primary_key, "id");

    let records = adapter.fetch_all_records("test").unwrap();
    assert!(records.is_empty());
}

#[test]
fn mock_client_accepts_everything() {
    let client = MockMeilisearchClient::new();
    assert!(client.setup_index("test_index").is_ok());
    let docs = client.get_all_documents("test_index").unwrap();
    assert!(docs.is_empty());
    assert!(client.add_or_update_documents("test_index", &Vec::new()).is_ok());
    assert!(client.delete_documents("test_index", &Vec::new()).is_ok());
}

#[test]
fn empty_mock_sides_plan_nothing() {
    // A cycle over the mock adapter's rows and the mock client's documents
    // has nothing to delete and nothing to upsert.
    let t = table("test", "id");
    let adapter = MockSqliteAdapter::new();
    let client = MockMeilisearchClient::new();
    let db_docs = adapter.fetch_all_records("test").unwrap();
    let meili_docs = client.get_all_documents("test").unwrap();
    let plan = plan_table_sync(&t, &meili_docs, &db_docs);
    assert!(plan.ids_to_delete.is_empty());
    assert!(plan.documents_to_add.is_empty());
}
