//! Mock collaborators for tests: a search client that accepts everything
//! and holds nothing, and a database adapter with one `test` table keyed by
//! `id` and no rows.

use vstd::prelude::*;

use crate::document::Document;
use crate::error::ConnectorError;

verus! {

/// A search client that accepts every call and holds no documents.
#[derive(Debug)]
pub struct MockMeilisearchClient;

impl MockMeilisearchClient {
    pub fn new() -> (r: MockMeilisearchClient)
        ensures
            r == MockMeilisearchClient,
    {
        MockMeilisearchClient
    }

    /// Accepts any index setup.
    pub fn setup_index(&self, index_name: &str) -> (r: Result<(), ConnectorError>)
        ensures
            r is Ok,
    {
        Ok(())
    }

    /// Holds no documents.
    pub fn get_all_documents(&self, index_name: &str) -> (r: Result<Vec<Document>, ConnectorError>)
        ensures
            r is Ok && r->Ok_0@.len() == 0,
    {
        Ok(Vec::new())
    }

    /// Accepts any upsert.
    pub fn add_or_update_documents(&self, index_name: &str, documents: &Vec<Document>) -> (r:
        Result<(), ConnectorError>)
        ensures
            r is Ok,
    {
        Ok(())
    }

    /// Accepts any deletion.
    pub fn delete_documents(&self, index_name: &str, ids: &Vec<String>) -> (r: Result<
        (),
        ConnectorError,
    >)
        ensures
            r is Ok,
    {
        Ok(())
    }
}

/// A database adapter with a single table `test`, keyed by its only column
/// `id`, holding no rows.
#[derive(Debug)]
pub struct MockSqliteAdapter;

impl MockSqliteAdapter {
    pub fn new() -> (r: MockSqliteAdapter)
        ensures
            r == MockSqliteAdapter,
    {
        MockSqliteAdapter
    }

    /// The single table `test`.
    pub fn get_all_tables(&self) -> (r: Result<Vec<String>, ConnectorError>)
        ensures
            r is Ok,
            r->Ok_0@.len() == 1,
            r->Ok_0@[0]@ == "test"@,
    {
        let mut tables: Vec<String> = Vec::new();
        tables.push(String::from_str("test"));
        Ok(tables)
    }

    /// The single integer column `id`, which is the primary key.
    pub fn get_table_columns(&self, table: &str) -> (r: Result<
        Vec<(String, String, bool)>,
        ConnectorError,
    >)
        ensures
            r is Ok,
            r->Ok_0@.len() == 1,
            r->Ok_0@[0].0@ == "id"@,
            r->Ok_0@[0].1@ == "INTEGER"@,
            r->Ok_0@[0].2,
    {
        let mut columns: Vec<(String, String, bool)> = Vec::new();
        columns.push((String::from_str("id"), String::from_str("INTEGER"), true));
        Ok(columns)
    }

    /// The primary key is `id`.
    pub fn get_primary_key(&self, table: &str) -> (r: Result<String, ConnectorError>)
        ensures
            r is Ok,
            r->Ok_0@ == "id"@,
    {
        Ok(String::from_str("id"))
    }

    /// No rows.
    pub fn fetch_all_records(&self, table: &str) -> (r: Result<Vec<Document>, ConnectorError>)
        ensures
            r is Ok && r->Ok_0@.len() == 0,
    {
        Ok(Vec::new())
    }
}

} // verus!
