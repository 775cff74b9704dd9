//! The declarative configuration: which tables to mirror into which indices,
//! how often to reconcile, and per-index tuning.
//!
//! The configuration is immutable once constructed. Loading it from a file
//! and serializing it back are boundary concerns; this module holds the
//! structure, the defaults, and the construction of a configuration from a
//! schema introspection.

use vstd::prelude::*;

use crate::error::ConnectorError;
use crate::error::SpecConnectorError;
use crate::strings::clone_string_vec;
use crate::strings::str_vec_view;

verus! {

/// Per-index typo-tolerance tuning.
#[derive(Debug, PartialEq, Eq, Clone, Copy)]
pub struct TypoToleranceConfig {
    pub enabled: bool,
}

/// One mirrored table and its index settings.
#[derive(Debug, PartialEq, Eq)]
pub struct TableConfig {
    pub name: String,
    pub primary_key: String,
    pub index_name: Option<String>,
    pub fields_to_index: Vec<String>,
    pub watch_for_changes: bool,
    pub searchable_attributes: Option<Vec<String>>,
    pub ranking_rules: Option<Vec<String>>,
    pub typo_tolerance: Option<TypoToleranceConfig>,
}

/// The mathematical form of a `TableConfig`.
pub struct SpecTableConfig {
    pub name: Seq<char>,
    pub primary_key: Seq<char>,
    pub index_name: Option<Seq<char>>,
    pub fields_to_index: Seq<Seq<char>>,
    pub watch_for_changes: bool,
    pub searchable_attributes: Option<Seq<Seq<char>>>,
    pub ranking_rules: Option<Seq<Seq<char>>>,
    pub typo_tolerance: Option<bool>,
}

impl View for TableConfig {
    type V = SpecTableConfig;

    open spec fn view(&self) -> SpecTableConfig {
        SpecTableConfig {
            name: self.name@,
            primary_key: self.primary_key@,
            index_name: match self.index_name {
                Some(s) => Some(s@),
                None => None,
            },
            fields_to_index: str_vec_view(self.fields_to_index@),
            watch_for_changes: self.watch_for_changes,
            searchable_attributes: match self.searchable_attributes {
                Some(v) => Some(str_vec_view(v@)),
                None => None,
            },
            ranking_rules: match self.ranking_rules {
                Some(v) => Some(str_vec_view(v@)),
                None => None,
            },
            typo_tolerance: match self.typo_tolerance {
                Some(t) => Some(t.enabled),
                None => None,
            },
        }
    }
}

impl Clone for TableConfig {
    fn clone(&self) -> (res: Self)
        ensures
            res@ == self@,
    {
        TableConfig {
            name: self.name.clone(),
            primary_key: self.primary_key.clone(),
            index_name: match &self.index_name {
                Some(s) => Some(s.clone()),
                None => None,
            },
            fields_to_index: clone_string_vec(&self.fields_to_index),
            watch_for_changes: self.watch_for_changes,
            searchable_attributes: match &self.searchable_attributes {
                Some(v) => Some(clone_string_vec(v)),
                None => None,
            },
            ranking_rules: match &self.ranking_rules {
                Some(v) => Some(clone_string_vec(v)),
                None => None,
            },
            typo_tolerance: self.typo_tolerance,
        }
    }
}

/// The search-service endpoint.
#[derive(Debug, PartialEq, Eq)]
pub struct MeilisearchConfig {
    pub host: String,
    pub api_key: Option<String>,
}

/// The mathematical form of a `MeilisearchConfig`.
pub struct SpecMeilisearchConfig {
    pub host: Seq<char>,
    pub api_key: Option<Seq<char>>,
}

impl View for MeilisearchConfig {
    type V = SpecMeilisearchConfig;

    open spec fn view(&self) -> SpecMeilisearchConfig {
        SpecMeilisearchConfig {
            host: self.host@,
            api_key: match self.api_key {
                Some(s) => Some(s@),
                None => None,
            },
        }
    }
}

/// The database side: connection, polling cadence, tables, tuning.
#[derive(Debug, PartialEq, Eq)]
pub struct DatabaseConfig {
    pub type_: String,
    pub connection_string: String,
    pub poll_interval_seconds: Option<u64>,
    pub tables: Vec<TableConfig>,
    pub connection_pool_size: u32,
    pub max_concurrent_batches: usize,
    pub document_batch_size: usize,
}

/// The mathematical form of a `DatabaseConfig`.
pub struct SpecDatabaseConfig {
    pub type_: Seq<char>,
    pub connection_string: Seq<char>,
    pub poll_interval_seconds: Option<u64>,
    pub tables: Seq<SpecTableConfig>,
    pub connection_pool_size: u32,
    pub max_concurrent_batches: usize,
    pub document_batch_size: usize,
}

impl View for DatabaseConfig {
    type V = SpecDatabaseConfig;

    open spec fn view(&self) -> SpecDatabaseConfig {
        SpecDatabaseConfig {
            type_: self.type_@,
            connection_string: self.connection_string@,
            poll_interval_seconds: self.poll_interval_seconds,
            tables: self.tables@.map_values(|t: TableConfig| t@),
            connection_pool_size: self.connection_pool_size,
            max_concurrent_batches: self.max_concurrent_batches,
            document_batch_size: self.document_batch_size,
        }
    }
}

/// The whole configuration document.
#[derive(Debug, PartialEq, Eq)]
pub struct Config {
    pub database: DatabaseConfig,
    pub meilisearch: MeilisearchConfig,
}

/// The mathematical form of a `Config`.
pub struct SpecConfig {
    pub database: SpecDatabaseConfig,
    pub meilisearch: SpecMeilisearchConfig,
}

impl View for Config {
    type V = SpecConfig;

    open spec fn view(&self) -> SpecConfig {
        SpecConfig { database: self.database@, meilisearch: self.meilisearch@ }
    }
}

/// Default size of the database connection pool.
pub fn default_connection_pool_size() -> (r: u32)
    ensures
        r == 5u32,
{
    5
}

/// Default bound on upsert batches in flight.
pub fn default_max_concurrent_batches() -> (r: usize)
    ensures
        r == 5usize,
{
    5
}

/// Default number of documents per upsert batch.
pub fn default_document_batch_size() -> (r: usize)
    ensures
        r == 100usize,
{
    100
}

/// The index a table populates: the configured index name, or the table's
/// own name when none is configured.
pub open spec fn spec_index_name(t: SpecTableConfig) -> Seq<char> {
    match t.index_name {
        Some(n) => n,
        None => t.name,
    }
}

impl TableConfig {
    /// The index this table populates.
    pub fn effective_index_name(&self) -> (r: String)
        ensures
            r@ == spec_index_name(self@),
    {
        match &self.index_name {
            Some(n) => n.clone(),
            None => self.name.clone(),
        }
    }
}

/// The polling cadence in seconds: the configured value, or 60.
pub open spec fn spec_poll_interval(d: SpecDatabaseConfig) -> u64 {
    match d.poll_interval_seconds {
        Some(n) => n,
        None => 60u64,
    }
}

impl DatabaseConfig {
    /// The polling cadence in seconds.
    pub fn effective_poll_interval(&self) -> (r: u64)
        ensures
            r == spec_poll_interval(self@),
    {
        match self.poll_interval_seconds {
            Some(n) => n,
            None => 60,
        }
    }
}

/// What schema introspection found for one table: its name, its columns as
/// (name, declared type, is-primary-key), and the primary-key lookup result.
#[derive(Debug)]
pub struct TableIntrospection {
    pub name: String,
    pub columns: Vec<(String, String, bool)>,
    pub primary_key: Result<String, ConnectorError>,
}

/// The mathematical form of a `TableIntrospection`.
pub struct SpecTableIntrospection {
    pub name: Seq<char>,
    pub columns: Seq<(Seq<char>, Seq<char>, bool)>,
    pub primary_key: Result<Seq<char>, SpecConnectorError>,
}

impl View for TableIntrospection {
    type V = SpecTableIntrospection;

    open spec fn view(&self) -> SpecTableIntrospection {
        SpecTableIntrospection {
            name: self.name@,
            columns: self.columns@.map_values(|c: (String, String, bool)| (c.0@, c.1@, c.2)),
            primary_key: match &self.primary_key {
                Ok(pk) => Ok(pk@),
                Err(e) => Err(e@),
            },
        }
    }
}

/// The table entry generated for one introspected table with primary key
/// `pk`: every column indexed, changes watched, typo tolerance on.
pub open spec fn spec_generated_table(t: SpecTableIntrospection, pk: Seq<char>) -> SpecTableConfig {
    SpecTableConfig {
        name: t.name,
        primary_key: pk,
        index_name: None,
        fields_to_index: t.columns.map_values(|c: (Seq<char>, Seq<char>, bool)| c.0),
        watch_for_changes: true,
        searchable_attributes: None,
        ranking_rules: None,
        typo_tolerance: Some(true),
    }
}

/// The table entries generated from an introspection: tables without a
/// primary key are skipped; the first other lookup error aborts.
pub open spec fn spec_generated_tables(ts: Seq<SpecTableIntrospection>) -> Result<
    Seq<SpecTableConfig>,
    SpecConnectorError,
>
    decreases ts.len(),
{
    if ts.len() == 0 {
        Ok(Seq::<SpecTableConfig>::empty())
    } else {
        match spec_generated_tables(ts.drop_last()) {
            Err(e) => Err(e),
            Ok(acc) => match ts.last().primary_key {
                Ok(pk) => Ok(acc.push(spec_generated_table(ts.last(), pk))),
                Err(e) => if e is NoPrimaryKey {
                    Ok(acc)
                } else {
                    Err(e)
                },
            },
        }
    }
}

proof fn lemma_generated_tables_prefix_err(ts: Seq<SpecTableIntrospection>, k: int)
    requires
        0 <= k <= ts.len(),
        spec_generated_tables(ts.subrange(0, k)) is Err,
    ensures
        spec_generated_tables(ts) == spec_generated_tables(ts.subrange(0, k)),
    decreases ts.len() - k,
{
    if k == ts.len() {
        assert(ts.subrange(0, ts.len() as int) =~= ts);
    } else {
        assert(ts.subrange(0, k + 1).drop_last() =~= ts.subrange(0, k));
        assert(spec_generated_tables(ts.subrange(0, k + 1)) == spec_generated_tables(
            ts.subrange(0, k),
        ));
        lemma_generated_tables_prefix_err(ts, k + 1);
    }
}

/// Builds the configuration generated from a schema introspection: the
/// generated table entries with the connector's defaults around them.
///
/// Fails with the first primary-key lookup error that is not "no primary
/// key", and with a `Config` error when no table with a primary key remains.
pub fn build_generated_config(
    db_type: String,
    connection_string: String,
    meilisearch_host: String,
    poll_interval_seconds: u64,
    tables: &Vec<TableIntrospection>,
) -> (r: Result<Config, ConnectorError>)
    ensures
        match spec_generated_tables(tables@.map_values(|t: TableIntrospection| t@)) {
            Err(e) => r is Err && r->Err_0@ == e,
            Ok(ts) => if ts.len() == 0 {
                r is Err && r->Err_0@ == SpecConnectorError::Config(
                    "No tables with primary keys found in database"@,
                )
            } else {
                &&& r is Ok
                &&& r->Ok_0@.database.type_ == db_type@
                &&& r->Ok_0@.database.connection_string == connection_string@
                &&& r->Ok_0@.database.poll_interval_seconds == Some(poll_interval_seconds)
                &&& r->Ok_0@.database.tables == ts
                &&& r->Ok_0@.database.connection_pool_size == 5u32
                &&& r->Ok_0@.database.max_concurrent_batches == 5usize
                &&& r->Ok_0@.database.document_batch_size == 100usize
                &&& r->Ok_0@.meilisearch.host == meilisearch_host@
                &&& r->Ok_0@.meilisearch.api_key is None
            },
        },
{
    let ghost all = tables@.map_values(|t: TableIntrospection| t@);
    let mut table_configs: Vec<TableConfig> = Vec::new();
    let mut i: usize = 0;
    proof {
        assert(all.subrange(0, 0) =~= Seq::<SpecTableIntrospection>::empty());
        assert(table_configs@.map_values(|t: TableConfig| t@) =~= Seq::<
            SpecTableConfig,
        >::empty());
    }
    while i < tables.len()
        invariant
            i <= tables@.len(),
            all == tables@.map_values(|t: TableIntrospection| t@),
            spec_generated_tables(all.subrange(0, i as int)) == Ok::<_, SpecConnectorError>(
                table_configs@.map_values(|t: TableConfig| t@),
            ),
        decreases tables@.len() - i,
    {
        let ghost prefix = all.subrange(0, i as int);
        let ghost ext = all.subrange(0, i + 1);
        proof {
            assert(ext.drop_last() =~= prefix);
            assert(ext.last() == all[i as int]);
            assert(all[i as int] == tables@[i as int]@);
        }
        let t = &tables[i];
        match &t.primary_key {
            Ok(pk) => {
                let mut fields: Vec<String> = Vec::new();
                let mut j: usize = 0;
                while j < t.columns.len()
                    invariant
                        j <= t.columns@.len(),
                        fields@.len() == j,
                        forall|k: int| 0 <= k < j ==> fields@[k]@ == t.columns@[k].0@,
                    decreases t.columns@.len() - j,
                {
                    fields.push(t.columns[j].0.clone());
                    j = j + 1;
                }
                proof {
                    assert(str_vec_view(fields@) =~= all[i as int].columns.map_values(
                        |c: (Seq<char>, Seq<char>, bool)| c.0,
                    ));
                }
                let entry = TableConfig {
                    name: t.name.clone(),
                    primary_key: pk.clone(),
                    index_name: None,
                    fields_to_index: fields,
                    watch_for_changes: true,
                    searchable_attributes: None,
                    ranking_rules: None,
                    typo_tolerance: Some(TypoToleranceConfig { enabled: true }),
                };
                proof {
                    assert(entry@ == spec_generated_table(
                        all[i as int],
                        all[i as int].primary_key->Ok_0,
                    ));
                }
                let ghost pre_tables = table_configs@;
                table_configs.push(entry);
                proof {
                    assert(table_configs@.map_values(|t: TableConfig| t@) =~= pre_tables.map_values(
                        |t: TableConfig| t@,
                    ).push(spec_generated_table(all[i as int], all[i as int].primary_key->Ok_0)));
                }
            },
            Err(e) => {
                let is_no_pk = match e {
                    ConnectorError::NoPrimaryKey(_) => true,
                    _ => false,
                };
                if !is_no_pk {
                    proof {
                        assert(spec_generated_tables(ext) == Err::<Seq<SpecTableConfig>, _>(e@));
                        lemma_generated_tables_prefix_err(all, i + 1);
                    }
                    return Err(e.clone());
                }
            },
        }
        i = i + 1;
    }
    proof {
        assert(all.subrange(0, all.len() as int) =~= all);
    }
    if table_configs.len() == 0 {
        return Err(
            ConnectorError::Config(
                String::from_str("No tables with primary keys found in database"),
            ),
        );
    }
    Ok(
        Config {
            database: DatabaseConfig {
                type_: db_type,
                connection_string,
                poll_interval_seconds: Some(poll_interval_seconds),
                tables: table_configs,
                connection_pool_size: default_connection_pool_size(),
                max_concurrent_batches: default_max_concurrent_batches(),
                document_batch_size: default_document_batch_size(),
            },
            meilisearch: MeilisearchConfig { host: meilisearch_host, api_key: None },
        },
    )
}

} // verus!
