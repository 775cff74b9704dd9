//! The connector's error kinds.
//!
//! A flat taxonomy carrying a human-readable detail string; adapters at the
//! boundary map their own error types into these kinds.

use vstd::prelude::*;

use crate::strings::concat_str;

verus! {

/// Everything that can go wrong in the connector.
#[derive(Debug, PartialEq, Eq)]
pub enum ConnectorError {
    Database(String),
    Meilisearch(String),
    Config(String),
    TomlSerialization(String),
    NoPrimaryKey(String),
    UnsupportedDatabaseType(String),
    Io(String),
    NotImplemented(String),
}

/// The mathematical form of a `ConnectorError`.
pub enum SpecConnectorError {
    Database(Seq<char>),
    Meilisearch(Seq<char>),
    Config(Seq<char>),
    TomlSerialization(Seq<char>),
    NoPrimaryKey(Seq<char>),
    UnsupportedDatabaseType(Seq<char>),
    Io(Seq<char>),
    NotImplemented(Seq<char>),
}

impl View for ConnectorError {
    type V = SpecConnectorError;

    open spec fn view(&self) -> SpecConnectorError {
        match self {
            ConnectorError::Database(m) => SpecConnectorError::Database(m@),
            ConnectorError::Meilisearch(m) => SpecConnectorError::Meilisearch(m@),
            ConnectorError::Config(m) => SpecConnectorError::Config(m@),
            ConnectorError::TomlSerialization(m) => SpecConnectorError::TomlSerialization(m@),
            ConnectorError::NoPrimaryKey(m) => SpecConnectorError::NoPrimaryKey(m@),
            ConnectorError::UnsupportedDatabaseType(m) => SpecConnectorError::UnsupportedDatabaseType(
                m@,
            ),
            ConnectorError::Io(m) => SpecConnectorError::Io(m@),
            ConnectorError::NotImplemented(m) => SpecConnectorError::NotImplemented(m@),
        }
    }
}

impl Clone for ConnectorError {
    fn clone(&self) -> (res: Self)
        ensures
            res@ == self@,
    {
        match self {
            ConnectorError::Database(m) => ConnectorError::Database(m.clone()),
            ConnectorError::Meilisearch(m) => ConnectorError::Meilisearch(m.clone()),
            ConnectorError::Config(m) => ConnectorError::Config(m.clone()),
            ConnectorError::TomlSerialization(m) => ConnectorError::TomlSerialization(m.clone()),
            ConnectorError::NoPrimaryKey(m) => ConnectorError::NoPrimaryKey(m.clone()),
            ConnectorError::UnsupportedDatabaseType(m) => ConnectorError::UnsupportedDatabaseType(
                m.clone(),
            ),
            ConnectorError::Io(m) => ConnectorError::Io(m.clone()),
            ConnectorError::NotImplemented(m) => ConnectorError::NotImplemented(m.clone()),
        }
    }
}

/// The human-readable line for one error.
pub open spec fn error_message(e: SpecConnectorError) -> Seq<char> {
    match e {
        SpecConnectorError::Database(m) => "Database error: "@ + m,
        SpecConnectorError::Meilisearch(m) => "Meilisearch error: "@ + m,
        SpecConnectorError::Config(m) => "Config error: "@ + m,
        SpecConnectorError::TomlSerialization(m) => "TOML serialization error: "@ + m,
        SpecConnectorError::NoPrimaryKey(m) => "No primary key found for table: "@ + m,
        SpecConnectorError::UnsupportedDatabaseType(m) => "Unsupported database type: "@ + m,
        SpecConnectorError::Io(m) => "IO error: "@ + m,
        SpecConnectorError::NotImplemented(m) => "Not implemented: "@ + m,
    }
}

impl ConnectorError {
    /// The human-readable line for this error.
    pub fn message(&self) -> (r: String)
        ensures
            r@ == error_message(self@),
    {
        match self {
            ConnectorError::Database(m) => concat_str("Database error: ", m.as_str()),
            ConnectorError::Meilisearch(m) => concat_str("Meilisearch error: ", m.as_str()),
            ConnectorError::Config(m) => concat_str("Config error: ", m.as_str()),
            ConnectorError::TomlSerialization(m) => concat_str(
                "TOML serialization error: ",
                m.as_str(),
            ),
            ConnectorError::NoPrimaryKey(m) => concat_str(
                "No primary key found for table: ",
                m.as_str(),
            ),
            ConnectorError::UnsupportedDatabaseType(m) => concat_str(
                "Unsupported database type: ",
                m.as_str(),
            ),
            ConnectorError::Io(m) => concat_str("IO error: ", m.as_str()),
            ConnectorError::NotImplemented(m) => concat_str("Not implemented: ", m.as_str()),
        }
    }
}

} // verus!
