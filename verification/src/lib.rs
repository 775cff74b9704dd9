//! Keeps a Meilisearch full-text index consistent with the tables of a SQL
//! database by periodic set-difference reconciliation.
//!
//! The crate verifies the reconciliation core: the primary-key identity rule,
//! document normalization, the three-way diff, batching, the bounded
//! concurrency window and the per-table scheduling states. Database and
//! search-service I/O live outside the library and hand it plain values.

use vstd::prelude::*;

pub mod cli;
pub mod common;
pub mod config;
pub mod connector;
pub mod database;
pub mod document;
pub mod error;
pub mod logging;
pub mod meilisearch;
pub mod strings;
pub mod sync;

pub use config::Config;
pub use error::ConnectorError;

verus! {

/// The number of bytes a serialized document may not exceed.
pub const MAX_DOCUMENT_BYTES: u64 = 10_000_000;

/// The number of code points a text field is truncated to.
pub const MAX_TEXT_LENGTH: usize = 10_000_000;

/// The number of fields a document may not exceed.
pub const MAX_FIELDS: usize = 65_536;

} // verus!
