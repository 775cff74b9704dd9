//! The command-line surface, as plain data. Argument parsing and the
//! terminal live at the boundary; they hand these values in.

use vstd::prelude::*;

verus! {

/// The parsed command line.
#[derive(Debug, PartialEq, Eq)]
pub struct Cli {
    pub command: Option<Commands>,
}

/// The commands the connector offers.
#[derive(Debug, PartialEq, Eq)]
pub enum Commands {
    /// Run the connector with the configuration at this path.
    Run { config: String },
    /// Generate a configuration file from an existing database.
    Generate {
        database_url: String,
        meilisearch_host: String,
        meilisearch_key: Option<String>,
        output: String,
        poll_interval: u64,
    },
    /// Validate the configuration at this path.
    Validate { config: String },
}

} // verus!
