use vstd::prelude::*;
use crate::cli::output::OutputArgs;
use crate::domain::ConnectionName;

verus! {

/// What the query command was asked: which connection, and an inline query
/// or a file of statements.
#[derive(Debug, Clone)]
pub struct QueryCommand {
    pub conn: Option<ConnectionName>,
    pub query: Option<String>,
    pub file: Option<String>,
    pub output: OutputArgs,
}

} // verus!
