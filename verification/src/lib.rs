//! Named database connections: validated connection names, a saved
//! connection configuration, the connection service that keeps secrets and
//! configuration in step, and the SQL text handling of the query command.

pub mod text;
pub mod str_map;
pub mod domain;
pub mod ports;
pub mod app;
pub mod cli;
pub mod infra;
