//! What the command line asks for, and the decisions that the commands make
//! before and after they talk to the user, the disk and the databases.

pub mod connection;
pub mod output;
pub mod query;
pub mod handlers;
pub mod console;
