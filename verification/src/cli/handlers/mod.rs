//! The decisions of the commands: what to ask for, what to store, and what
//! to tell the user.

pub mod connection_handler;
pub mod query_handler;
