//! The connection service: adds, lists, removes and selects saved
//! connections, keeping the secret store and the configuration in step.

pub mod connection_service;

pub use connection_service::{
    AddConnectionRequest, AppError, ConnectionService, ConnectionWarning, ListResult, RequestError,
};
