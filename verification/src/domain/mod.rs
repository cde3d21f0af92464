//! The data that the tool keeps about database connections.

pub mod connection;
pub mod driver_type;
pub mod config;


pub use driver_type::DriverType;
pub use connection::{AuthMode, Connection, ConnectionKind, ConnectionName, ConnectionNameError, CredentialStorage};
pub use config::{Config, ConfigError};

pub use crate::str_map::StrMap;
