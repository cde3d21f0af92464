use std::str::FromStr;
use sqel::app::AddConnectionRequest;
use sqel::domain::{AuthMode, ConnectionKind, ConnectionName, DriverType, StrMap};

#[test]
fn valid_network_connection_with_password() {
    let result = AddConnectionRequest::new(
        ConnectionName::from_str("dev").unwrap(),
        DriverType::Postgres,
        ConnectionKind::Network {
            host: "localhost".into(),
            port: 5432,
            db: "testdb".into(),
            user: "admin".into(),
        },
        AuthMode::Password,
        Some("secret".into()),
        StrMap::new(),
        false,
        false,
    );
    assert!(result.is_ok());
}

#[test]
fn valid_network_connection_no_auth() {
    let result = AddConnectionRequest::new(
        ConnectionName::from_str("dev").unwrap(),
        DriverType::Postgres,
        ConnectionKind::Network {
            host: "localhost".into(),
            port: 5432,
            db: "testdb".into(),
            user: "admin".into(),
        },
        AuthMode::NoAuth,
        None,
        StrMap::new(),
        false,
        false,
    );
    assert!(result.is_ok());
}

#[test]
fn valid_sqlite_connection() {
    let result = AddConnectionRequest::new(
        ConnectionName::from_str("local").unwrap(),
        DriverType::Sqlite,
        ConnectionKind::Sqlite { path: "/tmp/test.db".to_string() },
        AuthMode::NoAuth,
        None,
        StrMap::new(),
        false,
        false,
    );
    assert!(result.is_ok());
}

#[test]
fn password_auth_without_password_fails() {
    let result = AddConnectionRequest::new(
        ConnectionName::from_str("dev").unwrap(),
        DriverType::Postgres,
        ConnectionKind::Network {
            host: "localhost".into(),
            port: 5432,
            db: "testdb".into(),
            user: "admin".into(),
        },
        AuthMode::Password,
        None,
        StrMap::new(),
        false,
        false,
    );
    let err = result.unwrap_err();
    assert!(err.to_string().contains("password is required"));
}

#[test]
fn no_auth_with_password_fails() {
    let result = AddConnectionRequest::new(
        ConnectionName::from_str("dev").unwrap(),
        DriverType::Postgres,
        ConnectionKind::Network {
            host: "localhost".into(),
            port: 5432,
            db: "testdb".into(),
            user: "admin".into(),
        },
        AuthMode::NoAuth,
        Some("secret".into()),
        StrMap::new(),
        false,
        false,
    );
    let err = result.unwrap_err();
    assert!(err.to_string().contains("auth mode is none"));
}

#[test]
fn sqlite_with_password_auth_fails() {
    let result = AddConnectionRequest::new(
        ConnectionName::from_str("local").unwrap(),
        DriverType::Sqlite,
        ConnectionKind::Sqlite { path: "/tmp/test.db".to_string() },
        AuthMode::Password,
        Some("secret".into()),
        StrMap::new(),
        false,
        false,
    );
    let err = result.unwrap_err();
    assert!(err.to_string().contains("SQLite"));
}
