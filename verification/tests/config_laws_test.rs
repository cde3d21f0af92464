use std::str::FromStr;

use sqel::domain::{AuthMode, Config, Connection, ConnectionKind, ConnectionName, CredentialStorage, DriverType, StrMap};

fn conn(name: &str, host: &str) -> Connection {
    Connection::new(
        ConnectionName::from_str(name).unwrap(),
        DriverType::Postgres,
        ConnectionKind::Network { host: host.into(), port: 5432, db: "db".into(), user: "u".into() },
        AuthMode::NoAuth,
        CredentialStorage::NotStored,
        StrMap::new(),
    )
}

#[test]
fn remove_undoes_add_of_new_name() {
    let mut config = Config::empty();
    config.add(conn("alpha", "a"), true, false).unwrap();
    config.add(conn("beta", "b"), false, false).unwrap();
    let removed = config.remove(&ConnectionName::from_str("beta").unwrap()).unwrap();
    assert_eq!(removed.location(), "b:5432/db");
    let names: Vec<&str> = config.list().map(|c| c.name().as_str()).collect();
    assert_eq!(names, vec!["alpha"]);
    assert_eq!(config.get_default().map(|n| n.as_str()), Some("alpha"));
}

#[test]
fn get_after_add_gives_the_connection() {
    let mut config = Config::empty();
    config.add(conn("dev", "h1"), false, false).unwrap();
    config.add(conn("dev", "h2"), false, true).unwrap();
    let got = config.get(&ConnectionName::from_str("dev").unwrap()).unwrap();
    assert_eq!(got.location(), "h2:5432/db");
}

#[test]
fn list_is_in_name_order() {
    let mut config = Config::empty();
    for n in ["zeta", "Alpha", "beta", "alpha"] {
        config.add(conn(n, "h"), false, false).unwrap();
    }
    let names: Vec<&str> = config.list().map(|c| c.name().as_str()).collect();
    assert_eq!(names, vec!["Alpha", "alpha", "beta", "zeta"]);
}

#[test]
fn unset_after_set_default_gives_the_name() {
    let mut config = Config::empty();
    config.add(conn("dev", "h"), false, false).unwrap();
    config.set_default(&ConnectionName::from_str("dev").unwrap()).unwrap();
    assert_eq!(config.unset_default().map(|n| n.as_str().to_string()), Some("dev".to_string()));
    assert_eq!(config.list().count(), 1);
}

#[test]
fn string_map_keeps_keys_sorted_and_replaces() {
    let mut m: StrMap<i32> = StrMap::new();
    assert_eq!(m.insert("b".to_string(), 1), None);
    assert_eq!(m.insert("a".to_string(), 2), None);
    assert_eq!(m.insert("b".to_string(), 3), Some(1));
    assert_eq!(m.keys(), &["a".to_string(), "b".to_string()]);
    assert_eq!(m.get("b"), Some(&3));
    assert_eq!(m.remove("a"), Some(2));
    assert!(!m.contains_key("a"));
    assert_eq!(m.len(), 1);
}

#[test]
fn shown_name_names_the_engine() {
    for d in [DriverType::Postgres, DriverType::Mysql, DriverType::Sqlite] {
        assert_eq!(DriverType::from_scheme(&d.to_string()), Some(d));
        assert_eq!(d.default_port().is_some(), d != DriverType::Sqlite);
    }
    for s in DriverType::supported_schemes_iter() {
        assert!(DriverType::from_scheme(s).is_some());
    }
}
