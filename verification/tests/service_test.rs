use std::cell::RefCell;
use std::rc::Rc;
use std::str::FromStr;

use sqel::app::connection_service::{
    add_actions, credential_lookup, deletes_secret, keychain_password, rollback_after_save, secret_to_delete, store_outcome,
    typed_password, CredentialLookup,
};
use sqel::app::{AddConnectionRequest, AppError, ConnectionService, ConnectionWarning};
use sqel::domain::{
    AuthMode, Config, ConfigError, Connection, ConnectionKind, ConnectionName, CredentialStorage, DriverType, StrMap,
};
use sqel::ports::{
    ConfigStore, ConfigStoreError, CredentialError, CredentialProvider, SecretStore, SecretStoreError,
};

struct MemSecrets {
    log: Rc<RefCell<Vec<String>>>,
    fail_set: bool,
    stored: RefCell<Vec<(String, String)>>,
}

impl MemSecrets {
    fn new(fail_set: bool) -> Self {
        MemSecrets { log: Rc::new(RefCell::new(Vec::new())), fail_set, stored: RefCell::new(Vec::new()) }
    }
}

impl SecretStore for MemSecrets {
    fn get(&self, key: &str) -> Result<Option<String>, SecretStoreError> {
        self.log.borrow_mut().push(format!("get {key}"));
        Ok(self.stored.borrow().iter().find(|(k, _)| k == key).map(|(_, v)| v.clone()))
    }

    fn set(&self, key: &str, secret: &str) -> Result<(), SecretStoreError> {
        self.log.borrow_mut().push(format!("set {key} {secret}"));
        if self.fail_set {
            return Err(SecretStoreError::Unavailable("locked".to_string()));
        }
        self.stored.borrow_mut().retain(|(k, _)| k != key);
        self.stored.borrow_mut().push((key.to_string(), secret.to_string()));
        Ok(())
    }

    fn delete(&self, key: &str) -> Result<(), SecretStoreError> {
        self.log.borrow_mut().push(format!("delete {key}"));
        self.stored.borrow_mut().retain(|(k, _)| k != key);
        Ok(())
    }
}

struct MemConfig {
    saved: RefCell<(Option<ConnectionName>, Vec<Connection>)>,
    fail_save: bool,
    saves: RefCell<usize>,
}

impl MemConfig {
    fn new(fail_save: bool) -> Self {
        MemConfig { saved: RefCell::new((None, Vec::new())), fail_save, saves: RefCell::new(0) }
    }
}

impl ConfigStore for MemConfig {
    fn load(&self) -> Result<Config, ConfigStoreError> {
        let (d, cs) = self.saved.borrow().clone();
        Ok(Config::from_parts(d, cs))
    }

    fn save(&self, cfg: &Config) -> Result<(), ConfigStoreError> {
        *self.saves.borrow_mut() += 1;
        if self.fail_save {
            return Err(ConfigStoreError { message: "disk full".to_string() });
        }
        *self.saved.borrow_mut() = (cfg.get_default().cloned(), cfg.list().cloned().collect());
        Ok(())
    }
}

struct Typist {
    prompts: RefCell<Vec<String>>,
}

impl CredentialProvider for Typist {
    fn get_secret(&self, prompt: &str) -> Result<String, CredentialError> {
        self.prompts.borrow_mut().push(prompt.to_string());
        Ok("typed".to_string())
    }
}

fn name(s: &str) -> ConnectionName {
    ConnectionName::from_str(s).unwrap()
}

fn request(n: &str, auth: AuthMode, password: Option<&str>, overwrite: bool) -> AddConnectionRequest {
    AddConnectionRequest::new(
        name(n),
        DriverType::Postgres,
        ConnectionKind::Network { host: "h".into(), port: 5432, db: "d".into(), user: "u".into() },
        auth,
        password.map(|p| p.to_string()),
        StrMap::new(),
        false,
        overwrite,
    )
    .unwrap()
}

fn storage_of(svc: &ConnectionService<MemSecrets, MemConfig>, n: &str) -> CredentialStorage {
    let listed = svc.list().ok().unwrap();
    listed.connections.iter().find(|c| c.name().as_str() == n).unwrap().credential_storage()
}

#[test]
fn plain_add_stores_the_password() {
    let svc = ConnectionService::new(MemSecrets::new(false), MemConfig::new(false));
    let w = svc.add(request("dev", AuthMode::Password, Some("pw"), false)).ok().unwrap();
    assert!(w.is_empty());
    assert_eq!(storage_of(&svc, "dev"), CredentialStorage::KeyStore);
}

#[test]
fn keychain_failure_falls_back_to_prompt() {
    let svc = ConnectionService::new(MemSecrets::new(true), MemConfig::new(false));
    let w = svc.add(request("dev", AuthMode::Password, Some("pw"), false)).ok().unwrap();
    assert_eq!(w.len(), 1);
    assert!(matches!(&w[0], ConnectionWarning::KeychainFailed(m) if m == "secret store unavailable: locked"));
    assert_eq!(storage_of(&svc, "dev"), CredentialStorage::Prompt);
}

#[test]
fn failed_save_rolls_back_the_secret() {
    let secrets = MemSecrets::new(false);
    let log = secrets.log.clone();
    let svc = ConnectionService::new(secrets, MemConfig::new(true));
    let r = svc.add(request("dev", AuthMode::Password, Some("pw"), false));
    assert!(matches!(r, Err(AppError::Store(_))));
    assert_eq!(log.borrow().clone(), vec!["set dev pw".to_string(), "delete dev".to_string()]);
}

#[test]
fn refused_add_leaves_the_existing_secret() {
    let secrets = MemSecrets::new(false);
    let log = secrets.log.clone();
    let svc = ConnectionService::new(secrets, MemConfig::new(false));
    svc.add(request("dev", AuthMode::Password, Some("old"), false)).ok().unwrap();
    let r = svc.add(request("dev", AuthMode::Password, Some("new"), false));
    assert_eq!(log.borrow().clone(), vec!["set dev old".to_string()]);
    assert!(matches!(r, Err(AppError::Config(ConfigError::AlreadyExists))));
    let typist = Typist { prompts: RefCell::new(Vec::new()) };
    let (_, pw) = svc.resolve_connection(Some(name("dev")), &typist).ok().unwrap();
    assert_eq!(pw, Some("old".to_string()));
}

#[test]
fn overwrite_without_password_deletes_the_old_secret() {
    let secrets = MemSecrets::new(false);
    let log = secrets.log.clone();
    let svc = ConnectionService::new(secrets, MemConfig::new(false));
    svc.add(request("dev", AuthMode::Password, Some("old"), false)).ok().unwrap();
    let w = svc.add(request("dev", AuthMode::NoAuth, None, true)).ok().unwrap();
    assert_eq!(log.borrow().clone(), vec!["set dev old".to_string(), "delete dev".to_string()]);
    assert!(w.is_empty());
    assert_eq!(storage_of(&svc, "dev"), CredentialStorage::NotStored);
    let typist = Typist { prompts: RefCell::new(Vec::new()) };
    let (_, pw) = svc.resolve_connection(Some(name("dev")), &typist).ok().unwrap();
    assert_eq!(pw, None);
}

#[test]
fn remove_deletes_a_kept_secret() {
    let secrets = MemSecrets::new(false);
    let log = secrets.log.clone();
    let svc = ConnectionService::new(secrets, MemConfig::new(false));
    svc.add(request("dev", AuthMode::Password, Some("pw"), false)).ok().unwrap();
    svc.add(request("open", AuthMode::NoAuth, None, false)).ok().unwrap();
    assert!(svc.remove(&name("dev")).ok().unwrap().is_empty());
    assert!(svc.remove(&name("open")).ok().unwrap().is_empty());
    assert_eq!(log.borrow().clone(), vec!["set dev pw".to_string(), "delete dev".to_string()]);
    assert!(matches!(svc.remove(&name("dev")), Err(AppError::Config(ConfigError::NotFound))));
}

#[test]
fn resolve_prompts_only_for_prompt_storage() {
    let svc = ConnectionService::new(MemSecrets::new(true), MemConfig::new(false));
    svc.add(request("dev", AuthMode::Password, Some("pw"), false)).ok().unwrap();
    let typist = Typist { prompts: RefCell::new(Vec::new()) };
    let (_, pw) = svc.resolve_connection(Some(name("dev")), &typist).ok().unwrap();
    assert_eq!(pw, Some("typed".to_string()));
    assert_eq!(typist.prompts.borrow().clone(), vec!["Password for 'dev'".to_string()]);
    assert!(matches!(svc.resolve_connection(None, &typist), Err(AppError::NoDefaultConnection)));
}

#[test]
fn add_decisions() {
    let a = add_actions(Some(CredentialStorage::KeyStore), AuthMode::Password, false);
    assert!(a.refuse && !a.delete_existing && !a.store_password);
    let b = add_actions(Some(CredentialStorage::KeyStore), AuthMode::NoAuth, true);
    assert!(!b.refuse && b.delete_existing && !b.store_password);
    let c = add_actions(None, AuthMode::Password, false);
    assert!(!c.refuse && !c.delete_existing && c.store_password);
    assert!(rollback_after_save(false, true));
    assert!(!rollback_after_save(true, true));
    assert!(!rollback_after_save(false, false));
    assert!(deletes_secret(CredentialStorage::KeyStore));
    assert!(!deletes_secret(CredentialStorage::Prompt));
}

#[test]
fn lookup_decisions() {
    let c = Connection::new(
        name("dev"),
        DriverType::Mysql,
        ConnectionKind::Network { host: "h".into(), port: 3306, db: "d".into(), user: "u".into() },
        AuthMode::Password,
        CredentialStorage::Prompt,
        StrMap::new(),
    );
    assert_eq!(credential_lookup(&c), CredentialLookup::Ask("Password for 'dev'".to_string()));
    assert_eq!(secret_to_delete(&c), None);
    assert!(matches!(keychain_password(Ok(None)), Ok(None)));
    assert!(matches!(keychain_password(Err(SecretStoreError::NotFound)), Err(AppError::Secret(_))));
    assert!(matches!(typed_password(Ok("x".to_string())), Ok(Some(ref p)) if p == "x"));
    assert!(matches!(store_outcome::<()>(Err(ConfigStoreError { message: "m".to_string() })), Err(AppError::Store(_))));
}

#[test]
fn add_plan_names_the_calls() {
    use_plan();
}

fn use_plan() {
    let empty = Config::empty();
    let p = sqel::app::connection_service::plan_add(&empty, &request("dev", AuthMode::Password, Some("pw"), false));
    assert!(!p.refuse);
    assert_eq!(p.delete_key, None);
    assert_eq!(p.store, Some(("dev".to_string(), "pw".to_string())));
}

#[test]
fn decide_add_keeps_the_password_where_the_keychain_put_it() {
    let d = sqel::app::connection_service::decide_add(
        Config::empty(),
        request("dev", AuthMode::Password, Some("pw"), false),
        Some(Err(SecretStoreError::Other("x".to_string()))),
    )
    .ok()
    .unwrap();
    assert!(!d.stored_secret);
    assert_eq!(d.warnings.len(), 1);
    let c = d.config.get(&name("dev")).unwrap();
    assert_eq!(c.credential_storage(), CredentialStorage::Prompt);
    let mut existing = Config::empty();
    existing.add(request_conn("dev"), false, false).unwrap();
    assert!(matches!(
        sqel::app::connection_service::decide_add(existing, request("dev", AuthMode::NoAuth, None, false), None),
        Err(AppError::Config(ConfigError::AlreadyExists))
    ));
}

fn request_conn(n: &str) -> Connection {
    Connection::new(
        name(n),
        DriverType::Sqlite,
        ConnectionKind::Sqlite { path: "/tmp/a.db".into() },
        AuthMode::NoAuth,
        CredentialStorage::NotStored,
        StrMap::new(),
    )
}
