use vstd::prelude::*;
use crate::domain::config::{
    after_add, after_remove, after_set_default, after_unset_default, lists_in_order, lookup, ConfigState,
};
use crate::str_map::key_lt;
use crate::domain::{
    AuthMode, Config, ConfigError, Connection, ConnectionKind, ConnectionName, CredentialStorage,
    DriverType, StrMap,
};
use crate::domain::config::config_error_message;
use crate::ports::{
    credential_error_message, secret_error_message, ConfigStore, ConfigStoreError, CredentialError,
    CredentialProvider, SecretStore, SecretStoreError,
};

verus! {

/// Something that went wrong but did not stop the operation.
#[derive(Debug, Clone)]
pub enum ConnectionWarning {
    KeychainFailed(String),
    ConnectionTestFailed(String),
}

/// The message of a warning.
pub open spec fn warning_message(w: ConnectionWarning) -> Seq<char> {
    match w {
        ConnectionWarning::KeychainFailed(m) => "Keychain error: "@ + m@,
        ConnectionWarning::ConnectionTestFailed(m) => "Connection test failed: "@ + m@,
    }
}

impl ConnectionWarning {
    /// The message that explains the warning.
    pub fn to_string(&self) -> (r: String)
        ensures
            r@ == warning_message(*self),
    {
        match self {
            ConnectionWarning::KeychainFailed(m) => {
                let mut s = "Keychain error: ".to_owned();
                s.append(m.as_str());
                s
            },
            ConnectionWarning::ConnectionTestFailed(m) => {
                let mut s = "Connection test failed: ".to_owned();
                s.append(m.as_str());
                s
            },
        }
    }
}

/// Why a request to add a connection is inconsistent.
#[derive(Debug, Clone, Copy, PartialEq, Eq, Structural)]
pub enum RequestError {
    PasswordRequired,
    PasswordWithoutAuth,
    SqliteAuth,
}

/// The message of a request error.
pub open spec fn request_error_message(e: RequestError) -> Seq<char> {
    match e {
        RequestError::PasswordRequired => "password is required for password authentication"@,
        RequestError::PasswordWithoutAuth => "password is provided, but auth mode is none"@,
        RequestError::SqliteAuth => "SQLite connections doesn't support authentication"@,
    }
}

impl RequestError {
    /// The message that explains the error.
    pub fn to_string(&self) -> (r: String)
        ensures
            r@ == request_error_message(*self),
    {
        match self {
            RequestError::PasswordRequired => "password is required for password authentication".to_owned(),
            RequestError::PasswordWithoutAuth => "password is provided, but auth mode is none".to_owned(),
            RequestError::SqliteAuth => "SQLite connections doesn't support authentication".to_owned(),
        }
    }
}

/// The first inconsistency of a request: a password mode without a password,
/// a password without a password mode, or SQLite with a password mode.
pub open spec fn request_error(kind: ConnectionKind, auth_mode: AuthMode, password: Option<String>) -> Option<RequestError> {
    if auth_mode == AuthMode::Password && password is None {
        Some(RequestError::PasswordRequired)
    } else if auth_mode == AuthMode::NoAuth && password is Some {
        Some(RequestError::PasswordWithoutAuth)
    } else if kind is Sqlite && auth_mode != AuthMode::NoAuth {
        Some(RequestError::SqliteAuth)
    } else {
        None
    }
}

/// A consistent request to save a connection.
#[derive(Debug)]
pub struct AddConnectionRequest {
    name: ConnectionName,
    driver: DriverType,
    kind: ConnectionKind,
    auth_mode: AuthMode,
    password: Option<String>,
    params: StrMap<String>,
    set_default: bool,
    overwrite: bool,
}

impl AddConnectionRequest {
    #[verifier::type_invariant]
    closed spec fn consistent(self) -> bool {
        request_error(self.kind, self.auth_mode, self.password) is None
    }

    pub closed spec fn spec_name(&self) -> ConnectionName { self.name }
    pub closed spec fn spec_driver(&self) -> DriverType { self.driver }
    pub closed spec fn spec_kind(&self) -> ConnectionKind { self.kind }
    pub closed spec fn spec_auth_mode(&self) -> AuthMode { self.auth_mode }
    pub closed spec fn spec_password(&self) -> Option<String> { self.password }
    pub closed spec fn spec_params(&self) -> StrMap<String> { self.params }
    pub closed spec fn spec_set_default(&self) -> bool { self.set_default }
    pub closed spec fn spec_overwrite(&self) -> bool { self.overwrite }

    /// A request, when its parts are consistent.
    pub fn new(
        name: ConnectionName,
        driver: DriverType,
        kind: ConnectionKind,
        auth_mode: AuthMode,
        password: Option<String>,
        params: StrMap<String>,
        set_default: bool,
        overwrite: bool,
    ) -> (r: Result<Self, RequestError>)
        ensures
            match request_error(kind, auth_mode, password) {
                Some(e) => r == Err::<Self, RequestError>(e),
                None => r matches Ok(q) && q.spec_name() == name && q.spec_driver() == driver
                    && q.spec_kind() == kind && q.spec_auth_mode() == auth_mode
                    && q.spec_password() == password && q.spec_params() == params
                    && q.spec_set_default() == set_default && q.spec_overwrite() == overwrite,
            },
    {
        match (&auth_mode, &password) {
            (AuthMode::Password, None) => {
                return Err(RequestError::PasswordRequired);
            },
            (AuthMode::NoAuth, Some(_)) => {
                return Err(RequestError::PasswordWithoutAuth);
            },
            _ => {},
        }
        let is_sqlite = match &kind {
            ConnectionKind::Sqlite { .. } => true,
            ConnectionKind::Network { .. } => false,
        };
        if is_sqlite && auth_mode != AuthMode::NoAuth {
            return Err(RequestError::SqliteAuth);
        }
        Ok(AddConnectionRequest { name, driver, kind, auth_mode, password, params, set_default, overwrite })
    }
}

/// Why an operation of the connection service failed.
#[derive(Debug, Clone)]
pub enum AppError {
    Config(ConfigError),
    Store(ConfigStoreError),
    Secret(SecretStoreError),
    Credential(CredentialError),
    NoDefaultConnection,
}

/// The message of a service error.
pub open spec fn app_error_message(e: AppError) -> Seq<char> {
    match e {
        AppError::Config(c) => config_error_message(c),
        AppError::Store(s) => s.message@,
        AppError::Secret(s) => secret_error_message(s),
        AppError::Credential(c) => credential_error_message(c),
        AppError::NoDefaultConnection => "no default connection"@,
    }
}

impl AppError {
    /// The message that explains the error.
    pub fn to_string(&self) -> (r: String)
        ensures
            r@ == app_error_message(*self),
    {
        match self {
            AppError::Config(c) => c.to_string(),
            AppError::Store(s) => s.to_string(),
            AppError::Secret(s) => s.to_string(),
            AppError::Credential(c) => c.to_string(),
            AppError::NoDefaultConnection => "no default connection".to_owned(),
        }
    }
}

/// The connections to show: the default name and every connection by name.
#[derive(Debug)]
pub struct ListResult {
    pub default_connection: Option<ConnectionName>,
    pub connections: Vec<Connection>,
}

impl ListResult {
    /// The given default name and connections.
    pub fn new(default_connection: Option<ConnectionName>, connections: Vec<Connection>) -> (r: Self)
        ensures
            r.default_connection == default_connection,
            r.connections == connections,
    {
        ListResult { default_connection, connections }
    }

    /// What a configuration shows: its default name and its connections in
    /// increasing order of their names.
    pub fn from_config(config: Config) -> (r: Self)
        ensures
            match r.default_connection {
                Some(n) => config.default_name() == Some(n@),
                None => config.default_name() is None,
            },
            lists_in_order(config.conns(), r.connections@),
    {
        let (default_connection, connections) = config.into_parts();
        ListResult { default_connection, connections }
    }
}

/// The messages of warnings, in order.
pub open spec fn warning_texts(w: Seq<ConnectionWarning>) -> Seq<Seq<char>> {
    w.map_values(|x: ConnectionWarning| warning_message(x))
}

/// Where the password of a new connection ends up, and the warning texts,
/// given the secret store's answer when asked to keep it (`None` when it
/// was not asked): nowhere, the secret store, or a prompt with a warning.
pub open spec fn keychain_outcome(stored: Option<Result<(), SecretStoreError>>) -> (CredentialStorage, Seq<Seq<char>>) {
    match stored {
        None => (CredentialStorage::NotStored, seq![]),
        Some(Ok(())) => (CredentialStorage::KeyStore, seq![]),
        Some(Err(e)) => (CredentialStorage::Prompt, seq!["Keychain error: "@ + secret_error_message(e)]),
    }
}

/// The warning texts after the secret store was asked to delete a secret.
pub open spec fn deletion_texts(deleted: Result<(), SecretStoreError>) -> Seq<Seq<char>> {
    match deleted {
        Ok(()) => seq![],
        Err(e) => seq!["Keychain error: "@ + secret_error_message(e)],
    }
}

/// Where the password of a new connection ends up, given what the secret
/// store answered when asked to keep it (`None` when no password was given),
/// and the warnings to show.
pub fn resolve_credential_storage(stored: Option<Result<(), SecretStoreError>>) -> (r: (CredentialStorage, Vec<ConnectionWarning>))
    ensures
        match stored {
            None => r.0 == CredentialStorage::NotStored && r.1@.len() == 0,
            Some(Ok(())) => r.0 == CredentialStorage::KeyStore && r.1@.len() == 0,
            Some(Err(e)) => r.0 == CredentialStorage::Prompt && r.1@.len() == 1
                && (r.1@[0] matches ConnectionWarning::KeychainFailed(m) && m@ == secret_error_message(e)),
        },
        r.0 == keychain_outcome(stored).0,
        warning_texts(r.1@) == keychain_outcome(stored).1,
{
    let mut warnings: Vec<ConnectionWarning> = Vec::new();
    match stored {
        None => (CredentialStorage::NotStored, warnings),
        Some(Ok(())) => (CredentialStorage::KeyStore, warnings),
        Some(Err(e)) => {
            warnings.push(ConnectionWarning::KeychainFailed(e.to_string()));
            (CredentialStorage::Prompt, warnings)
        },
    }
}

/// The warnings to show after the secret store was asked to delete a secret.
pub fn deletion_warnings(deleted: Result<(), SecretStoreError>) -> (r: Vec<ConnectionWarning>)
    ensures
        match deleted {
            Ok(()) => r@.len() == 0,
            Err(e) => r@.len() == 1 && (r@[0] matches ConnectionWarning::KeychainFailed(m)
                && m@ == secret_error_message(e)),
        },
        warning_texts(r@) == deletion_texts(deleted),
{
    let mut warnings: Vec<ConnectionWarning> = Vec::new();
    if let Err(e) = deleted {
        warnings.push(ConnectionWarning::KeychainFailed(e.to_string()));
    }
    warnings
}

/// The prompt that asks for the password of a connection.
pub open spec fn password_prompt_text(name: Seq<char>) -> Seq<char> {
    "Password for '"@ + name + "'"@
}

/// The prompt that asks for the password of a connection.
pub fn password_prompt(name: &ConnectionName) -> (r: String)
    ensures
        r@ == password_prompt_text(name@),
{
    let mut s = "Password for '".to_owned();
    s.append(name.as_str());
    s.append("'");
    s
}

/// The name of the connection to use: the one given, else the default.
pub open spec fn chosen_name(config: &Config, name: Option<ConnectionName>) -> Option<Seq<char>> {
    match name {
        Some(n) => Some(n@),
        None => config.default_name(),
    }
}

/// Takes from a configuration the connection called `name`, or the default
/// connection when no name is given.
pub fn pick_connection(config: Config, name: Option<ConnectionName>) -> (r: Result<Connection, AppError>)
    ensures
        match chosen_name(&config, name) {
            None => r matches Err(AppError::NoDefaultConnection),
            Some(n) => if config.conns().contains_key(n) {
                r == Ok::<Connection, AppError>(config.conns()[n]) && config.conns()[n].spec_name()@ == n
            } else {
                r matches Err(AppError::Config(ConfigError::NotFound))
            },
        },
{
    let mut config = config;
    let chosen = match name {
        Some(n) => n,
        None => match config.get_default() {
            Some(d) => d.clone(),
            None => {
                return Err(AppError::NoDefaultConnection);
            },
        },
    };
    match config.remove(&chosen) {
        Ok(c) => Ok(c),
        Err(_) => Err(AppError::Config(ConfigError::NotFound)),
    }
}

/// What adding a connection does to the secret store, decided from how an
/// existing connection of the same name keeps its password (`None` when
/// there is none), the requested authentication and `overwrite`.
#[derive(Debug, Clone, Copy, PartialEq, Eq, Structural)]
pub struct AddActions {
    /// The name is taken and may not be overwritten: nothing is touched.
    pub refuse: bool,
    /// The replaced connection's password is deleted from the secret store.
    pub delete_existing: bool,
    /// The new password is put in the secret store.
    pub store_password: bool,
}

/// What adding a connection does to the secret store: refuse a taken name
/// without `overwrite` before touching anything; on an overwrite, delete the
/// password of the replaced connection when the secret store kept it; store
/// the new password when the connection authenticates with one.
pub fn add_actions(existing: Option<CredentialStorage>, auth: AuthMode, overwrite: bool) -> (r: AddActions)
    ensures
        r.refuse == (existing is Some && !overwrite),
        r.delete_existing == (overwrite && existing == Some(CredentialStorage::KeyStore)),
        r.store_password == (!r.refuse && auth == AuthMode::Password),
{
    let refuse = existing.is_some() && !overwrite;
    let delete_existing = overwrite && existing == Some(CredentialStorage::KeyStore);
    let store_password = !refuse && auth == AuthMode::Password;
    AddActions { refuse, delete_existing, store_password }
}

/// The secret store calls that adding a connection starts with: whether the
/// add is refused, the key whose secret is deleted first, and the key and
/// secret that are stored.
#[derive(Debug)]
pub struct AddPlan {
    pub refuse: bool,
    pub delete_key: Option<String>,
    pub store: Option<(String, String)>,
}

/// How the connection saved under a name keeps its password, if one is saved.
pub open spec fn existing_storage(config: &Config, name: Seq<char>) -> Option<CredentialStorage> {
    match lookup(config.state(), name) {
        Some(c) => Some(c.spec_storage()),
        None => None,
    }
}

/// The secret store calls that adding `req` to `config` starts with, as
/// `add_actions` decides them: the old secret is deleted under the
/// connection's name, and the request's password stored under it.
pub fn plan_add(config: &Config, req: &AddConnectionRequest) -> (r: AddPlan)
    ensures
        ({
            let a = AddActions {
                refuse: existing_storage(config, req.spec_name()@) is Some && !req.spec_overwrite(),
                delete_existing: req.spec_overwrite() && existing_storage(config, req.spec_name()@) == Some(CredentialStorage::KeyStore),
                store_password: !(existing_storage(config, req.spec_name()@) is Some && !req.spec_overwrite())
                    && req.spec_auth_mode() == AuthMode::Password,
            };
            &&& r.refuse == a.refuse
            &&& (r.delete_key matches Some(k) ==> k@ == req.spec_name()@)
            &&& (r.delete_key is Some <==> a.delete_existing)
            &&& (r.store matches Some((k, p)) ==> (k@ == req.spec_name()@ && (req.spec_password() matches Some(q) && p@ == q@)))
            &&& (r.store is Some <==> a.store_password)
        }),
{
    proof {
        use_type_invariant(req);
    }
    let existing = match config.get(&req.name) {
        Some(c) => Some(c.credential_storage()),
        None => None,
    };
    let actions = add_actions(existing, req.auth_mode, req.overwrite);
    let delete_key = if actions.delete_existing { Some(req.name.to_string()) } else { None };
    let store = if actions.store_password {
        match &req.password {
            Some(p) => Some((req.name.to_string(), p.clone())),
            None => None,
        }
    } else {
        None
    };
    AddPlan { refuse: actions.refuse, delete_key, store }
}

/// Whether adding `req` to `config` stores a password: the add is not
/// refused and the connection authenticates with one.
pub open spec fn stores_password(config: &Config, req: AddConnectionRequest) -> bool {
    !(existing_storage(config, req.spec_name()@) is Some && !req.spec_overwrite())
        && req.spec_auth_mode() == AuthMode::Password
}

/// The configuration state after adding the connection that `req`
/// describes, its password kept as `storage` says.
pub open spec fn added_state(s: ConfigState, req: AddConnectionRequest, storage: CredentialStorage) -> Result<ConfigState, ConfigError> {
    after_add(
        s,
        Connection::made_of(req.spec_name(), req.spec_driver(), req.spec_kind(), req.spec_auth_mode(), storage, req.spec_params()),
        req.spec_set_default(),
        req.spec_overwrite(),
    )
}

/// What adding a connection leaves to be saved and reported.
#[derive(Debug)]
pub struct AddDecision {
    /// The configuration to save.
    pub config: Config,
    /// The warnings to report.
    pub warnings: Vec<ConnectionWarning>,
    /// Whether the secret store now keeps the new connection's password.
    pub stored_secret: bool,
}

/// The configuration to save and the warnings after adding `req` to
/// `config`, given the secret store's answer when asked to keep the
/// password (`None` when it was not asked): the new connection keeps its
/// password where that answer puts it.
pub fn decide_add(config: Config, req: AddConnectionRequest, stored: Option<Result<(), SecretStoreError>>) -> (r: Result<AddDecision, AppError>)
    ensures
        match added_state(config.state(), req, keychain_outcome(stored).0) {
            Ok(t) => r matches Ok(d) && d.config.state() == t
                && warning_texts(d.warnings@) == keychain_outcome(stored).1
                && d.stored_secret == (keychain_outcome(stored).0 == CredentialStorage::KeyStore),
            Err(e) => r == Err::<AddDecision, AppError>(AppError::Config(e)),
        },
        r matches Ok(d) ==> d.warnings@.len() <= 1 && (d.warnings@.len() == 1 ==> d.warnings@[0] is KeychainFailed)
            && (stored is None ==> d.warnings@.len() == 0),
{
    let mut config = config;
    let (credential_storage, warnings) = resolve_credential_storage(stored);
    let AddConnectionRequest { name, driver, kind, auth_mode, password: _, params, set_default, overwrite } = req;
    let conn = Connection::new(name, driver, kind, auth_mode, credential_storage, params);
    match config.add(conn, set_default, overwrite) {
        Ok(()) => Ok(AddDecision {
            config,
            warnings,
            stored_secret: credential_storage == CredentialStorage::KeyStore,
        }),
        Err(e) => Err(AppError::Config(e)),
    }
}

/// The result of adding `req`, as texts, given what the stores answered:
/// the loaded configuration, the secret store's answer to keeping the
/// password (used only when the password is stored) and the answer to
/// saving.
pub open spec fn add_result(
    loaded: Result<Config, ConfigStoreError>,
    req: AddConnectionRequest,
    stored: Option<Result<(), SecretStoreError>>,
    saved: Result<(), ConfigStoreError>,
) -> Result<Seq<Seq<char>>, AppError> {
    match loaded {
        Err(e) => Err(AppError::Store(e)),
        Ok(c) => {
            let answer = if stores_password(&c, req) { stored } else { None };
            match added_state(c.state(), req, keychain_outcome(answer).0) {
                Err(e) => Err(AppError::Config(e)),
                Ok(_) => match saved {
                    Err(e) => Err(AppError::Store(e)),
                    Ok(()) => Ok(keychain_outcome(answer).1),
                },
            }
        },
    }
}

/// A result with its warnings as texts.
pub open spec fn result_texts(r: Result<Vec<ConnectionWarning>, AppError>) -> Result<Seq<Seq<char>>, AppError> {
    match r {
        Ok(w) => Ok(warning_texts(w@)),
        Err(e) => Err(e),
    }
}

/// What listing shows of a loaded configuration: its default name, and its
/// connections once each in increasing order of their names.
pub open spec fn shows_config(l: ListResult, c: Config) -> bool {
    &&& lists_in_order(c.conns(), l.connections@)
    &&& match l.default_connection {
        Some(n) => c.default_name() == Some(n@),
        None => c.default_name() is None,
    }
}

/// `r` is what listing gives for some answer of the store.
pub open spec fn list_explained(r: Result<ListResult, AppError>) -> bool {
    match r {
        Ok(l) => exists|c: Config| #[trigger] shows_config(l, c),
        Err(e) => e is Store,
    }
}

/// `r` is what adding `req` gives for some answers of the stores.
pub open spec fn add_explained(r: Result<Vec<ConnectionWarning>, AppError>, req: AddConnectionRequest) -> bool {
    exists|loaded: Result<Config, ConfigStoreError>, stored: Option<Result<(), SecretStoreError>>, saved: Result<(), ConfigStoreError>|
        #[trigger] add_result(loaded, req, stored, saved) == result_texts(r)
}

/// The result of removing the connection called `name`, as texts, given
/// what the stores answered: the loaded configuration, the answer to
/// deleting its secret (used only when the secret store kept it) and the
/// answer to saving.
pub open spec fn remove_result(
    loaded: Result<Config, ConfigStoreError>,
    name: Seq<char>,
    deleted: Result<(), SecretStoreError>,
    saved: Result<(), ConfigStoreError>,
) -> Result<Seq<Seq<char>>, AppError> {
    match loaded {
        Err(e) => Err(AppError::Store(e)),
        Ok(c) => match after_remove(c.state(), name) {
            Err(e) => Err(AppError::Config(e)),
            Ok((conn, _)) => match saved {
                Err(e) => Err(AppError::Store(e)),
                Ok(()) => Ok(if conn.spec_storage() == CredentialStorage::KeyStore { deletion_texts(deleted) } else { seq![] }),
            },
        },
    }
}

/// `r` is what removing `name` gives for some answers of the stores.
pub open spec fn remove_explained(r: Result<Vec<ConnectionWarning>, AppError>, name: Seq<char>) -> bool {
    exists|loaded: Result<Config, ConfigStoreError>, deleted: Result<(), SecretStoreError>, saved: Result<(), ConfigStoreError>|
        #[trigger] remove_result(loaded, name, deleted, saved) == result_texts(r)
}

/// The result of making `name` the default, given the loaded configuration
/// and the answer to saving.
pub open spec fn set_default_result(loaded: Result<Config, ConfigStoreError>, name: Seq<char>, saved: Result<(), ConfigStoreError>) -> Result<(), AppError> {
    match loaded {
        Err(e) => Err(AppError::Store(e)),
        Ok(c) => match after_set_default(c.state(), name) {
            Err(e) => Err(AppError::Config(e)),
            Ok(_) => match saved {
                Err(e) => Err(AppError::Store(e)),
                Ok(()) => Ok(()),
            },
        },
    }
}

/// `r` is what making `name` the default gives for some answers of the store.
pub open spec fn set_default_explained(r: Result<(), AppError>, name: Seq<char>) -> bool {
    exists|loaded: Result<Config, ConfigStoreError>, saved: Result<(), ConfigStoreError>|
        #[trigger] set_default_result(loaded, name, saved) == r
}

/// The result of clearing the default, the previous default as a name,
/// given the loaded configuration and the answer to saving.
pub open spec fn unset_default_result(loaded: Result<Config, ConfigStoreError>, saved: Result<(), ConfigStoreError>) -> Result<Option<Seq<char>>, AppError> {
    match loaded {
        Err(e) => Err(AppError::Store(e)),
        Ok(c) => match saved {
            Err(e) => Err(AppError::Store(e)),
            Ok(()) => Ok(after_unset_default(c.state()).0),
        },
    }
}

/// A result with its name as a character sequence.
pub open spec fn name_result(r: Result<Option<ConnectionName>, AppError>) -> Result<Option<Seq<char>>, AppError> {
    match r {
        Ok(Some(n)) => Ok(Some(n@)),
        Ok(None) => Ok(None),
        Err(e) => Err(e),
    }
}

/// `r` is what clearing the default gives for some answers of the store.
pub open spec fn unset_default_explained(r: Result<Option<ConnectionName>, AppError>) -> bool {
    exists|loaded: Result<Config, ConfigStoreError>, saved: Result<(), ConfigStoreError>|
        #[trigger] unset_default_result(loaded, saved) == name_result(r)
}

/// Whether a password stored for a new connection is deleted again: when
/// the configuration could not be saved.
pub fn rollback_after_save(saved: bool, stored_secret: bool) -> (r: bool)
    ensures
        r == (!saved && stored_secret),
{
    !saved && stored_secret
}

/// Whether removing a connection deletes a password from the secret store:
/// when the secret store kept it.
pub fn deletes_secret(storage: CredentialStorage) -> (r: bool)
    ensures
        r == (storage == CredentialStorage::KeyStore),
{
    storage == CredentialStorage::KeyStore
}

/// The key whose secret is deleted when `c` is removed: its name, when
/// the secret store kept its password.
pub fn secret_to_delete(c: &Connection) -> (r: Option<String>)
    ensures
        r is Some <==> c.spec_storage() == CredentialStorage::KeyStore,
        r matches Some(k) ==> k@ == c.spec_name()@,
{
    if deletes_secret(c.credential_storage()) { Some(c.name().to_string()) } else { None }
}

/// Where the password of a connection to open comes from.
#[derive(Debug, Clone, PartialEq, Eq)]
pub enum CredentialLookup {
    /// The connection has no password.
    NoPassword,
    /// The secret store keeps it under this key, the connection's name.
    Keychain(String),
    /// The user is asked, with this prompt.
    Ask(String),
}

/// Where the password of a connection to open comes from: none, the secret
/// store, or the user, asked with `Password for '<name>'`.
pub fn credential_lookup(c: &Connection) -> (r: CredentialLookup)
    ensures
        match c.spec_storage() {
            CredentialStorage::NotStored => r == CredentialLookup::NoPassword,
            CredentialStorage::KeyStore => r matches CredentialLookup::Keychain(k) && k@ == c.spec_name()@,
            CredentialStorage::Prompt => r matches CredentialLookup::Ask(p) && p@ == password_prompt_text(c.spec_name()@),
        },
{
    match c.credential_storage() {
        CredentialStorage::NotStored => CredentialLookup::NoPassword,
        CredentialStorage::KeyStore => CredentialLookup::Keychain(c.name().to_string()),
        CredentialStorage::Prompt => CredentialLookup::Ask(password_prompt(c.name())),
    }
}

/// What the secret store's answer to a lookup means: the password it has
/// (none when it has none), or its error.
pub fn keychain_password(answer: Result<Option<String>, SecretStoreError>) -> (r: Result<Option<String>, AppError>)
    ensures
        match answer {
            Ok(p) => r == Ok::<Option<String>, AppError>(p),
            Err(e) => r == Err::<Option<String>, AppError>(AppError::Secret(e)),
        },
{
    match answer {
        Ok(p) => Ok(p),
        Err(e) => Err(AppError::Secret(e)),
    }
}

/// What the user's answer to a password prompt means: the password typed,
/// or the error.
pub fn typed_password(answer: Result<String, CredentialError>) -> (r: Result<Option<String>, AppError>)
    ensures
        match answer {
            Ok(p) => r == Ok::<Option<String>, AppError>(Some(p)),
            Err(e) => r == Err::<Option<String>, AppError>(AppError::Credential(e)),
        },
{
    match answer {
        Ok(p) => Ok(Some(p)),
        Err(e) => Err(AppError::Credential(e)),
    }
}

/// What an answer of the configuration store means for the service: its
/// value, or its error as a store error.
pub fn store_outcome<T>(answer: Result<T, ConfigStoreError>) -> (r: Result<T, AppError>)
    ensures
        match answer {
            Ok(v) => r == Ok::<T, AppError>(v),
            Err(e) => r == Err::<T, AppError>(AppError::Store(e)),
        },
{
    match answer {
        Ok(v) => Ok(v),
        Err(e) => Err(AppError::Store(e)),
    }
}

/// Keeps connections in a configuration store and their passwords in a
/// secret store.
pub struct ConnectionService<S, C> {
    secret_store: S,
    config_store: C,
}

impl<S: SecretStore, C: ConfigStore> ConnectionService<S, C> {
    /// A service over the given stores.
    pub fn new(secret_store: S, config_store: C) -> (r: Self)
        ensures
            r.secret_store() == secret_store,
            r.config_store() == config_store,
    {
        ConnectionService { secret_store, config_store }
    }

    /// The secret store.
    pub closed spec fn secret_store(&self) -> S {
        self.secret_store
    }

    /// The configuration store.
    pub closed spec fn config_store(&self) -> C {
        self.config_store
    }

    fn load(&self) -> (r: Result<Config, AppError>)
        ensures
            r matches Err(e) ==> e is Store,
    {
        store_outcome(self.config_store.load())
    }

    /// Saves the connection that `req` describes. A taken name without
    /// `overwrite` is refused before anything is touched. On an overwrite,
    /// the password that the secret store kept for the replaced connection
    /// is deleted. A password is put in the secret store; when that fails,
    /// the password will be asked for and a warning says so. When saving the
    /// configuration fails, a password that was stored is deleted again.
    pub fn add(&self, req: AddConnectionRequest) -> (r: Result<Vec<ConnectionWarning>, AppError>)
        ensures
            add_explained(r, req),
            r matches Ok(w) ==> w@.len() <= 1 && (w@.len() == 1 ==> w@[0] is KeychainFailed),
            r matches Ok(w) ==> (req.spec_auth_mode() == AuthMode::NoAuth ==> w@.len() == 0),
            r matches Err(e) ==> e is Store || e == AppError::Config(ConfigError::AlreadyExists),
            r matches Err(AppError::Config(_)) ==> !req.spec_overwrite(),
    {
        proof {
            use_type_invariant(&req);
        }
        let ghost req0 = req;
        let loaded = self.config_store.load();
        let ghost loaded0 = loaded;
        let config = match store_outcome(loaded) {
            Ok(c) => c,
            Err(e) => {
                assert(add_result(loaded0, req0, None, Ok(())) == result_texts(Err(e)));
                return Err(e);
            },
        };
        let plan = plan_add(&config, &req);
        proof {
            Connection::lemma_made_of(req.spec_name(), req.spec_driver(), req.spec_kind(), req.spec_auth_mode(),
                keychain_outcome(None).0, req.spec_params());
        }
        if plan.refuse {
            let r = Err(AppError::Config(ConfigError::AlreadyExists));
            assert(add_result(loaded0, req0, None, Ok(())) == result_texts(r));
            return r;
        }
        if let Some(key) = &plan.delete_key {
            let _ = self.secret_store.delete(key.as_str());
        }
        let stored = match &plan.store {
            Some((key, secret)) => Some(self.secret_store.set(key.as_str(), secret.as_str())),
            None => None,
        };
        assert(stored == (if stores_password(&config, req) { stored } else { None }));
        let decision = match decide_add(config, req, stored) {
            Ok(d) => d,
            Err(e) => {
                assert(add_result(loaded0, req0, stored, Ok(())) == result_texts(Err(e)));
                return Err(e);
            },
        };
        let saved_answer = self.config_store.save(&decision.config);
        let ghost saved0 = saved_answer;
        let saved = store_outcome(saved_answer);
        if rollback_after_save(saved.is_ok(), decision.stored_secret) {
            if let Some((key, _)) = &plan.store {
                let _ = self.secret_store.delete(key.as_str());
            }
        }
        let r = match saved {
            Ok(()) => Ok(decision.warnings),
            Err(e) => Err(e),
        };
        assert(add_result(loaded0, req0, stored, saved0) == result_texts(r));
        r
    }

    /// The default name and the saved connections in order of their names.
    pub fn list(&self) -> (r: Result<ListResult, AppError>)
        ensures
            list_explained(r),
            r matches Err(e) ==> e is Store,
            r matches Ok(l) ==> forall|i: int, j: int| 0 <= i < j < l.connections@.len()
                ==> key_lt(#[trigger] l.connections@[i].spec_name()@, #[trigger] l.connections@[j].spec_name()@),
    {
        let config = self.load()?;
        let ghost c0 = config;
        let l = ListResult::from_config(config);
        assert(shows_config(l, c0));
        Ok(l)
    }

    /// Removes a saved connection, and then its password from the secret store
    /// where it was kept there; a failure of that deletion is a warning.
    pub fn remove(&self, name: &ConnectionName) -> (r: Result<Vec<ConnectionWarning>, AppError>)
        ensures
            remove_explained(r, name@),
            r matches Ok(w) ==> w@.len() <= 1 && (w@.len() == 1 ==> w@[0] is KeychainFailed),
            r matches Err(e) ==> e is Store || e == AppError::Config(ConfigError::NotFound),
    {
        let loaded = self.config_store.load();
        let ghost loaded0 = loaded;
        let mut config = match store_outcome(loaded) {
            Ok(c) => c,
            Err(e) => {
                assert(remove_result(loaded0, name@, Ok(()), Ok(())) == result_texts(Err(e)));
                return Err(e);
            },
        };
        let connection = match config.remove(name) {
            Ok(c) => c,
            Err(e) => {
                let r = Err(AppError::Config(e));
                assert(remove_result(loaded0, name@, Ok(()), Ok(())) == result_texts(r));
                return r;
            },
        };
        let saved_answer = self.config_store.save(&config);
        let ghost saved0 = saved_answer;
        match store_outcome(saved_answer) {
            Ok(()) => {},
            Err(e) => {
                assert(remove_result(loaded0, name@, Ok(()), saved0) == result_texts(Err(e)));
                return Err(e);
            },
        }
        match secret_to_delete(&connection) {
            Some(key) => {
                let deleted = self.secret_store.delete(key.as_str());
                let ghost deleted0 = deleted;
                let r = Ok(deletion_warnings(deleted));
                assert(remove_result(loaded0, name@, deleted0, saved0) == result_texts(r));
                r
            },
            None => {
                let r = Ok(Vec::new());
                assert(warning_texts(Seq::<ConnectionWarning>::empty()) =~= Seq::<Seq<char>>::empty());
                assert(remove_result(loaded0, name@, Ok(()), saved0) == result_texts(r));
                r
            },
        }
    }

    /// Makes a saved connection the default.
    pub fn set_default(&self, name: &ConnectionName) -> (r: Result<(), AppError>)
        ensures
            set_default_explained(r, name@),
            r matches Err(e) ==> e is Store || e == AppError::Config(ConfigError::NotFound),
    {
        let loaded = self.config_store.load();
        let ghost loaded0 = loaded;
        let mut config = match store_outcome(loaded) {
            Ok(c) => c,
            Err(e) => {
                assert(set_default_result(loaded0, name@, Ok(())) == Err::<(), AppError>(e));
                return Err(e);
            },
        };
        match config.set_default(name) {
            Ok(()) => {},
            Err(e) => {
                let r = Err(AppError::Config(e));
                assert(set_default_result(loaded0, name@, Ok(())) == r);
                return r;
            },
        }
        let saved_answer = self.config_store.save(&config);
        let ghost saved0 = saved_answer;
        let r = store_outcome(saved_answer);
        assert(set_default_result(loaded0, name@, saved0) == r);
        r
    }

    /// Clears the default connection, giving back the name it had.
    pub fn unset_default(&self) -> (r: Result<Option<ConnectionName>, AppError>)
        ensures
            unset_default_explained(r),
            r matches Err(e) ==> e is Store,
    {
        let loaded = self.config_store.load();
        let ghost loaded0 = loaded;
        let mut config = match store_outcome(loaded) {
            Ok(c) => c,
            Err(e) => {
                assert(unset_default_result(loaded0, Ok(())) == name_result(Err(e)));
                return Err(e);
            },
        };
        let previous = config.unset_default();
        let saved_answer = self.config_store.save(&config);
        let ghost saved0 = saved_answer;
        let r = match store_outcome(saved_answer) {
            Ok(()) => Ok(previous),
            Err(e) => Err(e),
        };
        assert(unset_default_result(loaded0, saved0) == name_result(r));
        r
    }

    /// The connection to open (the one named, else the default) and its
    /// password: none, the one in the secret store, or one asked for.
    pub fn resolve_connection<P: CredentialProvider>(&self, name: Option<ConnectionName>, credentials: &P) -> (r: Result<(Connection, Option<String>), AppError>)
        ensures
            r matches Ok((c, pw)) ==> (c.spec_storage() == CredentialStorage::NotStored <==> pw is None)
                || c.spec_storage() == CredentialStorage::KeyStore,
            r matches Ok((c, pw)) ==> c.spec_storage() == CredentialStorage::Prompt ==> pw is Some,
            r matches Ok((c, _)) ==> (name matches Some(n) ==> c.spec_name()@ == n@),
    {
        let config = self.load()?;
        let connection = pick_connection(config, name)?;
        let password = match credential_lookup(&connection) {
            CredentialLookup::NoPassword => None,
            CredentialLookup::Keychain(key) => keychain_password(self.secret_store.get(key.as_str()))?,
            CredentialLookup::Ask(prompt) => typed_password(credentials.get_secret(prompt.as_str()))?,
        };
        Ok((connection, password))
    }
}


/// A request is consistent exactly when it has a password if and only if it
/// authenticates by password, and a SQLite connection does not
/// authenticate; a password mode without a password is refused first.
pub proof fn law_request_consistency(kind: ConnectionKind, mode: AuthMode, password: Option<String>)
    ensures
        request_error(kind, mode, password) is None
            <==> ((mode == AuthMode::Password <==> password is Some) && (kind is Sqlite ==> mode == AuthMode::NoAuth)),
        mode == AuthMode::Password && password is None
            ==> request_error(kind, mode, password) == Some(RequestError::PasswordRequired),
{
}

/// When the secret store fails to keep the password of a connection that
/// is added and saved, the add still succeeds, the password is asked for
/// when needed, and the one warning says what the store answered.
pub proof fn law_keychain_failure_warns(c: Config, req: AddConnectionRequest, e: SecretStoreError)
    requires
        stores_password(&c, req),
        added_state(c.state(), req, CredentialStorage::Prompt) is Ok,
    ensures
        add_result(Ok(c), req, Some(Err(e)), Ok(())) == Ok::<Seq<Seq<char>>, AppError>(seq!["Keychain error: "@ + secret_error_message(e)]),
        keychain_outcome(Some(Err(e))).0 == CredentialStorage::Prompt,
{
}

/// A password that the secret store kept leaves the connection reading it
/// from there, and no warning.
pub proof fn law_keychain_success_is_silent(c: Config, req: AddConnectionRequest)
    requires
        stores_password(&c, req),
        added_state(c.state(), req, CredentialStorage::KeyStore) is Ok,
    ensures
        add_result(Ok(c), req, Some(Ok(())), Ok(())) == Ok::<Seq<Seq<char>>, AppError>(Seq::<Seq<char>>::empty()),
        keychain_outcome(Some(Ok(()))).0 == CredentialStorage::KeyStore,
{
}

} // verus!
