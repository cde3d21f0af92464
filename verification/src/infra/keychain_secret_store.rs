//! The secret store kept in the system keychain: which service its secrets
//! are filed under, and what the keychain's answers mean for the program.

use vstd::prelude::*;
use crate::ports::SecretStoreError;

verus! {

/// Secrets kept in the system keychain under one service name.
pub struct KeychainSecretStore {
    service: String,
}

impl KeychainSecretStore {
    /// The service name that the secrets are filed under.
    pub closed spec fn service_name(&self) -> Seq<char> {
        self.service@
    }

    /// A store that files its secrets under `service`.
    pub fn new(service: String) -> (r: Self)
        ensures
            r.service_name() == service@,
    {
        KeychainSecretStore { service }
    }

    /// The service name that the secrets are filed under.
    pub fn service(&self) -> (r: &str)
        ensures
            r@ == self.service_name(),
    {
        self.service.as_str()
    }
}

/// What went wrong in the keychain, as the keychain reports it.
#[derive(Debug, Clone)]
pub enum KeyringFailure {
    /// No secret is stored under the key.
    NoEntry,
    /// The keychain could not be reached, with the platform's words.
    NoStorageAccess(String),
    /// The platform failed, with its words.
    PlatformFailure(String),
    /// Anything else, with the keychain's words.
    Other(String),
}

/// The secret store error that a keychain failure amounts to.
pub open spec fn failure_error(e: KeyringFailure) -> SecretStoreError {
    match e {
        KeyringFailure::NoEntry => SecretStoreError::NotFound,
        KeyringFailure::NoStorageAccess(m) => SecretStoreError::Unavailable(m),
        KeyringFailure::PlatformFailure(m) => SecretStoreError::Unavailable(m),
        KeyringFailure::Other(m) => SecretStoreError::Other(m),
    }
}

/// The secret store error that a keychain failure amounts to: a missing
/// entry is not found, an unreachable or failing keychain is unavailable.
pub fn classify_keyring_error(e: KeyringFailure) -> (r: SecretStoreError)
    ensures
        r == failure_error(e),
{
    match e {
        KeyringFailure::NoEntry => SecretStoreError::NotFound,
        KeyringFailure::NoStorageAccess(m) => SecretStoreError::Unavailable(m),
        KeyringFailure::PlatformFailure(m) => SecretStoreError::Unavailable(m),
        KeyringFailure::Other(m) => SecretStoreError::Other(m),
    }
}

/// What a keychain lookup means: the secret, no secret when none is stored
/// under the key, or the error that the failure amounts to.
pub fn lookup_outcome(found: Result<String, KeyringFailure>) -> (r: Result<Option<String>, SecretStoreError>)
    ensures
        match found {
            Ok(s) => r == Ok::<Option<String>, SecretStoreError>(Some(s)),
            Err(KeyringFailure::NoEntry) => r == Ok::<Option<String>, SecretStoreError>(None),
            Err(e) => r == Err::<Option<String>, SecretStoreError>(failure_error(e)),
        },
{
    match found {
        Ok(s) => Ok(Some(s)),
        Err(KeyringFailure::NoEntry) => Ok(None),
        Err(e) => Err(classify_keyring_error(e)),
    }
}

/// What a keychain change means: done, or the error that the failure
/// amounts to.
pub fn change_outcome(done: Result<(), KeyringFailure>) -> (r: Result<(), SecretStoreError>)
    ensures
        match done {
            Ok(()) => r is Ok,
            Err(e) => r == Err::<(), SecretStoreError>(failure_error(e)),
        },
{
    match done {
        Ok(()) => Ok(()),
        Err(e) => Err(classify_keyring_error(e)),
    }
}

} // verus!
