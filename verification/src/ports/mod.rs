//! What the connection service needs from the outside world: a place for
//! secrets, a place for the configuration, and someone who types a password.
//! Each is a trait for the program to implement; nothing is promised of
//! what they return.

use vstd::prelude::*;
use crate::domain::Config;

verus! {

/// Why the secret store could not do what was asked.
#[derive(Debug, Clone)]
pub enum SecretStoreError {
    NotFound,
    Unavailable(String),
    Other(String),
}

/// The message of a secret store error.
pub open spec fn secret_error_message(e: SecretStoreError) -> Seq<char> {
    match e {
        SecretStoreError::NotFound => "secret not found"@,
        SecretStoreError::Unavailable(m) => "secret store unavailable: "@ + m@,
        SecretStoreError::Other(m) => "secret store error: "@ + m@,
    }
}

impl SecretStoreError {
    /// The message that explains the error.
    pub fn to_string(&self) -> (r: String)
        ensures
            r@ == secret_error_message(*self),
    {
        match self {
            SecretStoreError::NotFound => "secret not found".to_owned(),
            SecretStoreError::Unavailable(m) => {
                let mut s = "secret store unavailable: ".to_owned();
                s.append(m.as_str());
                s
            },
            SecretStoreError::Other(m) => {
                let mut s = "secret store error: ".to_owned();
                s.append(m.as_str());
                s
            },
        }
    }
}

/// Why a password could not be read from the user.
#[derive(Debug, Clone)]
pub enum CredentialError {
    IoError(String),
}

/// The message of a credential error.
pub open spec fn credential_error_message(e: CredentialError) -> Seq<char> {
    match e {
        CredentialError::IoError(m) => "credential input failed: "@ + m@,
    }
}

impl CredentialError {
    /// The message that explains the error.
    pub fn to_string(&self) -> (r: String)
        ensures
            r@ == credential_error_message(*self),
    {
        match self {
            CredentialError::IoError(m) => {
                let mut s = "credential input failed: ".to_owned();
                s.append(m.as_str());
                s
            },
        }
    }
}

/// Why the configuration could not be loaded or saved, as the store words it.
#[derive(Debug, Clone)]
pub struct ConfigStoreError {
    pub message: String,
}

impl ConfigStoreError {
    /// The message that explains the error.
    pub fn to_string(&self) -> (r: String)
        ensures
            r@ == self.message@,
    {
        self.message.clone()
    }
}

/// Keeps secrets under keys.
pub trait SecretStore {
    fn get(&self, key: &str) -> Result<Option<String>, SecretStoreError>;

    fn set(&self, key: &str, secret: &str) -> Result<(), SecretStoreError>;

    fn delete(&self, key: &str) -> Result<(), SecretStoreError>;
}

/// Keeps the configuration.
pub trait ConfigStore {
    fn load(&self) -> Result<Config, ConfigStoreError>;

    fn save(&self, cfg: &Config) -> Result<(), ConfigStoreError>;
}

/// Asks the user for a secret.
pub trait CredentialProvider {
    fn get_secret(&self, prompt: &str) -> Result<String, CredentialError>;
}

} // verus!
