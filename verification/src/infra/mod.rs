//! The decisions of the program's adapters to the outside world: the
//! configuration file, the keychain and the database drivers.

pub mod drivers;
pub mod fs_config_store;
pub mod keychain_secret_store;

pub use fs_config_store::FsConfigStore;
pub use keychain_secret_store::KeychainSecretStore;
