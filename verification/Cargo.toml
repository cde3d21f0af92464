[package]
name = "sqel"
version = "0.1.0"
edition = "2021"
publish = false

[dependencies]
anyhow = "1"
async-trait = "0.1"
base64 = "0.22"
chrono = "0.4"
clap = { version = "4", features = ["derive"] }
csv = "1"
directories = "5"
futures = "0.3"
ipnetwork = "0.20"
keyring = "3"
mac_address = "1"
rpassword = "7"
rust_decimal = "1"
serde = { version = "1", features = ["derive"] }
serde_json = "1"
sqlx = { version = "0.8", default-features = false, features = ["runtime-tokio", "postgres", "mysql", "sqlite", "chrono", "uuid", "rust_decimal", "ipnetwork", "mac_address", "json"] }
tablestream = "0.1"
tempfile = "3"
thiserror = "2"
tokio = { version = "1", features = ["rt", "macros", "time"] }
toml = "0.8"
url = "2"
uuid = "1"
