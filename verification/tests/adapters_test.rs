use sqel::cli::console::Console;
use sqel::cli::handlers::connection_handler::ConsoleLine;
use sqel::cli::output::{bool_cell_text, bytes_cell_text, null_cell_text, OutputFormat, OutputWriter};
use sqel::infra::fs_config_store::{is_blank, FsConfigStore};
use sqel::infra::keychain_secret_store::{
    change_outcome, classify_keyring_error, lookup_outcome, KeychainSecretStore, KeyringFailure,
};
use sqel::ports::SecretStoreError;

#[test]
fn console_plain_lines() {
    let c = Console::new(false, false, false, false);
    assert_eq!(c.success("saved"), "OK: saved");
    assert_eq!(c.info("x"), "INFO: x");
    assert_eq!(c.warn("careful"), "WARN: careful");
    assert_eq!(c.error("bad"), "ERROR: bad");
}

#[test]
fn console_coloured_lines() {
    let c = Console::new(true, true, true, false);
    assert_eq!(c.success("saved"), "\x1b[92m\u{2713}\x1b[0m saved");
    assert_eq!(c.error("bad"), "\x1b[91m\u{274c} ERROR\x1b[0m bad");
    let no_color = Console::new(true, true, true, true);
    assert_eq!(no_color.warn("w"), "WARN: w");
}

#[test]
fn console_routes_warnings_to_stderr() {
    let c = Console::new(false, false, false, false);
    assert_eq!(c.render(&ConsoleLine::Warn("w".to_string())), ("WARN: w".to_string(), true));
    assert_eq!(c.render(&ConsoleLine::Success("s".to_string())), ("OK: s".to_string(), false));
}

#[test]
fn secret_prompt_needs_a_terminal() {
    let tty = Console::new(true, true, true, false);
    assert_eq!(tty.secret_prompt("Password for 'dev'"), Ok("Password for 'dev': ".to_string()));
    let piped = Console::new(true, true, false, false);
    assert_eq!(
        piped.secret_prompt("Password"),
        Err("secret input required but no interactive terminal available. Use --stdin or --env".to_string())
    );
}

#[test]
fn output_writer_options() {
    let w = OutputWriter::new(OutputFormat::Csv, None, true, false);
    assert_eq!(w.delimiter(), Some(b','));
    assert!(!w.writes_headers());
    assert!(w.use_pager(true));
    assert!(!w.use_pager(false));
    let t = OutputWriter::new(OutputFormat::Tsv, Some("out.tsv".to_string()), false, false);
    assert_eq!(t.delimiter(), Some(b'\t'));
    assert!(!t.use_pager(true));
    assert!(t.unbounded_table(false));
    let j = OutputWriter::new(OutputFormat::Jsonl, None, false, true);
    assert_eq!(j.delimiter(), None);
    assert!(!j.use_pager(true));
}

#[test]
fn cell_texts() {
    assert_eq!(null_cell_text(), "NULL");
    assert_eq!(bool_cell_text(true), "\u{2611}");
    assert_eq!(bool_cell_text(false), "\u{2610}");
    assert_eq!(bytes_cell_text(16), "<16 bytes>");
}

#[test]
fn config_file_path() {
    let s = FsConfigStore::new_default(Some("/home/u/.config/sqlz".to_string())).ok().unwrap();
    assert_eq!(s.path(), "/home/u/.config/sqlz/config.toml");
    let t = FsConfigStore::new_default(Some("/cfg/".to_string())).ok().unwrap();
    assert_eq!(t.path(), "/cfg/config.toml");
    assert_eq!(FsConfigStore::new_default(None).err(), Some("Could not determine config directory".to_string()));
}

#[test]
fn blank_config_text() {
    assert!(is_blank(""));
    assert!(is_blank(" \n\t "));
    assert!(!is_blank("default_connection = \"dev\""));
}

#[test]
fn keychain_answers() {
    let store = KeychainSecretStore::new("sqlz".to_string());
    assert_eq!(store.service(), "sqlz");
    assert!(matches!(lookup_outcome(Ok("pw".to_string())), Ok(Some(ref s)) if s == "pw"));
    assert!(matches!(lookup_outcome(Err(KeyringFailure::NoEntry)), Ok(None)));
    assert!(matches!(
        lookup_outcome(Err(KeyringFailure::PlatformFailure("locked".to_string()))),
        Err(SecretStoreError::Unavailable(ref m)) if m == "locked"
    ));
    assert!(matches!(classify_keyring_error(KeyringFailure::NoEntry), SecretStoreError::NotFound));
    assert!(matches!(
        classify_keyring_error(KeyringFailure::Other("odd".to_string())),
        SecretStoreError::Other(ref m) if m == "odd"
    ));
    assert!(matches!(change_outcome(Err(KeyringFailure::NoStorageAccess("no".to_string()))), Err(SecretStoreError::Unavailable(_))));
    assert!(change_outcome(Ok(())).is_ok());
}
