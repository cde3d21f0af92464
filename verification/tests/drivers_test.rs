use sqel::domain::AuthMode;
use sqel::infra::drivers::{parse_bool_text, parse_u64_text, sqlite_setting, SqliteSetting};
use sqel::infra::drivers::{
    check_credentials, format_pg_interval, mysql_decode, mysql_param, pg_decode, sqlite_decode,
    sqlite_param, MySqlDecode, MySqlParam, PgDecode, SqliteDecode, SqliteParam,
};

#[test]
fn interval_with_every_part() {
    assert_eq!(format_pg_interval(14, 3, 3_723_000_004), "1 yr 2 mon 3 day 01:02:03.000004");
}

#[test]
fn zero_interval() {
    assert_eq!(format_pg_interval(0, 0, 0), "00:00:00");
}

#[test]
fn interval_without_microseconds() {
    assert_eq!(format_pg_interval(0, 0, 90_000_000), "00:01:30");
    assert_eq!(format_pg_interval(0, 1, 0), "1 day");
    assert_eq!(format_pg_interval(12, 0, 0), "1 yr");
}

#[test]
fn negative_interval_parts() {
    assert_eq!(format_pg_interval(-14, -2, 0), "-1 yr -2 mon -2 day");
    assert_eq!(format_pg_interval(0, 0, -1), "00:00:00.-00001");
    assert_eq!(format_pg_interval(0, 0, -3_600_000_000), "-1:00:00");
}

#[test]
fn long_interval_hours() {
    assert_eq!(format_pg_interval(0, 0, 360_000_000_000), "100:00:00");
    assert_eq!(format_pg_interval(i32::MIN, i32::MAX, i64::MIN).is_empty(), false);
}

#[test]
fn credentials_must_fit_the_auth_mode() {
    assert!(check_credentials(AuthMode::Password, &Some("pw".to_string())).is_ok());
    assert!(check_credentials(AuthMode::NoAuth, &None).is_ok());
    assert_eq!(check_credentials(AuthMode::Password, &None), Err("password required".to_string()));
    assert_eq!(
        check_credentials(AuthMode::NoAuth, &Some("pw".to_string())),
        Err("password provided but auth mode is none".to_string())
    );
}

#[test]
fn column_types_choose_decoding() {
    assert_eq!(pg_decode("INT4"), PgDecode::Int4);
    assert_eq!(pg_decode("CIDR"), PgDecode::Network);
    assert_eq!(pg_decode("TEXT"), PgDecode::Other);
    assert_eq!(mysql_decode("INT UNSIGNED"), MySqlDecode::U32);
    assert_eq!(mysql_decode("LONGBLOB"), MySqlDecode::Bytes);
    assert_eq!(mysql_decode("VARCHAR"), MySqlDecode::Text);
    assert_eq!(sqlite_decode("REAL"), SqliteDecode::Real);
    assert_eq!(sqlite_decode("NUMERIC"), SqliteDecode::Text);
}

#[test]
fn driver_parameters() {
    assert_eq!(mysql_param("charset"), Ok(MySqlParam::Charset));
    assert_eq!(mysql_param("sslmode"), Err("unsupported mysql parameter: sslmode".to_string()));
    assert_eq!(sqlite_param("busy_timeout"), Ok(SqliteParam::BusyTimeout));
    assert_eq!(sqlite_param("pragma.cache_size"), Ok(SqliteParam::Pragma("cache_size".to_string())));
    assert_eq!(sqlite_param("cache"), Err("unsupported sqlite parameter: cache".to_string()));
}

#[test]
fn sqlite_settings() {
    assert_eq!(sqlite_setting("busy_timeout", "+30"), Ok(SqliteSetting::BusyTimeoutSecs(30)));
    assert!(sqlite_setting("busy_timeout", "-1").is_err());
    assert!(sqlite_setting("busy_timeout", "99999999999999999999").is_err());
    assert_eq!(sqlite_setting("read_only", "true"), Ok(SqliteSetting::ReadOnly(true)));
    assert_eq!(sqlite_setting("foreign_keys", "false"), Ok(SqliteSetting::ForeignKeys(false)));
    assert!(sqlite_setting("create_if_missing", "yes").is_err());
    assert_eq!(sqlite_setting("journal_mode", "WAL"), Ok(SqliteSetting::JournalMode("WAL".to_string())));
    assert_eq!(
        sqlite_setting("pragma.cache_size", "100"),
        Ok(SqliteSetting::Pragma("cache_size".to_string(), "100".to_string()))
    );
    assert_eq!(sqlite_setting("nope", "1"), Err("unsupported sqlite parameter: nope".to_string()));
}

#[test]
fn number_and_flag_texts_read_as_std_reads_them() {
    for t in ["", "+", "-", "0", "+7", "-0", "007", "12a", "a12", "18446744073709551615", "18446744073709551616",
        "99999999999999999999x", "1844674407370955161x", " 1", "١"] {
        assert_eq!(parse_u64_text(t), t.parse::<u64>().map_err(|e| e.to_string()), "{t:?}");
    }
    for t in ["true", "false", "True", "", "1"] {
        assert_eq!(parse_bool_text(t), t.parse::<bool>().map_err(|e| e.to_string()), "{t:?}");
    }
}
