//! What the database drivers decide for themselves: whether a password fits
//! the connection's authentication, how each column type is decoded, which
//! connection parameters a driver takes, and how a PostgreSQL interval reads.

use vstd::prelude::*;
use crate::domain::AuthMode;
use crate::text::{decimal, digit_char, join, join_strings, push_decimal, starts_with, str_eq, str_starts_with};

verus! {

/* Credentials */

/// Refuses a password that the authentication mode does not expect, and a
/// missing one that it does.
pub fn check_credentials(auth: AuthMode, password: &Option<String>) -> (r: Result<(), String>)
    ensures
        match r {
            Ok(()) => (auth == AuthMode::Password) == password.is_some(),
            Err(m) => {
                ||| (auth == AuthMode::Password && password.is_none() && m@ == "password required"@)
                ||| (auth == AuthMode::NoAuth && password.is_some() && m@ == "password provided but auth mode is none"@)
            },
        },
{
    match (auth, password) {
        (AuthMode::Password, None) => Err("password required".to_owned()),
        (AuthMode::NoAuth, Some(_)) => Err("password provided but auth mode is none".to_owned()),
        _ => Ok(()),
    }
}

/* Intervals */

/// Integer division rounded toward zero, as Rust's `/` on signed integers.
pub open spec fn tdiv(a: int, b: int) -> int {
    if a >= 0 { a / b } else { -((-a) / b) }
}

/// The remainder that goes with `tdiv`, as Rust's `%` on signed integers.
pub open spec fn trem(a: int, b: int) -> int {
    a - b * tdiv(a, b)
}

pub open spec fn micros_per_hour() -> int {
    3_600_000_000
}

pub open spec fn micros_per_minute() -> int {
    60_000_000
}

pub open spec fn micros_per_second() -> int {
    1_000_000
}

/// An integer as `{}` writes it.
pub open spec fn signed_decimal(n: int) -> Seq<char> {
    if n < 0 { seq!['-'] + decimal((-n) as nat) } else { decimal(n as nat) }
}

/// An integer as `{:0w}` writes it: zeros after the sign up to width `w`.
pub open spec fn zero_padded(n: int, w: nat) -> Seq<char> {
    let sign: Seq<char> = if n < 0 { seq!['-'] } else { seq![] };
    let digits = decimal((if n < 0 { -n } else { n }) as nat);
    let fill = w - sign.len() - digits.len();
    sign + Seq::new((if fill > 0 { fill } else { 0 }) as nat, |i: int| '0') + digits
}

/// The parts of an interval's text: years, months and days where they are
/// not zero, then the time of day where it is not zero, with microseconds
/// where there are any.
pub open spec fn interval_parts(months: int, days: int, micros: int) -> Seq<Seq<char>> {
    let years = tdiv(months, 12);
    let mons = trem(months, 12);
    let hours = tdiv(micros, micros_per_hour());
    let mins = tdiv(trem(micros, micros_per_hour()), micros_per_minute());
    let secs = tdiv(trem(micros, micros_per_minute()), micros_per_second());
    let us = trem(micros, micros_per_second());
    let clock = zero_padded(hours, 2) + ":"@ + zero_padded(mins, 2) + ":"@ + zero_padded(secs, 2);
    (if years != 0 { seq![signed_decimal(years) + " yr"@] } else { seq![] })
        + (if mons != 0 { seq![signed_decimal(mons) + " mon"@] } else { seq![] })
        + (if days != 0 { seq![signed_decimal(days) + " day"@] } else { seq![] })
        + (if hours != 0 || mins != 0 || secs != 0 || us != 0 {
            seq![if us != 0 { clock + "."@ + zero_padded(us, 6) } else { clock }]
        } else {
            seq![]
        })
}

/// The text of an interval: its parts joined by spaces, `00:00:00` when
/// there are none.
pub open spec fn interval_text(months: int, days: int, micros: int) -> Seq<char> {
    let parts = interval_parts(months, days, micros);
    if parts.len() == 0 { "00:00:00"@ } else { join(parts, " "@) }
}

/// An interval has no parts, and so reads `00:00:00`, exactly when it is
/// zero.
pub proof fn law_only_zero_interval_has_no_parts(months: int, days: int, micros: int)
    ensures
        interval_parts(months, days, micros).len() == 0 <==> (months == 0 && days == 0 && micros == 0),
        months == 0 && days == 0 && micros == 0 ==> interval_text(months, days, micros) == "00:00:00"@,
{
}

/// The time of day of an interval reads back the hours, minutes, seconds and
/// microseconds it was made of: `hh:mm:ss`, with `.uuuuuu` where there are
/// microseconds, and nothing for an interval of no time at all.
pub proof fn law_interval_clock_fields(h: int, m: int, sec: int, u: int)
    requires
        h >= 0,
        0 <= m < 60,
        0 <= sec < 60,
        0 <= u < 1_000_000,
    ensures
        ({
            let micros = h * 3_600_000_000 + m * 60_000_000 + sec * 1_000_000 + u;
            let clock = zero_padded(h, 2) + ":"@ + zero_padded(m, 2) + ":"@ + zero_padded(sec, 2);
            interval_parts(0, 0, micros) == if micros == 0 {
                Seq::<Seq<char>>::empty()
            } else if u == 0 {
                seq![clock]
            } else {
                seq![clock + "."@ + zero_padded(u, 6)]
            }
        }),
{
    let micros = h * 3_600_000_000 + m * 60_000_000 + sec * 1_000_000 + u;
    let r1 = m * 60_000_000 + sec * 1_000_000 + u;
    vstd::arithmetic::div_mod::lemma_fundamental_div_mod_converse(micros, 3_600_000_000, h, r1);
    assert(tdiv(micros, micros_per_hour()) == h);
    assert(trem(micros, micros_per_hour()) == r1);
    vstd::arithmetic::div_mod::lemma_fundamental_div_mod_converse(r1, 60_000_000, m, sec * 1_000_000 + u);
    assert(tdiv(trem(micros, micros_per_hour()), micros_per_minute()) == m);
    vstd::arithmetic::div_mod::lemma_fundamental_div_mod_converse(micros, 60_000_000, h * 60 + m, sec * 1_000_000 + u);
    assert(trem(micros, micros_per_minute()) == sec * 1_000_000 + u);
    vstd::arithmetic::div_mod::lemma_fundamental_div_mod_converse(sec * 1_000_000 + u, 1_000_000, sec, u);
    assert(tdiv(trem(micros, micros_per_minute()), micros_per_second()) == sec);
    vstd::arithmetic::div_mod::lemma_fundamental_div_mod_converse(micros, 1_000_000, h * 3600 + m * 60 + sec, u);
    assert(trem(micros, micros_per_second()) == u);
    assert(tdiv(0, 12) == 0 && trem(0, 12) == 0);
    let parts = interval_parts(0, 0, micros);
    assert(parts =~= (if micros == 0 {
        Seq::<Seq<char>>::empty()
    } else if u == 0 {
        seq![zero_padded(h, 2) + ":"@ + zero_padded(m, 2) + ":"@ + zero_padded(sec, 2)]
    } else {
        seq![zero_padded(h, 2) + ":"@ + zero_padded(m, 2) + ":"@ + zero_padded(sec, 2) + "."@ + zero_padded(u, 6)]
    }));
}

/// The years and months of an interval read back the whole years and the
/// months left over of its count of months.
pub proof fn law_interval_years_and_months(y: int, mo: int)
    requires
        y >= 0,
        0 <= mo < 12,
    ensures
        interval_parts(y * 12 + mo, 0, 0) == (if y != 0 { seq![signed_decimal(y) + " yr"@] } else { Seq::<Seq<char>>::empty() })
            + (if mo != 0 { seq![signed_decimal(mo) + " mon"@] } else { Seq::<Seq<char>>::empty() }),
{
    vstd::arithmetic::div_mod::lemma_fundamental_div_mod_converse(y * 12 + mo, 12, y, mo);
    assert(tdiv(y * 12 + mo, 12) == y);
    assert(trem(y * 12 + mo, 12) == mo);
    assert(tdiv(0, micros_per_hour()) == 0);
    assert(trem(0, micros_per_hour()) == 0);
    assert(tdiv(0, micros_per_minute()) == 0);
    assert(trem(0, micros_per_minute()) == 0);
    assert(tdiv(0, micros_per_second()) == 0);
    assert(trem(0, micros_per_second()) == 0);
    assert(interval_parts(y * 12 + mo, 0, 0) =~= (if y != 0 { seq![signed_decimal(y) + " yr"@] } else { Seq::<Seq<char>>::empty() })
        + (if mo != 0 { seq![signed_decimal(mo) + " mon"@] } else { Seq::<Seq<char>>::empty() }));
}

/// Quotient and remainder of `a` by a positive `b`, rounded toward zero.
fn div_rem_toward_zero(a: i64, b: i64) -> (r: (i64, i64))
    requires
        b > 1,
    ensures
        r.0 == tdiv(a as int, b as int),
        r.1 == trem(a as int, b as int),
{
    if a >= 0 {
        let q = a / b;
        let m = a % b;
        proof {
            vstd::arithmetic::div_mod::lemma_fundamental_div_mod(a as int, b as int);
        }
        (q, m)
    } else {
        let na: u64 = (-(a + 1)) as u64 + 1;
        let ub: u64 = b as u64;
        assert(na == -(a as int));
        let q = na / ub;
        let m = na % ub;
        proof {
            vstd::arithmetic::div_mod::lemma_fundamental_div_mod(na as int, ub as int);
            vstd::arithmetic::div_mod::lemma_div_pos_is_pos(na as int, ub as int);
            vstd::arithmetic::div_mod::lemma_div_is_ordered_by_denominator(na as int, 2, ub as int);
            vstd::arithmetic::div_mod::lemma_mod_bound(na as int, ub as int);
        }
        assert(q <= na / 2);
        assert(tdiv(a as int, b as int) == -(q as int));
        assert((b as int) * (-(q as int)) == -((ub as int) * (q as int))) by (nonlinear_arith)
            requires
                b as int == ub as int;
        (-(q as i64), -(m as i64))
    }
}

/// Appends an integer as `{}` writes it.
pub fn push_signed(out: &mut String, n: i64)
    ensures
        final(out)@ == old(out)@ + signed_decimal(n as int),
{
    if n < 0 {
        out.append("-");
        let m: u64 = (-(n + 1)) as u64 + 1;
        push_decimal(out, m);
        proof {
            reveal_strlit("-");
        }
        assert(out@ =~= old(out)@ + signed_decimal(n as int));
    } else {
        push_decimal(out, n as u64);
    }
}

/// Appends an integer as `{:0w}` writes it.
pub fn push_zero_padded(out: &mut String, n: i64, w: usize)
    ensures
        final(out)@ == old(out)@ + zero_padded(n as int, w as nat),
{
    let mut digits = String::new();
    let sign: usize = if n < 0 { 1 } else { 0 };
    if n < 0 {
        push_decimal(&mut digits, (-(n + 1)) as u64 + 1);
    } else {
        push_decimal(&mut digits, n as u64);
    }
    let ghost start = out@;
    if n < 0 {
        out.append("-");
        proof {
            reveal_strlit("-");
        }
    }
    let dl = digits.unicode_len();
    let mut k: usize = 0;
    let fill: usize = if w > sign && w - sign > dl { w - sign - dl } else { 0 };
    while k < fill
        invariant
            k <= fill,
            out@ == start + (if n < 0 { seq!['-'] } else { Seq::<char>::empty() }) + Seq::new(k as nat, |i: int| '0'),
        decreases fill - k,
    {
        let ghost before = out@;
        out.append("0");
        proof {
            reveal_strlit("0");
            assert(Seq::new((k + 1) as nat, |i: int| '0') =~= Seq::new(k as nat, |i: int| '0').push('0'));
        }
        assert(out@ =~= start + (if n < 0 { seq!['-'] } else { Seq::<char>::empty() }) + Seq::new((k + 1) as nat, |i: int| '0'));
        k = k + 1;
    }
    out.append(digits.as_str());
    assert(out@ =~= start + zero_padded(n as int, w as nat));
}

/// The text of a PostgreSQL interval of `months` months, `days` days and
/// `microseconds` microseconds.
pub fn format_pg_interval(months: i32, days: i32, microseconds: i64) -> (r: String)
    ensures
        r@ == interval_text(months as int, days as int, microseconds as int),
{
    let (years, mons) = div_rem_toward_zero(months as i64, 12);
    let (hours, rest_h) = div_rem_toward_zero(microseconds, 3_600_000_000);
    let (mins, _) = div_rem_toward_zero(rest_h, 60_000_000);
    let (_, rest_m) = div_rem_toward_zero(microseconds, 60_000_000);
    let (secs, _) = div_rem_toward_zero(rest_m, 1_000_000);
    let (_, us) = div_rem_toward_zero(microseconds, 1_000_000);
    let mut parts: Vec<String> = Vec::new();
    if years != 0 {
        let mut p = String::new();
        push_signed(&mut p, years);
        p.append(" yr");
        parts.push(p);
    }
    if mons != 0 {
        let mut p = String::new();
        push_signed(&mut p, mons);
        p.append(" mon");
        parts.push(p);
    }
    if days != 0 {
        let mut p = String::new();
        push_signed(&mut p, days as i64);
        p.append(" day");
        parts.push(p);
    }
    if hours != 0 || mins != 0 || secs != 0 || us != 0 {
        let mut p = String::new();
        push_zero_padded(&mut p, hours, 2);
        p.append(":");
        push_zero_padded(&mut p, mins, 2);
        p.append(":");
        push_zero_padded(&mut p, secs, 2);
        if us != 0 {
            p.append(".");
            push_zero_padded(&mut p, us, 6);
        }
        parts.push(p);
    }
    let ghost views = parts@.map_values(|p: String| p@);
    assert(views =~= interval_parts(months as int, days as int, microseconds as int));
    if parts.len() == 0 {
        "00:00:00".to_owned()
    } else {
        join_strings(&parts, " ")
    }
}

/* Column decoding */

/// How a PostgreSQL column is read, chosen by the name of its type.
#[derive(Debug, Clone, Copy, PartialEq, Eq, Structural)]
pub enum PgDecode {
    Bool,
    Int2,
    Int4,
    Int8,
    Float4,
    Float8,
    Numeric,
    Bytea,
    Uuid,
    TimestampTz,
    Timestamp,
    Date,
    Time,
    Interval,
    Network,
    MacAddr,
    Other,
}

/// How a PostgreSQL column of the named type is read.
pub open spec fn pg_decode_spec(name: Seq<char>) -> PgDecode {
    if name == "BOOL"@ { PgDecode::Bool }
    else if name == "INT2"@ { PgDecode::Int2 }
    else if name == "INT4"@ { PgDecode::Int4 }
    else if name == "INT8"@ { PgDecode::Int8 }
    else if name == "FLOAT4"@ { PgDecode::Float4 }
    else if name == "FLOAT8"@ { PgDecode::Float8 }
    else if name == "NUMERIC"@ { PgDecode::Numeric }
    else if name == "BYTEA"@ { PgDecode::Bytea }
    else if name == "UUID"@ { PgDecode::Uuid }
    else if name == "TIMESTAMPTZ"@ { PgDecode::TimestampTz }
    else if name == "TIMESTAMP"@ { PgDecode::Timestamp }
    else if name == "DATE"@ { PgDecode::Date }
    else if name == "TIME"@ { PgDecode::Time }
    else if name == "INTERVAL"@ { PgDecode::Interval }
    else if name == "INET"@ || name == "CIDR"@ { PgDecode::Network }
    else if name == "MACADDR"@ { PgDecode::MacAddr }
    else { PgDecode::Other }
}

/// How a PostgreSQL column of the named type is read.
pub fn pg_decode(column_type: &str) -> (r: PgDecode)
    ensures
        r == pg_decode_spec(column_type@),
{
    if str_eq(column_type, "BOOL") { PgDecode::Bool }
    else if str_eq(column_type, "INT2") { PgDecode::Int2 }
    else if str_eq(column_type, "INT4") { PgDecode::Int4 }
    else if str_eq(column_type, "INT8") { PgDecode::Int8 }
    else if str_eq(column_type, "FLOAT4") { PgDecode::Float4 }
    else if str_eq(column_type, "FLOAT8") { PgDecode::Float8 }
    else if str_eq(column_type, "NUMERIC") { PgDecode::Numeric }
    else if str_eq(column_type, "BYTEA") { PgDecode::Bytea }
    else if str_eq(column_type, "UUID") { PgDecode::Uuid }
    else if str_eq(column_type, "TIMESTAMPTZ") { PgDecode::TimestampTz }
    else if str_eq(column_type, "TIMESTAMP") { PgDecode::Timestamp }
    else if str_eq(column_type, "DATE") { PgDecode::Date }
    else if str_eq(column_type, "TIME") { PgDecode::Time }
    else if str_eq(column_type, "INTERVAL") { PgDecode::Interval }
    else if str_eq(column_type, "INET") || str_eq(column_type, "CIDR") { PgDecode::Network }
    else if str_eq(column_type, "MACADDR") { PgDecode::MacAddr }
    else { PgDecode::Other }
}

/// How a MySQL column is read, chosen by the name of its type.
#[derive(Debug, Clone, Copy, PartialEq, Eq, Structural)]
pub enum MySqlDecode {
    Bool,
    I8,
    I16,
    I32,
    I64,
    U8,
    U16,
    U32,
    U64,
    Float,
    Double,
    Decimal,
    DateTime,
    Date,
    Time,
    Json,
    Bytes,
    Text,
}

/// How a MySQL column of the named type is read.
pub open spec fn mysql_decode_spec(name: Seq<char>) -> MySqlDecode {
    if name == "BOOLEAN"@ { MySqlDecode::Bool }
    else if name == "TINYINT"@ { MySqlDecode::I8 }
    else if name == "SMALLINT"@ { MySqlDecode::I16 }
    else if name == "INT"@ || name == "MEDIUMINT"@ { MySqlDecode::I32 }
    else if name == "BIGINT"@ { MySqlDecode::I64 }
    else if name == "TINYINT UNSIGNED"@ { MySqlDecode::U8 }
    else if name == "SMALLINT UNSIGNED"@ { MySqlDecode::U16 }
    else if name == "INT UNSIGNED"@ || name == "MEDIUMINT UNSIGNED"@ { MySqlDecode::U32 }
    else if name == "BIGINT UNSIGNED"@ { MySqlDecode::U64 }
    else if name == "FLOAT"@ { MySqlDecode::Float }
    else if name == "DOUBLE"@ { MySqlDecode::Double }
    else if name == "DECIMAL"@ { MySqlDecode::Decimal }
    else if name == "TIMESTAMP"@ || name == "DATETIME"@ { MySqlDecode::DateTime }
    else if name == "DATE"@ { MySqlDecode::Date }
    else if name == "TIME"@ { MySqlDecode::Time }
    else if name == "JSON"@ { MySqlDecode::Json }
    else if name == "BINARY"@ || name == "VARBINARY"@ || name == "TINYBLOB"@ || name == "BLOB"@
        || name == "MEDIUMBLOB"@ || name == "LONGBLOB"@ { MySqlDecode::Bytes }
    else { MySqlDecode::Text }
}

/// How a MySQL column of the named type is read.
pub fn mysql_decode(column_type: &str) -> (r: MySqlDecode)
    ensures
        r == mysql_decode_spec(column_type@),
{
    let t = column_type;
    if str_eq(t, "BOOLEAN") { MySqlDecode::Bool }
    else if str_eq(t, "TINYINT") { MySqlDecode::I8 }
    else if str_eq(t, "SMALLINT") { MySqlDecode::I16 }
    else if str_eq(t, "INT") || str_eq(t, "MEDIUMINT") { MySqlDecode::I32 }
    else if str_eq(t, "BIGINT") { MySqlDecode::I64 }
    else if str_eq(t, "TINYINT UNSIGNED") { MySqlDecode::U8 }
    else if str_eq(t, "SMALLINT UNSIGNED") { MySqlDecode::U16 }
    else if str_eq(t, "INT UNSIGNED") || str_eq(t, "MEDIUMINT UNSIGNED") { MySqlDecode::U32 }
    else if str_eq(t, "BIGINT UNSIGNED") { MySqlDecode::U64 }
    else if str_eq(t, "FLOAT") { MySqlDecode::Float }
    else if str_eq(t, "DOUBLE") { MySqlDecode::Double }
    else if str_eq(t, "DECIMAL") { MySqlDecode::Decimal }
    else if str_eq(t, "TIMESTAMP") || str_eq(t, "DATETIME") { MySqlDecode::DateTime }
    else if str_eq(t, "DATE") { MySqlDecode::Date }
    else if str_eq(t, "TIME") { MySqlDecode::Time }
    else if str_eq(t, "JSON") { MySqlDecode::Json }
    else if str_eq(t, "BINARY") || str_eq(t, "VARBINARY") || str_eq(t, "TINYBLOB") || str_eq(t, "BLOB")
        || str_eq(t, "MEDIUMBLOB") || str_eq(t, "LONGBLOB") { MySqlDecode::Bytes }
    else { MySqlDecode::Text }
}

/// How a SQLite column is read, chosen by the name of its type.
#[derive(Debug, Clone, Copy, PartialEq, Eq, Structural)]
pub enum SqliteDecode {
    Bool,
    Integer,
    Real,
    Blob,
    DateTime,
    Date,
    Time,
    Text,
}

/// How a SQLite column of the named type is read.
pub open spec fn sqlite_decode_spec(name: Seq<char>) -> SqliteDecode {
    if name == "BOOLEAN"@ { SqliteDecode::Bool }
    else if name == "INTEGER"@ { SqliteDecode::Integer }
    else if name == "REAL"@ { SqliteDecode::Real }
    else if name == "BLOB"@ { SqliteDecode::Blob }
    else if name == "DATETIME"@ { SqliteDecode::DateTime }
    else if name == "DATE"@ { SqliteDecode::Date }
    else if name == "TIME"@ { SqliteDecode::Time }
    else { SqliteDecode::Text }
}

/// How a SQLite column of the named type is read.
pub fn sqlite_decode(column_type: &str) -> (r: SqliteDecode)
    ensures
        r == sqlite_decode_spec(column_type@),
{
    let t = column_type;
    if str_eq(t, "BOOLEAN") { SqliteDecode::Bool }
    else if str_eq(t, "INTEGER") { SqliteDecode::Integer }
    else if str_eq(t, "REAL") { SqliteDecode::Real }
    else if str_eq(t, "BLOB") { SqliteDecode::Blob }
    else if str_eq(t, "DATETIME") { SqliteDecode::DateTime }
    else if str_eq(t, "DATE") { SqliteDecode::Date }
    else if str_eq(t, "TIME") { SqliteDecode::Time }
    else { SqliteDecode::Text }
}

/* Connection parameters */

/// A connection parameter that the MySQL driver takes.
#[derive(Debug, Clone, Copy, PartialEq, Eq, Structural)]
pub enum MySqlParam {
    SslMode,
    SslCa,
    SslClientCert,
    SslClientKey,
    Charset,
    Collation,
}

/// The MySQL parameter that a key names.
pub open spec fn mysql_param_spec(key: Seq<char>) -> Option<MySqlParam> {
    if key == "ssl_mode"@ { Some(MySqlParam::SslMode) }
    else if key == "ssl_ca"@ { Some(MySqlParam::SslCa) }
    else if key == "ssl_client_cert"@ { Some(MySqlParam::SslClientCert) }
    else if key == "ssl_client_key"@ { Some(MySqlParam::SslClientKey) }
    else if key == "charset"@ { Some(MySqlParam::Charset) }
    else if key == "collation"@ { Some(MySqlParam::Collation) }
    else { None }
}

/// The MySQL parameter that a key names; an unknown key is refused.
pub fn mysql_param(key: &str) -> (r: Result<MySqlParam, String>)
    ensures
        match mysql_param_spec(key@) {
            Some(p) => r == Ok::<MySqlParam, String>(p),
            None => r matches Err(m) && m@ == "unsupported mysql parameter: "@ + key@,
        },
{
    if str_eq(key, "ssl_mode") { Ok(MySqlParam::SslMode) }
    else if str_eq(key, "ssl_ca") { Ok(MySqlParam::SslCa) }
    else if str_eq(key, "ssl_client_cert") { Ok(MySqlParam::SslClientCert) }
    else if str_eq(key, "ssl_client_key") { Ok(MySqlParam::SslClientKey) }
    else if str_eq(key, "charset") { Ok(MySqlParam::Charset) }
    else if str_eq(key, "collation") { Ok(MySqlParam::Collation) }
    else {
        let mut m = "unsupported mysql parameter: ".to_owned();
        m.append(key);
        Err(m)
    }
}

/// A connection parameter that the SQLite driver takes; a `pragma.` key
/// sets the pragma named after the prefix.
#[derive(Debug, Clone, PartialEq, Eq)]
pub enum SqliteParam {
    JournalMode,
    BusyTimeout,
    ReadOnly,
    CreateIfMissing,
    ForeignKeys,
    Pragma(String),
}

/// The prefix of the keys that set SQLite pragmas.
pub open spec fn pragma_prefix() -> Seq<char> {
    seq!['p', 'r', 'a', 'g', 'm', 'a', '.']
}

/// The SQLite parameter that a key names; any `pragma.` key names a pragma.
pub open spec fn sqlite_param_spec(key: Seq<char>) -> Option<SqliteParam> {
    if key == "journal_mode"@ { Some(SqliteParam::JournalMode) }
    else if key == "busy_timeout"@ { Some(SqliteParam::BusyTimeout) }
    else if key == "read_only"@ { Some(SqliteParam::ReadOnly) }
    else if key == "create_if_missing"@ { Some(SqliteParam::CreateIfMissing) }
    else if key == "foreign_keys"@ { Some(SqliteParam::ForeignKeys) }
    else if starts_with(key, pragma_prefix()) { Some(SqliteParam::Pragma(arbitrary())) }
    else { None }
}

/// The SQLite parameter that a key names; an unknown key is refused.
pub fn sqlite_param(key: &str) -> (r: Result<SqliteParam, String>)
    ensures
        match sqlite_param_spec(key@) {
            Some(SqliteParam::Pragma(_)) => r matches Ok(SqliteParam::Pragma(name)) && name@ == key@.skip(7),
            Some(p) => r == Ok::<SqliteParam, String>(p),
            None => r matches Err(m) && m@ == "unsupported sqlite parameter: "@ + key@,
        },
{
    proof {
        reveal_strlit("pragma.");
        assert("pragma."@ =~= pragma_prefix());
    }
    if str_eq(key, "journal_mode") { Ok(SqliteParam::JournalMode) }
    else if str_eq(key, "busy_timeout") { Ok(SqliteParam::BusyTimeout) }
    else if str_eq(key, "read_only") { Ok(SqliteParam::ReadOnly) }
    else if str_eq(key, "create_if_missing") { Ok(SqliteParam::CreateIfMissing) }
    else if str_eq(key, "foreign_keys") { Ok(SqliteParam::ForeignKeys) }
    else if str_starts_with(key, "pragma.") {
        let n = key.unicode_len();
        Ok(SqliteParam::Pragma(key.substring_char(7, n).to_owned()))
    } else {
        let mut m = "unsupported sqlite parameter: ".to_owned();
        m.append(key);
        Err(m)
    }
}

/* SQLite parameter values */

/// The message of a text that holds no number.
pub open spec fn empty_number_message() -> Seq<char> {
    "cannot parse integer from empty string"@
}

/// The message of a text with a character that is not a digit.
pub open spec fn invalid_digit_message() -> Seq<char> {
    "invalid digit found in string"@
}

/// The message of a number that does not fit.
pub open spec fn overflow_message() -> Seq<char> {
    "number too large to fit in target type"@
}

/// The message of a text that is neither `true` nor `false`.
pub open spec fn bool_message() -> Seq<char> {
    "provided string was not `true` or `false`"@
}

/// Reading the decimal digits of `s` from position `i` on, with `acc` read
/// so far: the first character that is not a digit is an invalid digit, and
/// the first digit that makes the value exceed `u64::MAX` an overflow.
pub open spec fn digits_scan(s: Seq<char>, i: int, acc: int) -> Result<int, Seq<char>>
    decreases s.len() - i,
{
    if i < 0 || i >= s.len() {
        Ok(acc)
    } else if !('0' <= s[i] && s[i] <= '9') {
        Err(invalid_digit_message())
    } else if acc * 10 + (s[i] as int - 48) > u64::MAX {
        Err(overflow_message())
    } else {
        digits_scan(s, i + 1, acc * 10 + (s[i] as int - 48))
    }
}

/// How Rust reads an unsigned 64-bit number from a text: an optional `+`
/// and decimal digits; the value, or the message of the error.
pub open spec fn u64_text(s: Seq<char>) -> Result<int, Seq<char>> {
    if s.len() == 0 {
        Err(empty_number_message())
    } else if s.len() == 1 && (s[0] == '+' || s[0] == '-') {
        Err(invalid_digit_message())
    } else {
        digits_scan(s, if s[0] == '+' { 1 } else { 0 }, 0)
    }
}

/// How Rust reads a truth value from a text: exactly `true` or `false`.
pub open spec fn bool_text(s: Seq<char>) -> Result<bool, Seq<char>> {
    if s == "true"@ {
        Ok(true)
    } else if s == "false"@ {
        Ok(false)
    } else {
        Err(bool_message())
    }
}

/// Reads a truth value as `str::parse::<bool>` does.
pub fn parse_bool_text(s: &str) -> (r: Result<bool, String>)
    ensures
        match bool_text(s@) {
            Ok(b) => r == Ok::<bool, String>(b),
            Err(m) => r matches Err(e) && e@ == m,
        },
{
    if crate::text::str_eq(s, "true") {
        Ok(true)
    } else if crate::text::str_eq(s, "false") {
        Ok(false)
    } else {
        Err("provided string was not `true` or `false`".to_owned())
    }
}

/// Reads an unsigned 64-bit number as `str::parse::<u64>` does.
pub fn parse_u64_text(s: &str) -> (r: Result<u64, String>)
    ensures
        match u64_text(s@) {
            Ok(n) => r == Ok::<u64, String>(n as u64) && 0 <= n <= u64::MAX,
            Err(m) => r matches Err(e) && e@ == m,
        },
{
    let n = s.unicode_len();
    if n == 0 {
        return Err("cannot parse integer from empty string".to_owned());
    }
    let c0 = s.get_char(0);
    if n == 1 && (c0 == '+' || c0 == '-') {
        return Err("invalid digit found in string".to_owned());
    }
    let mut i: usize = if c0 == '+' { 1 } else { 0 };
    let mut acc: u64 = 0;
    while i < n
        invariant
            n == s@.len(),
            i <= n,
            u64_text(s@) == digits_scan(s@, i as int, acc as int),
        decreases n - i,
    {
        let c = s.get_char(i);
        if !('0' <= c && c <= '9') {
            return Err("invalid digit found in string".to_owned());
        }
        let d: u64 = (c as u32 - 48) as u64;
        let next = match acc.checked_mul(10) {
            Some(m) => m.checked_add(d),
            None => None,
        };
        match next {
            Some(v) => {
                acc = v;
            },
            None => {
                return Err("number too large to fit in target type".to_owned());
            },
        }
        i = i + 1;
    }
    Ok(acc)
}

/// A SQLite connection setting read from a parameter and its value. The
/// journal mode's value is read by the driver.
#[derive(Debug, Clone, PartialEq, Eq)]
pub enum SqliteSetting {
    JournalMode(String),
    BusyTimeoutSecs(u64),
    ReadOnly(bool),
    CreateIfMissing(bool),
    ForeignKeys(bool),
    Pragma(String, String),
}

/// The setting that a SQLite parameter and its value make: unknown keys are
/// refused; flags read `true` or `false`, the busy timeout a number of
/// seconds; the journal mode and pragma values are taken as they are.
pub fn sqlite_setting(key: &str, value: &str) -> (r: Result<SqliteSetting, String>)
    ensures
        match sqlite_param_spec(key@) {
            None => r matches Err(m) && m@ == "unsupported sqlite parameter: "@ + key@,
            Some(SqliteParam::JournalMode) => r matches Ok(SqliteSetting::JournalMode(v)) && v@ == value@,
            Some(SqliteParam::Pragma(_)) => r matches Ok(SqliteSetting::Pragma(k, v)) && k@ == key@.skip(7) && v@ == value@,
            Some(SqliteParam::BusyTimeout) => match u64_text(value@) {
                Ok(n) => r matches Ok(SqliteSetting::BusyTimeoutSecs(m)) && m == n,
                Err(msg) => r matches Err(e) && e@ == msg,
            },
            Some(p) => match bool_text(value@) {
                Ok(b) => match p {
                    SqliteParam::ReadOnly => r == Ok::<SqliteSetting, String>(SqliteSetting::ReadOnly(b)),
                    SqliteParam::CreateIfMissing => r == Ok::<SqliteSetting, String>(SqliteSetting::CreateIfMissing(b)),
                    _ => r == Ok::<SqliteSetting, String>(SqliteSetting::ForeignKeys(b)),
                },
                Err(msg) => r matches Err(e) && e@ == msg,
            },
        },
{
    proof {
        reveal_strlit("true");
        reveal_strlit("false");
        assert("true"@.len() != "false"@.len());
    }
    match sqlite_param(key)? {
        SqliteParam::JournalMode => Ok(SqliteSetting::JournalMode(value.to_owned())),
        SqliteParam::BusyTimeout => match parse_u64_text(value) {
            Ok(n) => Ok(SqliteSetting::BusyTimeoutSecs(n)),
            Err(e) => Err(e),
        },
        SqliteParam::ReadOnly => match parse_bool_text(value) {
            Ok(b) => Ok(SqliteSetting::ReadOnly(b)),
            Err(e) => Err(e),
        },
        SqliteParam::CreateIfMissing => match parse_bool_text(value) {
            Ok(b) => Ok(SqliteSetting::CreateIfMissing(b)),
            Err(e) => Err(e),
        },
        SqliteParam::ForeignKeys => match parse_bool_text(value) {
            Ok(b) => Ok(SqliteSetting::ForeignKeys(b)),
            Err(e) => Err(e),
        },
        SqliteParam::Pragma(name) => Ok(SqliteSetting::Pragma(name, value.to_owned())),
    }
}


/* What width each decoding reads */

/// How many bytes an integer decoding of a PostgreSQL column reads (0 for a
/// decoding that reads no integer).
pub open spec fn pg_int_bytes(d: PgDecode) -> int {
    match d {
        PgDecode::Int2 => 2,
        PgDecode::Int4 => 4,
        PgDecode::Int8 => 8,
        _ => 0,
    }
}

/// How many bytes a floating-point decoding of a PostgreSQL column reads (0
/// for a decoding that reads no floating-point number).
pub open spec fn pg_float_bytes(d: PgDecode) -> int {
    match d {
        PgDecode::Float4 => 4,
        PgDecode::Float8 => 8,
        _ => 0,
    }
}

/// A PostgreSQL integer type is named by its width in bytes (`INT2`, `INT4`,
/// `INT8`), and its column is read by the integer decoding of that width: an
/// `INT8` value (a `bigint`, such as a count) is read as 64 bits.
pub proof fn law_pg_integer_read_at_its_width(digit: char)
    requires
        digit == '2' || digit == '4' || digit == '8',
    ensures
        pg_int_bytes(pg_decode_spec(seq!['I', 'N', 'T', digit])) == (digit as u32) - 48,
{
    reveal_strlit("BOOL");
    reveal_strlit("INT2");
    reveal_strlit("INT4");
    reveal_strlit("INT8");
    let name = seq!['I', 'N', 'T', digit];
    assert(name != "BOOL"@ ) by { assert(name[0] != "BOOL"@[0]); }
    if digit == '2' {
        assert(name =~= "INT2"@);
    } else if digit == '4' {
        assert(name != "INT2"@) by { assert(name[3] != "INT2"@[3]); }
        assert(name =~= "INT4"@);
    } else {
        assert(name != "INT2"@) by { assert(name[3] != "INT2"@[3]); }
        assert(name != "INT4"@) by { assert(name[3] != "INT4"@[3]); }
        assert(name =~= "INT8"@);
    }
}

/// A PostgreSQL floating-point type is named by its width in bytes
/// (`FLOAT4`, `FLOAT8`), and its column is read at that width.
pub proof fn law_pg_float_read_at_its_width(digit: char)
    requires
        digit == '4' || digit == '8',
    ensures
        pg_float_bytes(pg_decode_spec(seq!['F', 'L', 'O', 'A', 'T', digit])) == (digit as u32) - 48,
{
    reveal_strlit("BOOL");
    reveal_strlit("INT2");
    reveal_strlit("INT4");
    reveal_strlit("INT8");
    reveal_strlit("FLOAT4");
    reveal_strlit("FLOAT8");
    let name = seq!['F', 'L', 'O', 'A', 'T', digit];
    assert(name != "BOOL"@) by { assert(name[0] != "BOOL"@[0]); }
    assert(name != "INT2"@) by { assert(name[0] != "INT2"@[0]); }
    assert(name != "INT4"@) by { assert(name[0] != "INT4"@[0]); }
    assert(name != "INT8"@) by { assert(name[0] != "INT8"@[0]); }
    if digit == '4' {
        assert(name =~= "FLOAT4"@);
    } else {
        assert(name != "FLOAT4"@) by { assert(name[5] != "FLOAT4"@[5]); }
        assert(name =~= "FLOAT8"@);
    }
}

/// The width in bits of an integer decoding of a MySQL column, and whether it
/// is signed ((0, true) for a decoding that reads no integer).
pub open spec fn mysql_int_shape(d: MySqlDecode) -> (int, bool) {
    match d {
        MySqlDecode::I8 => (8, true),
        MySqlDecode::I16 => (16, true),
        MySqlDecode::I32 => (32, true),
        MySqlDecode::I64 => (64, true),
        MySqlDecode::U8 => (8, false),
        MySqlDecode::U16 => (16, false),
        MySqlDecode::U32 => (32, false),
        MySqlDecode::U64 => (64, false),
        _ => (0, true),
    }
}

/// The MySQL integer types, each with the number of bits it stores.
pub open spec fn mysql_int_types() -> Seq<(Seq<char>, int)> {
    seq![
        ("TINYINT"@, 8),
        ("SMALLINT"@, 16),
        ("MEDIUMINT"@, 24),
        ("INT"@, 32),
        ("BIGINT"@, 64),
    ]
}

/// The narrowest of 8, 16, 32 and 64 bits that holds `bits` bits.
pub open spec fn machine_width(bits: int) -> int {
    if bits <= 8 { 8 } else if bits <= 16 { 16 } else if bits <= 32 { 32 } else { 64 }
}

/// A MySQL integer column is read as a signed integer of the narrowest machine
/// width that holds its type, and the same type marked `UNSIGNED` as the
/// unsigned integer of that width.
pub proof fn law_mysql_integer_read_at_its_width(k: int)
    requires
        0 <= k < mysql_int_types().len(),
    ensures
        mysql_int_shape(mysql_decode_spec(mysql_int_types()[k].0)) == (machine_width(mysql_int_types()[k].1), true),
        mysql_int_shape(mysql_decode_spec(mysql_int_types()[k].0 + " UNSIGNED"@))
            == (machine_width(mysql_int_types()[k].1), false),
{
    reveal_strlit("BOOLEAN");
    reveal_strlit("TINYINT");
    reveal_strlit("SMALLINT");
    reveal_strlit("INT");
    reveal_strlit("MEDIUMINT");
    reveal_strlit("BIGINT");
    reveal_strlit("TINYINT UNSIGNED");
    reveal_strlit("SMALLINT UNSIGNED");
    reveal_strlit("INT UNSIGNED");
    reveal_strlit("MEDIUMINT UNSIGNED");
    reveal_strlit("BIGINT UNSIGNED");
    reveal_strlit(" UNSIGNED");
    let name = mysql_int_types()[k].0;
    let un = name + " UNSIGNED"@;
    if k == 0 {
        assert(name != "BOOLEAN"@) by { assert(name[0] != "BOOLEAN"@[0]); }
        assert(un =~= "TINYINT UNSIGNED"@);
    } else if k == 1 {
        assert(un =~= "SMALLINT UNSIGNED"@);
    } else if k == 2 {
        assert(un =~= "MEDIUMINT UNSIGNED"@);
    } else if k == 3 {
        assert(un =~= "INT UNSIGNED"@);
    } else {
        assert(un =~= "BIGINT UNSIGNED"@);
    }
}


/* Reading back a written number */

proof fn lemma_digit_char(d: int)
    requires
        0 <= d < 10,
    ensures
        '0' <= digit_char(d) && digit_char(d) <= '9',
        digit_char(d) as int - 48 == d,
{
}

/// Every character of a decimal representation is a digit.
proof fn lemma_decimal_digits(n: nat)
    ensures
        decimal(n).len() >= 1,
        forall|k: int| 0 <= k < decimal(n).len() ==> '0' <= #[trigger] decimal(n)[k] && decimal(n)[k] <= '9',
    decreases n,
{
    if n < 10 {
        lemma_digit_char(n as int);
    } else {
        lemma_decimal_digits(n / 10);
        lemma_digit_char((n % 10) as int);
        let p = decimal(n / 10);
        assert forall|k: int| 0 <= k < decimal(n).len() implies '0' <= #[trigger] decimal(n)[k] && decimal(n)[k] <= '9' by {
            if k < p.len() {
                assert(decimal(n)[k] == p[k]);
            }
        }
    }
}

/// A digit appended to a text whose digits read `a` reads `10 a + d`.
proof fn lemma_scan_push(p: Seq<char>, c: char, i: int, acc: int, a: int)
    requires
        0 <= i <= p.len(),
        0 <= acc,
        digits_scan(p, i, acc) == Ok::<int, Seq<char>>(a),
        '0' <= c && c <= '9',
        a * 10 + (c as int - 48) <= u64::MAX,
    ensures
        digits_scan(p.push(c), i, acc) == Ok::<int, Seq<char>>(a * 10 + (c as int - 48)),
    decreases p.len() - i,
{
    let q = p.push(c);
    if i == p.len() {
        assert(q[i] == c);
        assert(digits_scan(q, i + 1, acc * 10 + (c as int - 48)) == Ok::<int, Seq<char>>(acc * 10 + (c as int - 48)));
    } else {
        assert(q[i] == p[i]);
        lemma_scan_push(p, c, i + 1, acc * 10 + (p[i] as int - 48), a);
    }
}

proof fn lemma_decimal_scans(n: nat)
    requires
        n <= u64::MAX,
    ensures
        digits_scan(decimal(n), 0, 0) == Ok::<int, Seq<char>>(n as int),
    decreases n,
{
    if n < 10 {
        lemma_digit_char(n as int);
        let s = decimal(n);
        assert(digits_scan(s, 1, n as int) == Ok::<int, Seq<char>>(n as int));
    } else {
        lemma_decimal_scans(n / 10);
        lemma_digit_char((n % 10) as int);
        assert((n / 10) * 10 + n % 10 == n) by (nonlinear_arith);
        lemma_scan_push(decimal(n / 10), digit_char((n % 10) as int), 0, 0, (n / 10) as int);
    }
}

/// A number that fits in 64 bits, written in decimal, with or without a
/// leading `+`, reads back as itself.
pub proof fn law_decimal_reads_back(n: nat)
    requires
        n <= u64::MAX,
    ensures
        u64_text(decimal(n)) == Ok::<int, Seq<char>>(n as int),
        u64_text(seq!['+'] + decimal(n)) == Ok::<int, Seq<char>>(n as int),
{
    lemma_decimal_digits(n);
    lemma_decimal_scans(n);
    let s = decimal(n);
    assert(s[0] != '+' && s[0] != '-');
    lemma_signed_scan_shift(s, 0, 0);
}

/// Reading the digits of `+s` from the second character is reading `s`.
proof fn lemma_signed_scan_shift(s: Seq<char>, i: int, acc: int)
    requires
        0 <= i <= s.len(),
    ensures
        digits_scan(seq!['+'] + s, i + 1, acc) == digits_scan(s, i, acc),
    decreases s.len() - i,
{
    let t = seq!['+'] + s;
    if i < s.len() {
        assert(t[i + 1] == s[i]);
        lemma_signed_scan_shift(s, i + 1, acc * 10 + (s[i] as int - 48));
    }
}

/// A text with a character other than a digit after its optional leading
/// `+` is refused as an invalid digit, never read as a number.
pub proof fn law_non_digit_refused(s: Seq<char>, k: int)
    requires
        0 <= k < s.len(),
        !('0' <= s[k] && s[k] <= '9'),
        k > 0 || s[0] != '+',
    ensures
        u64_text(s) matches Err(m) && (m == invalid_digit_message() || m == overflow_message()),
{
    lemma_scan_meets_non_digit(s, if s[0] == '+' { 1 } else { 0 }, 0, k);
}

proof fn lemma_scan_meets_non_digit(s: Seq<char>, i: int, acc: int, k: int)
    requires
        0 <= i <= k < s.len(),
        !('0' <= s[k] && s[k] <= '9'),
    ensures
        digits_scan(s, i, acc) matches Err(m) && (m == invalid_digit_message() || m == overflow_message()),
    decreases k - i,
{
    if i < k && '0' <= s[i] && s[i] <= '9' && acc * 10 + (s[i] as int - 48) <= u64::MAX {
        lemma_scan_meets_non_digit(s, i + 1, acc * 10 + (s[i] as int - 48), k);
    }
}


/// Every key that starts with `pragma.` names a SQLite pragma, whatever
/// follows the prefix.
pub proof fn law_pragma_keys(name: Seq<char>)
    ensures
        sqlite_param_spec(seq!['p', 'r', 'a', 'g', 'm', 'a', '.'] + name) matches Some(SqliteParam::Pragma(_)),
{
    let key = seq!['p', 'r', 'a', 'g', 'm', 'a', '.'] + name;
    reveal_strlit("journal_mode");
    reveal_strlit("busy_timeout");
    reveal_strlit("read_only");
    reveal_strlit("create_if_missing");
    reveal_strlit("foreign_keys");
    assert(key != "journal_mode"@) by { assert(key[0] != "journal_mode"@[0]); }
    assert(key != "busy_timeout"@) by { assert(key[0] != "busy_timeout"@[0]); }
    assert(key != "read_only"@) by { assert(key[0] != "read_only"@[0]); }
    assert(key != "create_if_missing"@) by { assert(key[0] != "create_if_missing"@[0]); }
    assert(key != "foreign_keys"@) by { assert(key[0] != "foreign_keys"@[0]); }
    assert(key.take(7) =~= pragma_prefix());
}

} // verus!
