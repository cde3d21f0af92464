//! Arguments of the connection commands, database URLs and `KEY=VALUE` options.

use vstd::prelude::*;
use crate::cli::output::OutputArgs;
use crate::domain::driver_type::{driver_for_scheme, scheme_list};
use crate::domain::{ConnectionName, DriverType};
use crate::text::{find_char, find_char_index, join, join_strs, trim, trim_str};

verus! {

/// The connection that a command is about; the default one when no name is given.
#[derive(Debug, Clone)]
pub struct ConnectionRefArgs {
    pub name: Option<ConnectionName>,
}

/// Options of the list command.
#[derive(Debug, Clone)]
pub struct ListArgs {
    pub output: OutputArgs,
}

/// Options shared by the ways of adding a connection.
#[derive(Debug, Clone)]
pub struct AddConnectionOptions {
    pub no_test: bool,
    pub overwrite: bool,
    pub timeout: u64,
    pub set_default: bool,
    pub params: Vec<(String, String)>,
}

/// Arguments for an SQLite connection.
#[derive(Debug, Clone)]
pub struct SqliteArgs {
    pub path: String,
    pub options: AddConnectionOptions,
}

/// Where a network database is: a full URL, or host, port, database and user.
#[derive(Debug, Clone)]
pub struct NetworkConnectionArgs {
    pub url: Option<DatabaseUrl>,
    pub host: Option<String>,
    pub port: Option<u16>,
    pub db: Option<String>,
    pub user: Option<String>,
}

/// The authentication part of an add command.
#[derive(Debug, Clone)]
pub enum AuthSubcommand {
    Auth(AuthArgs),
}

/// How to authenticate.
#[derive(Debug, Clone)]
pub struct AuthArgs {
    pub method: AuthMethod,
}

/// An authentication method.
#[derive(Debug, Clone, PartialEq, Eq)]
pub enum AuthMethod {
    Password(PasswordAuthArgs),
    NoAuth,
}

/// Where a password comes from.
#[derive(Debug, Clone, PartialEq, Eq)]
pub struct PasswordAuthArgs {
    pub secret: SecretSourceArgs,
}

/// Read the secret from standard input, or from an environment variable.
#[derive(Debug, Clone, PartialEq, Eq)]
pub struct SecretSourceArgs {
    pub stdin: bool,
    pub env: Option<String>,
}

/// The parts of a URL that a connection is made of.
#[derive(Debug)]
pub struct UrlParts {
    pub scheme: String,
    pub username: String,
    pub password: Option<String>,
    pub host: Option<String>,
    pub port: Option<u16>,
    pub path: String,
}

/// The parts of a URL as character sequences.
pub struct UrlView {
    pub scheme: Seq<char>,
    pub username: Seq<char>,
    pub password: Option<Seq<char>>,
    pub host: Option<Seq<char>>,
    pub port: Option<u16>,
    pub path: Seq<char>,
}

/// An optional text as an optional character sequence.
pub open spec fn opt_view(o: Option<String>) -> Option<Seq<char>> {
    match o {
        Some(s) => Some(s@),
        None => None,
    }
}

impl View for UrlParts {
    type V = UrlView;

    open spec fn view(&self) -> UrlView {
        UrlView {
            scheme: self.scheme@,
            username: self.username@,
            password: opt_view(self.password),
            host: opt_view(self.host),
            port: self.port,
            path: self.path@,
        }
    }
}

/// What `url::Url::parse` makes of a text: the parts of the URL, or the
/// message of the parse error.
pub uninterp spec fn parsed_url(input: Seq<char>) -> Result<UrlView, Seq<char>>;

/// Parses `input` with `url::Url::parse` and reads the scheme, user name,
/// password, host, port and path of the result with the accessors of the
/// same names; a parse error gives its message. The contract only names the
/// outcome (`parsed_url`): it says that the same text always parses alike,
/// and nothing of how.
#[verifier::external_body]
fn parse_url(input: &str) -> (r: Result<UrlParts, String>)
    ensures
        match r {
            Ok(p) => parsed_url(input@) == Ok::<UrlView, Seq<char>>(p@),
            Err(m) => parsed_url(input@) == Err::<UrlView, Seq<char>>(m@),
        },
{
    match url::Url::parse(input) {
        Ok(u) => Ok(UrlParts {
            scheme: u.scheme().to_string(),
            username: u.username().to_string(),
            password: u.password().map(String::from),
            host: u.host_str().map(String::from),
            port: u.port(),
            path: u.path().to_string(),
        }),
        Err(e) => Err(e.to_string()),
    }
}

/// The message for a URL scheme that names no supported engine.
pub open spec fn unsupported_scheme_message(scheme: Seq<char>) -> Seq<char> {
    "'"@ + scheme + "' is not supported. Supported drivers: "@ + join(scheme_list(), ", "@) + "."@
}

fn clone_opt(o: &Option<String>) -> (r: Option<String>)
    ensures
        opt_view(r) == opt_view(*o),
{
    match o {
        Some(s) => Some(s.clone()),
        None => None,
    }
}

impl Clone for UrlParts {
    fn clone(&self) -> (r: Self)
        ensures
            r@ == self@,
    {
        UrlParts {
            scheme: self.scheme.clone(),
            username: self.username.clone(),
            password: clone_opt(&self.password),
            host: clone_opt(&self.host),
            port: self.port,
            path: self.path.clone(),
        }
    }
}

/// A database URL whose scheme names a supported engine.
#[derive(Debug)]
pub struct DatabaseUrl(UrlParts);

impl Clone for DatabaseUrl {
    fn clone(&self) -> (r: Self)
        ensures
            r@ == self@,
    {
        proof {
            use_type_invariant(self);
        }
        DatabaseUrl(self.0.clone())
    }
}

impl View for DatabaseUrl {
    type V = UrlView;

    closed spec fn view(&self) -> UrlView {
        self.0@
    }
}

impl DatabaseUrl {
    #[verifier::type_invariant]
    closed spec fn supported(self) -> bool {
        driver_for_scheme(self.0.scheme@) is Some
    }

    /// A database URL of parsed parts, when the scheme names a supported engine.
    pub fn from_url_parts(parts: UrlParts) -> (r: Result<DatabaseUrl, String>)
        ensures
            match driver_for_scheme(parts.scheme@) {
                Some(_) => r matches Ok(u) && u@ == parts@,
                None => r matches Err(m) && m@ == unsupported_scheme_message(parts.scheme@),
            },
    {
        match DriverType::from_scheme(parts.scheme.as_str()) {
            Some(_) => Ok(DatabaseUrl(parts)),
            None => {
                let mut m = "'".to_owned();
                m.append(parts.scheme.as_str());
                m.append("' is not supported. Supported drivers: ");
                let names: Vec<&str> = vec!["postgresql", "postgres", "mysql", "sqlite"];
                assert(names@.map_values(|p: &str| p@) =~= scheme_list());
                let joined = join_strs(&names, ", ");
                m.append(joined.as_str());
                m.append(".");
                Err(m)
            },
        }
    }

    /// Parses a database URL.
    pub fn parse(s: &str) -> (r: Result<DatabaseUrl, String>)
        ensures
            match parsed_url(s@) {
                Err(m) => r matches Err(e) && e@ == m,
                Ok(v) => match driver_for_scheme(v.scheme) {
                    Some(_) => r matches Ok(u) && u@ == v,
                    None => r matches Err(m) && m@ == unsupported_scheme_message(v.scheme),
                },
            },
    {
        let parts = parse_url(s)?;
        DatabaseUrl::from_url_parts(parts)
    }

    /// The parts of the URL.
    pub fn url(&self) -> (r: &UrlParts)
        ensures
            r@ == self@,
    {
        &self.0
    }

    /// The password written in the URL.
    pub fn password(&self) -> (r: Option<String>)
        ensures
            opt_view(r) == self@.password,
    {
        self.0.password.clone()
    }

    /// The engine that the scheme names.
    pub fn driver_type(&self) -> (r: DriverType)
        ensures
            driver_for_scheme(self@.scheme) == Some(r),
    {
        proof {
            use_type_invariant(self);
        }
        match DriverType::from_scheme(self.0.scheme.as_str()) {
            Some(d) => d,
            None => DriverType::Postgres,
        }
    }
}

impl std::str::FromStr for DatabaseUrl {
    type Err = String;

    fn from_str(s: &str) -> (r: Result<DatabaseUrl, String>)
        ensures
            match parsed_url(s@) {
                Err(m) => r matches Err(e) && e@ == m,
                Ok(v) => match driver_for_scheme(v.scheme) {
                    Some(_) => r matches Ok(u) && u@ == v,
                    None => r matches Err(m) && m@ == unsupported_scheme_message(v.scheme),
                },
            },
    {
        DatabaseUrl::parse(s)
    }
}

/// How a `KEY=VALUE` option reads: the trimmed key and the value after the
/// first `=`, or the message of what is wrong.
pub open spec fn key_val(s: Seq<char>) -> Result<(Seq<char>, Seq<char>), Seq<char>> {
    match find_char(s, '=') {
        None => Err("expected KEY=VALUE string"@),
        Some(i) => if trim(s.take(i)).len() == 0 {
            Err("Key cannot be empty"@)
        } else {
            Ok((trim(s.take(i)), s.skip(i + 1)))
        },
    }
}

/// Reads a `KEY=VALUE` option.
pub fn parse_key_val(s: &str) -> (r: Result<(String, String), String>)
    ensures
        match key_val(s@) {
            Ok((k, v)) => r matches Ok((rk, rv)) && rk@ == k && rv@ == v,
            Err(m) => r matches Err(e) && e@ == m,
        },
{
    match find_char_index(s, '=') {
        None => Err("expected KEY=VALUE string".to_owned()),
        Some(i) => {
            proof {
                crate::text::lemma_find_char_from(s@, '=', 0);
            }
            let n = s.unicode_len();
            let k = trim_str(s.substring_char(0, i));
            assert(s@.subrange(0, i as int) =~= s@.take(i as int));
            if k.unicode_len() == 0 {
                return Err("Key cannot be empty".to_owned());
            }
            let v = s.substring_char(i + 1, n);
            assert(s@.subrange(i + 1, n as int) =~= s@.skip(i + 1));
            Ok((k.to_owned(), v.to_owned()))
        },
    }
}


/// A `KEY=VALUE` option splits at its first `=`: the key is what stands
/// before it, trimmed, and the value all that follows, `=` signs included.
pub proof fn law_key_value_splits_at_first_equals(k: Seq<char>, v: Seq<char>)
    requires
        !k.contains('='),
        trim(k).len() > 0,
    ensures
        key_val(k + seq!['='] + v) == Ok::<(Seq<char>, Seq<char>), Seq<char>>((trim(k), v)),
{
    let s = k + seq!['='] + v;
    crate::text::lemma_find_char_from(s, '=', 0);
    assert(s[k.len() as int] == '=');
    assert forall|j: int| 0 <= j < k.len() implies s[j] != '=' by {
        assert(s[j] == k[j]);
    }
    assert(find_char(s, '=') == Some(k.len() as int));
    assert(s.take(k.len() as int) =~= k);
    assert(s.skip(k.len() as int + 1) =~= v);
}

/// An option without `=`, or with nothing but white space before its first
/// `=`, is refused.
pub proof fn law_key_value_refusals(s: Seq<char>)
    ensures
        !s.contains('=') ==> key_val(s) == Err::<(Seq<char>, Seq<char>), Seq<char>>("expected KEY=VALUE string"@),
        s.contains('=') && trim(s.take(find_char(s, '=')->0)).len() == 0
            ==> key_val(s) == Err::<(Seq<char>, Seq<char>), Seq<char>>("Key cannot be empty"@),
{
    crate::text::lemma_find_char_from(s, '=', 0);
    if !s.contains('=') {
        if find_char(s, '=') is Some {
            let j = find_char(s, '=')->0;
            assert(s[j] == '=');
        }
    } else {
        let w = choose|w: int| 0 <= w < s.len() && s[w] == '=';
        assert(s[w] == '=');
    }
}

} // verus!
