//! Connection names and saved connections.

use vstd::prelude::*;
use vstd::string::*;
use vstd::utf8::*;
use crate::domain::driver_type::DriverType;
use crate::str_map::StrMap;
use crate::text::{decimal, push_decimal};

verus! {

broadcast use vstd::string::is_ascii_spec_bytes;

/// Why a text is not a connection name.
#[derive(Debug, Clone, Copy, PartialEq, Eq, Structural)]
pub enum ConnectionNameError {
    Empty,
    NonAscii,
    InvalidCharacters,
    TooLong,
}

/// Longest connection name, in characters.
pub const MAX_NAME_LEN: usize = 32;

/// A character allowed in a connection name: an ASCII letter or digit, `_` or `-`.
pub open spec fn name_char(c: char) -> bool {
    ('a' <= c && c <= 'z') || ('A' <= c && c <= 'Z') || ('0' <= c && c <= '9') || c == '_' || c == '-'
}

/// The first rule that a candidate name breaks, checked in the order: empty,
/// not ASCII, longer than 32 characters, a character other than a letter,
/// digit, `_` or `-`.
pub open spec fn name_error(s: Seq<char>) -> Option<ConnectionNameError> {
    if s.len() == 0 {
        Some(ConnectionNameError::Empty)
    } else if !is_ascii_chars(s) {
        Some(ConnectionNameError::NonAscii)
    } else if s.len() > 32 {
        Some(ConnectionNameError::TooLong)
    } else if !(forall|i: int| 0 <= i < s.len() ==> name_char(#[trigger] s[i])) {
        Some(ConnectionNameError::InvalidCharacters)
    } else {
        None
    }
}

/// A valid connection name.
pub open spec fn valid_name(s: Seq<char>) -> bool {
    name_error(s) is None
}

/// The message of a name error.
pub open spec fn name_error_message(e: ConnectionNameError) -> Seq<char> {
    match e {
        ConnectionNameError::Empty => "cannot be empty"@,
        ConnectionNameError::NonAscii => "only ASCII characters are allowed"@,
        ConnectionNameError::InvalidCharacters => "may only contain letters, numbers, '-' or '_'"@,
        ConnectionNameError::TooLong => "cannot be longer than 32 characters"@,
    }
}

impl ConnectionNameError {
    /// The message that explains the error.
    pub fn to_string(&self) -> (r: String)
        ensures
            r@ == name_error_message(*self),
    {
        match self {
            ConnectionNameError::Empty => "cannot be empty".to_owned(),
            ConnectionNameError::NonAscii => "only ASCII characters are allowed".to_owned(),
            ConnectionNameError::InvalidCharacters => "may only contain letters, numbers, '-' or '_'".to_owned(),
            ConnectionNameError::TooLong => "cannot be longer than 32 characters".to_owned(),
        }
    }
}

/// The name of a saved connection: 1 to 32 ASCII letters, digits, `_` or `-`.
#[derive(Debug)]
pub struct ConnectionName(String);

impl View for ConnectionName {
    type V = Seq<char>;

    closed spec fn view(&self) -> Seq<char> {
        self.0@
    }
}

fn name_byte(b: u8) -> (r: bool)
    ensures
        r == name_char(b as char),
{
    (97 <= b && b <= 122) || (65 <= b && b <= 90) || (48 <= b && b <= 57) || b == 95 || b == 45
}

impl ConnectionName {
    #[verifier::type_invariant]
    closed spec fn is_valid(self) -> bool {
        valid_name(self.0@)
    }

    /// Checks `s` against the naming rules and makes a name of it.
    pub fn parse(s: &str) -> (r: Result<ConnectionName, ConnectionNameError>)
        ensures
            match r {
                Ok(n) => name_error(s@) is None && n@ == s@,
                Err(e) => name_error(s@) == Some(e),
            },
    {
        if s.is_empty() {
            return Err(ConnectionNameError::Empty);
        }
        if !s.is_ascii() {
            return Err(ConnectionNameError::NonAscii);
        }
        let bytes = s.as_bytes();
        assert(vstd::string::is_ascii(s));
        assert(s.spec_bytes() =~= Seq::new(s@.len(), |i| s@.index(i) as u8));
        if bytes.len() > MAX_NAME_LEN {
            return Err(ConnectionNameError::TooLong);
        }
        assert(vstd::string::is_ascii(s));
        assert(s.spec_bytes() =~= Seq::new(s@.len(), |i| s@.index(i) as u8));
        let mut i: usize = 0;
        while i < bytes.len()
            invariant
                is_ascii_chars(s@),
                s@.len() <= 32,
                s.spec_bytes() =~= Seq::new(s@.len(), |i| s@.index(i) as u8),
                bytes@ == s.spec_bytes(),
                bytes@.len() == s@.len(),
                i <= bytes@.len(),
                forall|j: int| 0 <= j < i ==> name_char(#[trigger] s@[j]),
            decreases bytes@.len() - i,
        {
            assert(bytes@[i as int] == s@[i as int] as u8);
            assert(s@[i as int] as u32 <= 0x7f);
            if !name_byte(bytes[i]) {
                assert(!name_char(s@[i as int]));
                return Err(ConnectionNameError::InvalidCharacters);
            }
            i = i + 1;
        }
        Ok(ConnectionName(s.to_owned()))
    }

    /// The name as text.
    pub fn as_str(&self) -> (r: &str)
        ensures
            r@ == self@,
            valid_name(self@),
    {
        proof {
            use_type_invariant(self);
        }
        self.0.as_str()
    }

    /// The name as an owned string.
    pub fn to_string(&self) -> (r: String)
        ensures
            r@ == self@,
    {
        self.0.clone()
    }
}

impl Clone for ConnectionName {
    fn clone(&self) -> (r: Self)
        ensures
            r@ == self@,
    {
        proof {
            use_type_invariant(self);
        }
        ConnectionName(self.0.clone())
    }
}

impl PartialEq for ConnectionName {
    fn eq(&self, other: &Self) -> (r: bool) {
        self.0 == other.0
    }
}

impl Eq for ConnectionName {
}

impl vstd::std_specs::cmp::PartialEqSpecImpl for ConnectionName {
    open spec fn obeys_eq_spec() -> bool {
        true
    }

    open spec fn eq_spec(&self, other: &ConnectionName) -> bool {
        self@ == other@
    }
}

impl std::str::FromStr for ConnectionName {
    type Err = ConnectionNameError;

    fn from_str(s: &str) -> (r: Result<ConnectionName, ConnectionNameError>)
        ensures
            match r {
                Ok(n) => name_error(s@) is None && n@ == s@,
                Err(e) => name_error(s@) == Some(e),
            },
    {
        ConnectionName::parse(s)
    }
}

/// How a connection authenticates.
#[derive(Debug, Clone, Copy, PartialEq, Eq, Structural)]
pub enum AuthMode {
    NoAuth,
    Password,
}

/// Where the password of a connection is kept.
#[derive(Debug, Clone, Copy, PartialEq, Eq, Structural)]
pub enum CredentialStorage {
    NotStored,
    KeyStore,
    Prompt,
}

/// The name under which a credential storage is shown.
pub open spec fn storage_name(c: CredentialStorage) -> Seq<char> {
    match c {
        CredentialStorage::NotStored => "none"@,
        CredentialStorage::KeyStore => "keystore"@,
        CredentialStorage::Prompt => "prompt"@,
    }
}

impl CredentialStorage {
    /// The name under which the storage is shown.
    pub fn to_string(&self) -> (r: String)
        ensures
            r@ == storage_name(*self),
    {
        match self {
            CredentialStorage::NotStored => "none".to_owned(),
            CredentialStorage::KeyStore => "keystore".to_owned(),
            CredentialStorage::Prompt => "prompt".to_owned(),
        }
    }
}

/// Where a database is reached.
#[derive(Debug, Clone)]
pub enum ConnectionKind {
    Network { host: String, port: u16, db: String, user: String },
    Sqlite { path: String },
}

/// The text that shows where a database is: `host:port/db`, or the file path.
pub open spec fn location_text(kind: ConnectionKind) -> Seq<char> {
    match kind {
        ConnectionKind::Network { host, port, db, .. } => host@ + ":"@ + decimal(port as nat) + "/"@ + db@,
        ConnectionKind::Sqlite { path } => path@,
    }
}

impl ConnectionKind {
    /// Host, port, database and user of a network database.
    pub fn as_network(&self) -> (r: Option<(&str, u16, &str, &str)>)
        ensures
            match self {
                ConnectionKind::Network { host, port, db, user } => r matches Some(t) && t.0@ == host@
                    && t.1 == *port && t.2@ == db@ && t.3@ == user@,
                ConnectionKind::Sqlite { .. } => r is None,
            },
    {
        match self {
            ConnectionKind::Network { host, port, db, user } => Some(
                (host.as_str(), *port, db.as_str(), user.as_str()),
            ),
            ConnectionKind::Sqlite { .. } => None,
        }
    }

    /// File path of an SQLite database.
    pub fn as_sqlite(&self) -> (r: Option<&str>)
        ensures
            match self {
                ConnectionKind::Sqlite { path } => r matches Some(p) && p@ == path@,
                ConnectionKind::Network { .. } => r is None,
            },
    {
        match self {
            ConnectionKind::Sqlite { path } => Some(path.as_str()),
            ConnectionKind::Network { .. } => None,
        }
    }
}

/// A saved connection.
#[derive(Debug, Clone)]
pub struct Connection {
    name: ConnectionName,
    driver: DriverType,
    kind: ConnectionKind,
    auth: AuthMode,
    credential_storage: CredentialStorage,
    params: StrMap<String>,
}

impl Connection {
    pub closed spec fn spec_name(&self) -> ConnectionName {
        self.name
    }

    pub closed spec fn spec_driver(&self) -> DriverType {
        self.driver
    }

    pub closed spec fn spec_kind(&self) -> ConnectionKind {
        self.kind
    }

    pub closed spec fn spec_auth(&self) -> AuthMode {
        self.auth
    }

    pub closed spec fn spec_storage(&self) -> CredentialStorage {
        self.credential_storage
    }

    pub closed spec fn spec_params(&self) -> StrMap<String> {
        self.params
    }

    /// The connection made of the given parts.
    pub closed spec fn made_of(
        name: ConnectionName,
        driver: DriverType,
        kind: ConnectionKind,
        auth: AuthMode,
        credential_storage: CredentialStorage,
        params: StrMap<String>,
    ) -> Connection {
        Connection { name, driver, kind, auth, credential_storage, params }
    }

    /// The parts of a connection made of parts are those parts.
    pub proof fn lemma_made_of(
        name: ConnectionName,
        driver: DriverType,
        kind: ConnectionKind,
        auth: AuthMode,
        credential_storage: CredentialStorage,
        params: StrMap<String>,
    )
        ensures
            ({
                let c = Connection::made_of(name, driver, kind, auth, credential_storage, params);
                &&& c.spec_name() == name
                &&& c.spec_driver() == driver
                &&& c.spec_kind() == kind
                &&& c.spec_auth() == auth
                &&& c.spec_storage() == credential_storage
                &&& c.spec_params() == params
            }),
    {
    }

    /// A connection made of its parts.
    pub fn new(
        name: ConnectionName,
        driver: DriverType,
        kind: ConnectionKind,
        auth: AuthMode,
        credential_storage: CredentialStorage,
        params: StrMap<String>,
    ) -> (c: Self)
        ensures
            c == Connection::made_of(name, driver, kind, auth, credential_storage, params),
            c.spec_name() == name,
            c.spec_driver() == driver,
            c.spec_kind() == kind,
            c.spec_auth() == auth,
            c.spec_storage() == credential_storage,
            c.spec_params() == params,
    {
        Connection { name, driver, kind, auth, credential_storage, params }
    }

    /// The name of the connection.
    pub fn name(&self) -> (r: &ConnectionName)
        ensures
            *r == self.spec_name(),
    {
        &self.name
    }

    /// The engine.
    pub fn driver(&self) -> (r: DriverType)
        ensures
            r == self.spec_driver(),
    {
        self.driver
    }

    /// Where the database is.
    pub fn kind(&self) -> (r: &ConnectionKind)
        ensures
            *r == self.spec_kind(),
    {
        &self.kind
    }

    /// How the connection authenticates.
    pub fn auth(&self) -> (r: AuthMode)
        ensures
            r == self.spec_auth(),
    {
        self.auth
    }

    /// Where the password is kept.
    pub fn credential_storage(&self) -> (r: CredentialStorage)
        ensures
            r == self.spec_storage(),
    {
        self.credential_storage
    }

    /// The extra parameters, by name.
    pub fn params(&self) -> (r: &StrMap<String>)
        ensures
            *r == self.spec_params(),
    {
        &self.params
    }

    /// Where the database is: `host:port/db` for a network database, the file
    /// path for SQLite.
    pub fn location(&self) -> (r: String)
        ensures
            r@ == location_text(self.spec_kind()),
    {
        match &self.kind {
            ConnectionKind::Network { host, port, db, .. } => {
                let mut out = host.clone();
                out.append(":");
                push_decimal(&mut out, *port as u64);
                out.append("/");
                out.append(db.as_str());
                out
            },
            ConnectionKind::Sqlite { path } => path.clone(),
        }
    }
}


/// The characters a connection name may be made of: ASCII letters and
/// digits, `_` and `-`.
pub open spec fn name_symbol(c: char) -> bool {
    ||| ('0' <= c && c <= '9')
    ||| ('A' <= c && c <= 'Z')
    ||| ('a' <= c && c <= 'z')
    ||| c == '_'
    ||| c == '-'
}

/// A connection name is valid exactly when it has from 1 to 32 characters,
/// each an ASCII letter or digit, `_` or `-`.
pub proof fn law_valid_names(s: Seq<char>)
    ensures
        valid_name(s) <==> (1 <= s.len() <= 32 && forall|k: int| 0 <= k < s.len() ==> name_symbol(#[trigger] s[k])),
{
    if 1 <= s.len() <= 32 && forall|k: int| 0 <= k < s.len() ==> name_symbol(#[trigger] s[k]) {
        assert forall|k: int| 0 <= k < s.len() implies '\0' <= #[trigger] s[k] <= '\u{7f}' by {
            assert(name_symbol(s[k]));
        }
        assert forall|k: int| 0 <= k < s.len() implies name_char(#[trigger] s[k]) by {
            assert(name_symbol(s[k]));
        }
    }
    if valid_name(s) {
        assert forall|k: int| 0 <= k < s.len() implies name_symbol(#[trigger] s[k]) by {
            assert(name_char(s[k]));
        }
    }
}

/// Which rule a non-empty refused name breaks: a character beyond ASCII
/// makes it non-ASCII before its length is looked at; an ASCII name longer
/// than 32 characters is too long; and an ASCII name of at most 32 characters
/// with a character other than a letter, digit, `_` or `-` has invalid
/// characters.
pub proof fn law_name_errors(s: Seq<char>, k: int)
    requires
        0 <= k < s.len(),
    ensures
        s[k] > '\u{7f}' ==> name_error(s) == Some(ConnectionNameError::NonAscii),
        is_ascii_chars(s) && s.len() > 32 ==> name_error(s) == Some(ConnectionNameError::TooLong),
        is_ascii_chars(s) && s.len() <= 32 && !name_symbol(s[k])
            ==> name_error(s) == Some(ConnectionNameError::InvalidCharacters),
{
    if is_ascii_chars(s) && s.len() <= 32 && !name_symbol(s[k]) {
        assert(!name_char(s[k]));
    }
}

} // verus!
