//! Database engines and the URL schemes that name them.

use vstd::prelude::*;
use vstd::std_specs::iter::IteratorSpec;
use crate::text::str_eq;

verus! {

/// A database engine.
#[derive(Debug, Clone, Copy, PartialEq, Eq, Structural)]
pub enum DriverType {
    Postgres,
    Mysql,
    Sqlite,
}

/// The URL schemes that are understood, in the order in which they are tried.
pub open spec fn scheme_list() -> Seq<Seq<char>> {
    seq!["postgresql"@, "postgres"@, "mysql"@, "sqlite"@]
}

/// The engine that a URL scheme names.
pub open spec fn driver_for_scheme(scheme: Seq<char>) -> Option<DriverType> {
    if scheme == "postgresql"@ {
        Some(DriverType::Postgres)
    } else if scheme == "postgres"@ {
        Some(DriverType::Postgres)
    } else if scheme == "mysql"@ {
        Some(DriverType::Mysql)
    } else if scheme == "sqlite"@ {
        Some(DriverType::Sqlite)
    } else {
        None
    }
}

/// The standard port of an engine, where it listens on one.
pub open spec fn spec_default_port(d: DriverType) -> Option<u16> {
    match d {
        DriverType::Postgres => Some(5432u16),
        DriverType::Mysql => Some(3306u16),
        DriverType::Sqlite => None,
    }
}

/// The name under which an engine is shown.
pub open spec fn driver_name(d: DriverType) -> Seq<char> {
    match d {
        DriverType::Postgres => "postgres"@,
        DriverType::Mysql => "mysql"@,
        DriverType::Sqlite => "sqlite"@,
    }
}

impl DriverType {
    /// The engine that a URL scheme names, if any.
    pub fn from_scheme(scheme: &str) -> (r: Option<DriverType>)
        ensures
            r == driver_for_scheme(scheme@),
    {
        if str_eq(scheme, "postgresql") {
            Some(DriverType::Postgres)
        } else if str_eq(scheme, "postgres") {
            Some(DriverType::Postgres)
        } else if str_eq(scheme, "mysql") {
            Some(DriverType::Mysql)
        } else if str_eq(scheme, "sqlite") {
            Some(DriverType::Sqlite)
        } else {
            None
        }
    }

    /// The URL schemes that are understood, in the order in which they are tried.
    pub fn supported_schemes_iter() -> (r: std::vec::IntoIter<&'static str>)
        ensures
            r.remaining().map_values(|s: &str| s@) == scheme_list(),
    {
        let v: Vec<&'static str> = vec!["postgresql", "postgres", "mysql", "sqlite"];
        let it = v.into_iter();
        assert(it.remaining().map_values(|s: &str| s@) =~= scheme_list());
        it
    }

    /// The standard port of the engine, where it listens on one.
    pub fn default_port(&self) -> (r: Option<u16>)
        ensures
            r == spec_default_port(*self),
    {
        match self {
            DriverType::Postgres => Some(5432),
            DriverType::Mysql => Some(3306),
            DriverType::Sqlite => None,
        }
    }

    /// The name under which the engine is shown.
    pub fn to_string(&self) -> (r: String)
        ensures
            r@ == driver_name(*self),
    {
        match self {
            DriverType::Postgres => "postgres".to_owned(),
            DriverType::Mysql => "mysql".to_owned(),
            DriverType::Sqlite => "sqlite".to_owned(),
        }
    }
}

/// A scheme is understood exactly when it is one of the supported schemes.
pub proof fn law_supported_schemes(scheme: Seq<char>)
    ensures
        driver_for_scheme(scheme) is Some <==> scheme_list().contains(scheme),
{
    if driver_for_scheme(scheme) is Some {
        if scheme == "postgresql"@ {
            assert(scheme_list()[0] == scheme);
        } else if scheme == "postgres"@ {
            assert(scheme_list()[1] == scheme);
        } else if scheme == "mysql"@ {
            assert(scheme_list()[2] == scheme);
        } else {
            assert(scheme_list()[3] == scheme);
        }
    }
}

/// The name under which an engine is shown is a scheme that names it.
pub proof fn law_name_is_scheme(d: DriverType)
    ensures
        driver_for_scheme(driver_name(d)) == Some(d),
{
    reveal_strlit("postgresql");
    reveal_strlit("postgres");
    reveal_strlit("mysql");
    reveal_strlit("sqlite");
    assert("postgres"@.len() != "postgresql"@.len());
    assert("mysql"@.len() != "postgresql"@.len());
    assert("mysql"@.len() != "postgres"@.len());
    assert("sqlite"@.len() != "postgresql"@.len());
    assert("sqlite"@.len() != "postgres"@.len());
    assert("sqlite"@[0] != "mysql"@[0]);
    assert("postgres"@ != "postgresql"@);
    assert("mysql"@ != "postgresql"@);
    assert("mysql"@ != "postgres"@);
    assert("sqlite"@ != "postgresql"@);
    assert("sqlite"@ != "postgres"@);
    assert("sqlite"@ != "mysql"@);
}

/// The engines reached over the network have a standard port; SQLite,
/// which opens a file, has none.
pub proof fn law_network_engines_have_ports(d: DriverType)
    ensures
        spec_default_port(d) is Some <==> d != DriverType::Sqlite,
{
}

} // verus!
