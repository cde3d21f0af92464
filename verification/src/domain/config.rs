//! The saved configuration: connections by name, and the default connection.

use vstd::prelude::*;
use vstd::std_specs::iter::IteratorSpec;
use crate::domain::connection::{Connection, ConnectionName};
use crate::str_map::{key_lt, laid_out, StrMap};

verus! {

/// Why a change to the configuration was refused.
#[derive(Debug, Clone, Copy, PartialEq, Eq, Structural)]
pub enum ConfigError {
    AlreadyExists,
    NotFound,
}

/// The message of a configuration error.
pub open spec fn config_error_message(e: ConfigError) -> Seq<char> {
    match e {
        ConfigError::AlreadyExists => "connection with such name already exists"@,
        ConfigError::NotFound => "connection not found"@,
    }
}

impl ConfigError {
    /// The message that explains the error.
    pub fn to_string(&self) -> (r: String)
        ensures
            r@ == config_error_message(*self),
    {
        match self {
            ConfigError::AlreadyExists => "connection with such name already exists".to_owned(),
            ConfigError::NotFound => "connection not found".to_owned(),
        }
    }
}

/// Every connection is stored under its own name.
pub open spec fn keyed_by_name(m: Map<Seq<char>, Connection>) -> bool {
    forall|k: Seq<char>| #[trigger] m.contains_key(k) ==> m[k].spec_name()@ == k
}

/// `s` lists the connections of `m`, each once, in increasing order of their names.
pub open spec fn lists_in_order(m: Map<Seq<char>, Connection>, s: Seq<Connection>) -> bool {
    &&& s.len() == m.dom().len()
    &&& forall|i: int| #![trigger s[i]] 0 <= i < s.len() ==> m.contains_key(s[i].spec_name()@) && m[s[i].spec_name()@] == s[i]
    &&& forall|k: Seq<char>| #[trigger] m.contains_key(k) ==> exists|i: int| 0 <= i < s.len() && s[i].spec_name()@ == k
    &&& forall|i: int, j: int| #![trigger s[i], s[j]] 0 <= i < j < s.len() ==> key_lt(s[i].spec_name()@, s[j].spec_name()@)
}

/// The connections of `s` by name, a later one replacing an earlier one of the same name.
pub open spec fn conns_from(s: Seq<Connection>) -> Map<Seq<char>, Connection>
    decreases s.len(),
{
    if s.len() == 0 {
        Map::empty()
    } else {
        conns_from(s.drop_last()).insert(s.last().spec_name()@, s.last())
    }
}

/// What a configuration holds: its connections by name, and the name of
/// its default connection.
pub type ConfigState = (Map<Seq<char>, Connection>, Option<Seq<char>>);

/// The state after saving `conn` under its name: refused when a connection
/// of that name is saved and `overwrite` is off; with `set_default` it
/// becomes the default.
pub open spec fn after_add(s: ConfigState, conn: Connection, set_default: bool, overwrite: bool) -> Result<ConfigState, ConfigError> {
    let k = conn.spec_name()@;
    if !overwrite && s.0.contains_key(k) {
        Err(ConfigError::AlreadyExists)
    } else {
        Ok((s.0.insert(k, conn), if set_default { Some(k) } else { s.1 }))
    }
}

/// The connection taken out and the state after removing `name`: refused
/// when no such connection is saved; the default is cleared when it was `name`.
pub open spec fn after_remove(s: ConfigState, name: Seq<char>) -> Result<(Connection, ConfigState), ConfigError> {
    if !s.0.contains_key(name) {
        Err(ConfigError::NotFound)
    } else {
        Ok((s.0[name], (s.0.remove(name), if s.1 == Some(name) { None } else { s.1 })))
    }
}

/// The state after making `name` the default: refused when no such
/// connection is saved.
pub open spec fn after_set_default(s: ConfigState, name: Seq<char>) -> Result<ConfigState, ConfigError> {
    if s.0.contains_key(name) {
        Ok((s.0, Some(name)))
    } else {
        Err(ConfigError::NotFound)
    }
}

/// The previous default and the state after clearing the default.
pub open spec fn after_unset_default(s: ConfigState) -> (Option<Seq<char>>, ConfigState) {
    (s.1, (s.0, None))
}

/// The connection saved under `name`.
pub open spec fn lookup(s: ConfigState, name: Seq<char>) -> Option<Connection> {
    if s.0.contains_key(name) { Some(s.0[name]) } else { None }
}

/// The default connection, when set, is one of the saved connections.
pub open spec fn default_saved(s: ConfigState) -> bool {
    s.1 matches Some(d) ==> s.0.contains_key(d)
}

/// Every change keeps the default connection among the saved ones.
pub proof fn law_changes_keep_default_saved(s: ConfigState, conn: Connection, name: Seq<char>, set_default: bool, overwrite: bool)
    requires
        default_saved(s),
    ensures
        after_add(s, conn, set_default, overwrite) matches Ok(t) ==> default_saved(t),
        after_remove(s, name) matches Ok((_, t)) ==> default_saved(t),
        after_set_default(s, name) matches Ok(t) ==> default_saved(t),
        default_saved(after_unset_default(s).1),
{
}

/// A connection that was saved is found under its name, as it was given.
pub proof fn law_get_after_add(s: ConfigState, conn: Connection, set_default: bool, overwrite: bool)
    ensures
        after_add(s, conn, set_default, overwrite) matches Ok(t) ==> lookup(t, conn.spec_name()@) == Some(conn),
{
}

/// Saving a connection under a new name, without making it the default, and
/// then removing it gives the connection back and leaves the configuration
/// as it was.
pub proof fn law_remove_undoes_add(s: ConfigState, conn: Connection, overwrite: bool)
    requires
        default_saved(s),
        !s.0.contains_key(conn.spec_name()@),
    ensures
        after_add(s, conn, false, overwrite) matches Ok(t) && after_remove(t, conn.spec_name()@) == Ok::<(Connection, ConfigState), ConfigError>((conn, s)),
{
    let k = conn.spec_name()@;
    assert(s.0.insert(k, conn).remove(k) =~= s.0);
}

/// Without `overwrite`, a name that is taken is refused and nothing changes;
/// with it, saving the same connection again changes nothing.
pub proof fn law_add_twice(s: ConfigState, conn: Connection, set_default: bool)
    ensures
        after_add(s, conn, set_default, false) matches Ok(t) ==> after_add(t, conn, set_default, false) == Err::<ConfigState, ConfigError>(ConfigError::AlreadyExists),
        after_add(s, conn, set_default, true) matches Ok(t) && after_add(t, conn, set_default, true) == Ok::<ConfigState, ConfigError>(t),
{
    let k = conn.spec_name()@;
    assert(s.0.insert(k, conn).insert(k, conn) =~= s.0.insert(k, conn));
}

/// A connection that was removed is gone: removing it again is refused and
/// it is not found.
pub proof fn law_remove_twice(s: ConfigState, name: Seq<char>)
    ensures
        after_remove(s, name) matches Ok((_, t)) ==> after_remove(t, name) == Err::<(Connection, ConfigState), ConfigError>(ConfigError::NotFound) && lookup(t, name) is None,
{
}

/// Clearing the default gives back the name that was made the default last,
/// and the connections stay as they were.
pub proof fn law_unset_after_set_default(s: ConfigState, name: Seq<char>)
    ensures
        after_set_default(s, name) matches Ok(t) ==> after_unset_default(t) == (Some(name), (s.0, None::<Seq<char>>)),
{
}

/// Saved connections, ordered by name, and the name of the default one.
#[derive(Debug)]
pub struct Config {
    default_connection: Option<ConnectionName>,
    connections: StrMap<Connection>,
}

impl Config {
    #[verifier::type_invariant]
    closed spec fn keys_are_names(self) -> bool {
        keyed_by_name(self.connections@)
    }

    /// The name of the default connection.
    pub closed spec fn default_name(&self) -> Option<Seq<char>> {
        match self.default_connection {
            Some(n) => Some(n@),
            None => None,
        }
    }

    /// The saved connections, by name.
    pub closed spec fn conns(&self) -> Map<Seq<char>, Connection> {
        self.connections@
    }

    /// The connections by name and the default name.
    pub open spec fn state(&self) -> ConfigState {
        (self.conns(), self.default_name())
    }

    /// The default connection, when set, is one of the saved connections.
    pub open spec fn default_is_saved(&self) -> bool {
        default_saved(self.state())
    }

    /// A configuration with no connections and no default.
    pub fn empty() -> (c: Self)
        ensures
            c.default_name() is None,
            c.conns() == Map::<Seq<char>, Connection>::empty(),
    {
        let c = Config { default_connection: None, connections: StrMap::new() };
        c
    }

    /// A configuration made of a default name, taken as it is, and
    /// connections saved under their names in the order given.
    pub fn from_parts(default_connection: Option<ConnectionName>, connections: Vec<Connection>) -> (c: Self)
        ensures
            match default_connection {
                Some(n) => c.default_name() == Some(n@),
                None => c.default_name() is None,
            },
            c.conns() == conns_from(connections@),
    {
        let mut config = Config::empty();
        let ghost all = connections@;
        let mut rest = connections;
        let ghost mut done: int = 0;
        while rest.len() > 0
            invariant
                0 <= done <= all.len(),
                rest@ == all.skip(done),
                config.conns() == conns_from(all.take(done)),
                config.default_name() is None,
            decreases rest@.len(),
        {
            let c = rest.remove(0);
            proof {
                assert(all.take(done + 1).drop_last() =~= all.take(done));
                assert(all.take(done + 1).last() == c);
                assert(rest@ =~= all.skip(done + 1));
            }
            let _ = config.add(c, false, true);
            proof {
                done = done + 1;
            }
        }
        assert(all.take(done) =~= all);
        proof {
            use_type_invariant(&config);
        }
        config.default_connection = default_connection;
        config
    }

    /// Saves `conn` under its name. Without `overwrite`, a connection of that
    /// name must not be saved already. With `set_default`, it becomes the
    /// default connection.
    pub fn add(&mut self, conn: Connection, set_default: bool, overwrite: bool) -> (r: Result<(), ConfigError>)
        ensures
            match after_add(old(self).state(), conn, set_default, overwrite) {
                Ok(s) => r is Ok && final(self).state() == s,
                Err(e) => r == Err::<(), ConfigError>(e) && final(self).state() == old(self).state(),
            },
            old(self).default_is_saved() ==> final(self).default_is_saved(),
    {
        proof {
            use_type_invariant(&*self);
        }
        let name = conn.name().clone();
        if !overwrite && self.connections.contains_key(name.as_str()) {
            return Err(ConfigError::AlreadyExists);
        }
        let mut connections = StrMap::new();
        std::mem::swap(&mut connections, &mut self.connections);
        if set_default {
            self.default_connection = Some(name.clone());
        }
        let _ = connections.insert(name.to_string(), conn);
        assert(keyed_by_name(connections@));
        self.connections = connections;
        Ok(())
    }

    /// Removes the connection called `name`; if it was the default, no
    /// connection is the default any more.
    pub fn remove(&mut self, name: &ConnectionName) -> (r: Result<Connection, ConfigError>)
        ensures
            match after_remove(old(self).state(), name@) {
                Ok((c, s)) => r == Ok::<Connection, ConfigError>(c) && final(self).state() == s,
                Err(e) => r == Err::<Connection, ConfigError>(e) && final(self).state() == old(self).state(),
            },
            r matches Ok(c) ==> c.spec_name()@ == name@,
            old(self).default_is_saved() ==> final(self).default_is_saved(),
    {
        proof {
            use_type_invariant(&*self);
        }
        let mut connections = StrMap::new();
        std::mem::swap(&mut connections, &mut self.connections);
        let removed = connections.remove(name.as_str());
        assert(keyed_by_name(connections@));
        self.connections = connections;
        match removed {
            None => Err(ConfigError::NotFound),
            Some(conn) => {
                let is_default = match &self.default_connection {
                    Some(d) => crate::text::str_eq(d.as_str(), name.as_str()),
                    None => false,
                };
                if is_default {
                    self.default_connection = None;
                }
                Ok(conn)
            },
        }
    }

    /// The saved connections in increasing order of their names.
    pub fn list(&self) -> (r: std::slice::Iter<'_, Connection>)
        ensures
            lists_in_order(self.conns(), r.remaining().map_values(|c: &Connection| *c)),
    {
        proof {
            use_type_invariant(self);
        }
        let n = self.connections.len();
        let keys = self.connections.keys();
        let values = self.connections.values();
        let it = values.iter();
        proof {
            let ks = self.connections.key_seq();
            let vs = self.connections.value_seq();
            assert(it.remaining() == values@.as_ref());
            assert(it.remaining().map_values(|c: &Connection| *c) =~= vs);
            Self::lemma_lists_in_order(self.connections@, ks, vs);
        }
        it
    }

    proof fn lemma_lists_in_order(m: Map<Seq<char>, Connection>, ks: Seq<Seq<char>>, vs: Seq<Connection>)
        requires
            laid_out(ks, vs, m),
            keyed_by_name(m),
            m.dom().finite(),
            m.dom().len() == ks.len(),
        ensures
            lists_in_order(m, vs),
    {
        assert forall|i: int| 0 <= i < vs.len() implies #[trigger] vs[i].spec_name()@ == ks[i] by {
            assert(m.contains_key(ks[i]));
        }
        assert forall|k: Seq<char>| #[trigger] m.contains_key(k) implies exists|i: int| 0 <= i < vs.len() && vs[i].spec_name()@ == k by {
            let i = choose|i: int| 0 <= i < ks.len() && ks[i] == k;
            assert(vs[i].spec_name()@ == ks[i]);
        }
    }

    /// Takes the configuration apart: the default name, and the connections
    /// in increasing order of their names.
    pub fn into_parts(self) -> (r: (Option<ConnectionName>, Vec<Connection>))
        ensures
            match r.0 {
                Some(n) => self.default_name() == Some(n@),
                None => self.default_name() is None,
            },
            lists_in_order(self.conns(), r.1@),
    {
        proof {
            use_type_invariant(&self);
        }
        let n = self.connections.len();
        let _ = self.connections.keys();
        let ghost ks = self.connections.key_seq();
        let Config { default_connection, connections } = self;
        let vals = connections.into_values();
        proof {
            Self::lemma_lists_in_order(connections@, ks, vals@);
        }
        (default_connection, vals)
    }

    /// The connection called `name`.
    pub fn get(&self, name: &ConnectionName) -> (r: Option<&Connection>)
        ensures
            match r {
                Some(c) => lookup(self.state(), name@) == Some(*c) && c.spec_name()@ == name@,
                None => lookup(self.state(), name@) is None,
            },
    {
        proof {
            use_type_invariant(self);
        }
        self.connections.get(name.as_str())
    }

    /// Makes `name` the default connection, when such a connection is saved.
    pub fn set_default(&mut self, name: &ConnectionName) -> (r: Result<(), ConfigError>)
        ensures
            match after_set_default(old(self).state(), name@) {
                Ok(s) => r is Ok && final(self).state() == s,
                Err(e) => r == Err::<(), ConfigError>(e) && final(self).state() == old(self).state(),
            },
            old(self).default_is_saved() ==> final(self).default_is_saved(),
    {
        proof {
            use_type_invariant(&*self);
        }
        if self.connections.contains_key(name.as_str()) {
            self.default_connection = Some(name.clone());
            return Ok(());
        }
        Err(ConfigError::NotFound)
    }

    /// Clears the default connection, giving back the name it had.
    pub fn unset_default(&mut self) -> (r: Option<ConnectionName>)
        ensures
            final(self).state() == after_unset_default(old(self).state()).1,
            match r {
                Some(n) => after_unset_default(old(self).state()).0 == Some(n@),
                None => after_unset_default(old(self).state()).0 is None,
            },
            final(self).default_is_saved(),
    {
        proof {
            use_type_invariant(&*self);
        }
        let mut taken = None;
        std::mem::swap(&mut taken, &mut self.default_connection);
        taken
    }

    /// The name of the default connection.
    pub fn get_default(&self) -> (r: Option<&ConnectionName>)
        ensures
            match r {
                Some(n) => self.default_name() == Some(n@),
                None => self.default_name() is None,
            },
    {
        match &self.default_connection {
            Some(n) => Some(n),
            None => None,
        }
    }
}

} // verus!
