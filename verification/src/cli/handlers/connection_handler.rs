use vstd::prelude::*;
use crate::app::connection_service::warning_message;
use crate::app::ConnectionWarning;
use crate::app::connection_service::list_explained;
use crate::app::{AppError, ConnectionService, ListResult};
use crate::cli::connection::{
    opt_view, AuthMethod, AuthSubcommand, DatabaseUrl, ListArgs, NetworkConnectionArgs, UrlView,
};
use crate::cli::output::{chosen_format, OutputFormat};
use crate::domain::connection::{location_text, storage_name};
use crate::domain::driver_type::{driver_for_scheme, driver_name, spec_default_port};
use crate::domain::{AuthMode, Connection, ConnectionKind, ConnectionName, DriverType, StrMap};
use crate::ports::{ConfigStore, SecretStore};
use crate::str_map::key_lt;
use crate::text::{join, join_strings, strip_leading, strip_leading_str};

verus! {

/// A line for the user.
#[derive(Debug, Clone)]
pub enum ConsoleLine {
    Success(String),
    Info(String),
    Warn(String),
    Error(String),
}

/// Where the password of a new connection is to come from.
#[derive(Debug, Clone, PartialEq, Eq)]
pub enum PasswordSource {
    NoPassword,
    Prompt(String),
    Env(String),
    Stdin,
}

/// The authentication mode that a method selects.
pub fn auth_method_to_auth_mode(method: &AuthMethod) -> (r: AuthMode)
    ensures
        r == match method {
            AuthMethod::Password(_) => AuthMode::Password,
            AuthMethod::NoAuth => AuthMode::NoAuth,
        },
{
    match method {
        AuthMethod::Password(_) => AuthMode::Password,
        AuthMethod::NoAuth => AuthMode::NoAuth,
    }
}

/// The prompt that asks for the password of a new connection.
pub open spec fn prompt_text(name: Seq<char>) -> Seq<char> {
    "Password for '"@ + name + "'"@
}

/// How a new connection authenticates and where its password comes from,
/// given the auth part of the command and whether the URL holds a password.
pub open spec fn auth_plan(auth: Option<AuthSubcommand>, has_url_password: bool, name: Seq<char>) -> Result<(AuthMode, PasswordSource), Seq<char>> {
    match auth {
        None => Ok((AuthMode::Password, if !has_url_password { PasswordSource::Prompt(arbitrary()) } else { PasswordSource::NoPassword })),
        Some(AuthSubcommand::Auth(args)) => match args.method {
            AuthMethod::NoAuth => if has_url_password {
                Err("password provided in URL conflicts with auth none"@)
            } else {
                Ok((AuthMode::NoAuth, PasswordSource::NoPassword))
            },
            AuthMethod::Password(pass) => if has_url_password && (pass.secret.stdin || pass.secret.env is Some) {
                Err("password provided in URL conflicts with --stdin/--env"@)
            } else if pass.secret.env is Some {
                Ok((AuthMode::Password, PasswordSource::Env(pass.secret.env->0)))
            } else if pass.secret.stdin {
                Ok((AuthMode::Password, PasswordSource::Stdin))
            } else if !has_url_password {
                Ok((AuthMode::Password, PasswordSource::Prompt(arbitrary())))
            } else {
                Ok((AuthMode::Password, PasswordSource::NoPassword))
            },
        },
    }
}

/// The plan matches `auth_plan`, a prompt asking for the password of `name`.
pub open spec fn follows_plan(r: Result<(AuthMode, PasswordSource), String>, plan: Result<(AuthMode, PasswordSource), Seq<char>>, name: Seq<char>) -> bool {
    match plan {
        Err(m) => r matches Err(e) && e@ == m,
        Ok((mode, PasswordSource::Prompt(_))) => r matches Ok((rm, PasswordSource::Prompt(p))) && rm == mode && p@ == prompt_text(name),
        Ok((mode, src)) => r == Ok::<(AuthMode, PasswordSource), String>((mode, src)),
    }
}

/// Decides how a new connection authenticates and where its password comes from.
pub fn process_auth(auth_command: &Option<AuthSubcommand>, has_url_password: bool, name: &ConnectionName) -> (r: Result<(AuthMode, PasswordSource), String>)
    ensures
        follows_plan(r, auth_plan(*auth_command, has_url_password, name@), name@),
{
    let auth_args = match auth_command {
        None => {
            let source = if !has_url_password {
                PasswordSource::Prompt(prompt(name))
            } else {
                PasswordSource::NoPassword
            };
            return Ok((AuthMode::Password, source));
        },
        Some(AuthSubcommand::Auth(args)) => args,
    };
    let mode = auth_method_to_auth_mode(&auth_args.method);
    if mode == AuthMode::NoAuth {
        if has_url_password {
            return Err("password provided in URL conflicts with auth none".to_owned());
        }
        return Ok((AuthMode::NoAuth, PasswordSource::NoPassword));
    }
    match &auth_args.method {
        AuthMethod::Password(pass) => {
            if has_url_password && (pass.secret.stdin || pass.secret.env.is_some()) {
                return Err("password provided in URL conflicts with --stdin/--env".to_owned());
            }
            let source = if let Some(env_var) = &pass.secret.env {
                PasswordSource::Env(env_var.clone())
            } else if pass.secret.stdin {
                PasswordSource::Stdin
            } else if !has_url_password {
                PasswordSource::Prompt(prompt(name))
            } else {
                PasswordSource::NoPassword
            };
            Ok((mode, source))
        },
        AuthMethod::NoAuth => Ok((AuthMode::NoAuth, PasswordSource::NoPassword)),
    }
}

fn prompt(name: &ConnectionName) -> (r: String)
    ensures
        r@ == prompt_text(name@),
{
    let mut s = "Password for '".to_owned();
    s.append(name.as_str());
    s.append("'");
    s
}

/// Where a network database is, read from a URL: host, port (the default
/// port when the URL has none), database (the path without its leading
/// slashes) and user.
pub open spec fn url_location(url: UrlView, default_port: u16) -> Result<(Seq<char>, u16, Seq<char>, Seq<char>), Seq<char>> {
    if url.username.len() == 0 {
        Err("missing username in url"@)
    } else if url.host is None {
        Err("missing host in url"@)
    } else {
        Ok((url.host->0, match url.port { Some(p) => p, None => default_port }, strip_leading(url.path, '/'), url.username))
    }
}

/// The kind describes a network database at the given place.
pub open spec fn network_at(kind: ConnectionKind, host: Seq<char>, port: u16, db: Seq<char>, user: Seq<char>) -> bool {
    kind matches ConnectionKind::Network { host: h, port: p, db: d, user: u } && h@ == host && p == port && d@ == db && u@ == user
}

/// The network database that a URL points at.
pub fn db_url_to_connection_kind(url: &DatabaseUrl, default_port: u16) -> (r: Result<ConnectionKind, String>)
    ensures
        match url_location(url@, default_port) {
            Ok((h, p, d, u)) => r matches Ok(k) && network_at(k, h, p, d, u),
            Err(m) => r matches Err(e) && e@ == m,
        },
{
    let parts = url.url();
    if parts.username.as_str().unicode_len() == 0 {
        return Err("missing username in url".to_owned());
    }
    let host = match &parts.host {
        Some(h) => h.clone(),
        None => {
            return Err("missing host in url".to_owned());
        },
    };
    let port = match parts.port {
        Some(p) => p,
        None => default_port,
    };
    Ok(ConnectionKind::Network {
        host,
        port,
        db: strip_leading_str(parts.path.as_str(), '/').to_owned(),
        user: parts.username.clone(),
    })
}

/// The command names the parts of the address that a missing URL leaves to it.
pub open spec fn network_args_complete(args: NetworkConnectionArgs) -> bool {
    args.url is None ==> args.host is Some && args.db is Some && args.user is Some
}

/// Where a network database is, from the URL or from the separate arguments.
pub open spec fn args_location(args: NetworkConnectionArgs, default_port: u16) -> Result<(Seq<char>, u16, Seq<char>, Seq<char>), Seq<char>> {
    match args.url {
        Some(u) => url_location(u@, default_port),
        None => Ok((args.host->0@, match args.port { Some(p) => p, None => default_port }, args.db->0@, args.user->0@)),
    }
}

/// The network database that the arguments describe.
pub fn network_args_to_connection_kind(args: &NetworkConnectionArgs, default_port: u16) -> (r: Result<ConnectionKind, String>)
    requires
        network_args_complete(*args),
    ensures
        match args_location(*args, default_port) {
            Ok((h, p, d, u)) => r matches Ok(k) && network_at(k, h, p, d, u),
            Err(m) => r matches Err(e) && e@ == m,
        },
{
    match &args.url {
        None => {
            let host = match &args.host { Some(h) => h.clone(), None => String::new() };
            let db = match &args.db { Some(d) => d.clone(), None => String::new() };
            let user = match &args.user { Some(u) => u.clone(), None => String::new() };
            let port = match args.port { Some(p) => p, None => default_port };
            Ok(ConnectionKind::Network { host, port, db, user })
        },
        Some(url) => db_url_to_connection_kind(url, default_port),
    }
}

/// The message for a URL whose engine is not the one selected.
pub open spec fn driver_mismatch_message(url_driver: DriverType, driver: DriverType) -> Seq<char> {
    "Driver '"@ + driver_name(url_driver) + "' in url doesn't match selected driver '"@ + driver_name(driver) + "'"@
}

/// Reads the location of a network database, and the password of its URL.
pub fn process_network_args(driver: DriverType, args: &NetworkConnectionArgs) -> (r: Result<(ConnectionKind, Option<String>), String>)
    requires
        driver != DriverType::Sqlite,
        network_args_complete(*args),
    ensures
        match args_location(*args, spec_default_port(driver)->0) {
            Err(m) => r matches Err(e) && e@ == m,
            Ok((h, p, d, u)) => match args.url {
                None => r matches Ok((k, pw)) && network_at(k, h, p, d, u) && pw is None,
                Some(url) => {
                    let url_driver = driver_for_scheme(url@.scheme)->0;
                    if url_driver != driver {
                        r matches Err(e) && e@ == driver_mismatch_message(url_driver, driver)
                    } else {
                        r matches Ok((k, pw)) && network_at(k, h, p, d, u) && opt_view(pw) == url@.password
                    }
                },
            },
        },
{
    let default_port = match driver.default_port() { Some(p) => p, None => 0 };
    let kind = network_args_to_connection_kind(args, default_port)?;
    let mut password = None;
    if let Some(url) = &args.url {
        let url_driver = url.driver_type();
        if url_driver != driver {
            let mut m = "Driver '".to_owned();
            m.append(url_driver.to_string().as_str());
            m.append("' in url doesn't match selected driver '");
            m.append(driver.to_string().as_str());
            m.append("'");
            return Err(m);
        }
        password = url.password();
    }
    Ok((kind, password))
}

/// A warning line for each warning, in order.
pub open spec fn warning_lines_ok(lines: Seq<ConsoleLine>, warnings: Seq<ConnectionWarning>) -> bool {
    &&& lines.len() == warnings.len()
    &&& forall|i: int| 0 <= i < warnings.len() ==> (#[trigger] lines[i] matches ConsoleLine::Warn(m) && m@ == warning_message(warnings[i]))
}

fn warning_lines(warnings: &Vec<ConnectionWarning>) -> (r: Vec<ConsoleLine>)
    ensures
        warning_lines_ok(r@, warnings@),
{
    let mut lines: Vec<ConsoleLine> = Vec::new();
    let mut i: usize = 0;
    while i < warnings.len()
        invariant
            i <= warnings@.len(),
            warning_lines_ok(lines@, warnings@.take(i as int)),
        decreases warnings@.len() - i,
    {
        lines.push(ConsoleLine::Warn(warnings[i].to_string()));
        i = i + 1;
    }
    assert(warnings@.take(warnings@.len() as int) =~= warnings@);
    lines
}

/// The lines after a connection was removed: its warnings, then the success.
pub open spec fn removal_lines_ok(lines: Seq<ConsoleLine>, name: Seq<char>, warnings: Seq<ConnectionWarning>) -> bool {
    &&& lines.len() == warnings.len() + 1
    &&& warning_lines_ok(lines.drop_last(), warnings)
    &&& lines.last() matches ConsoleLine::Success(m) && m@ == "Connection '"@ + name + "' removed."@
}

/// The lines shown after a connection was removed: a warning for each
/// warning, then the success.
pub fn removal_lines(name: &ConnectionName, warnings: &Vec<ConnectionWarning>) -> (r: Vec<ConsoleLine>)
    ensures
        removal_lines_ok(r@, name@, warnings@),
{
    let mut lines = warning_lines(warnings);
    let ghost before = lines@;
    let mut m = "Connection '".to_owned();
    m.append(name.as_str());
    m.append("' removed.");
    lines.push(ConsoleLine::Success(m));
    assert(lines@.drop_last() =~= before);
    lines
}

/// The lines shown after a connection was removed.
pub fn handle_remove<S: SecretStore, C: ConfigStore>(app: &ConnectionService<S, C>, name: ConnectionName) -> (r: Result<Vec<ConsoleLine>, AppError>)
    ensures
        r matches Ok(lines) ==> {
            &&& lines@.len() >= 1
            &&& lines@.last() matches ConsoleLine::Success(m) && m@ == "Connection '"@ + name@ + "' removed."@
            &&& forall|i: int| 0 <= i < lines@.len() - 1 ==> #[trigger] lines@[i] is Warn
        },
{
    match app.remove(&name) {
        Ok(warnings) => {
            let lines = removal_lines(&name, &warnings);
            assert forall|i: int| 0 <= i < lines@.len() - 1 implies #[trigger] lines@[i] is Warn by {
                assert(lines@.drop_last()[i] == lines@[i]);
            }
            Ok(lines)
        },
        Err(e) => Err(e),
    }
}

/// The line shown after a connection was made the default.
pub fn handle_set_default<S: SecretStore, C: ConfigStore>(app: &ConnectionService<S, C>, name: ConnectionName) -> (r: Result<ConsoleLine, AppError>)
    ensures
        r matches Ok(line) ==> line matches ConsoleLine::Success(m) && m@ == "Connection '"@ + name@ + "' set as default."@,
{
    app.set_default(&name)?;
    let mut m = "Connection '".to_owned();
    m.append(name.as_str());
    m.append("' set as default.");
    Ok(ConsoleLine::Success(m))
}

/// The line shown after the default connection was cleared, given the
/// default that it had.
pub open spec fn unset_line_ok(line: ConsoleLine, previous: Option<Seq<char>>) -> bool {
    match previous {
        Some(n) => line matches ConsoleLine::Success(m) && m@ == unset_text(n),
        None => line matches ConsoleLine::Info(m) && m@ == "No default connection was set."@,
    }
}

/// The line shown after the default connection was cleared, given the
/// default that it had.
pub fn unset_line(previous: Option<ConnectionName>) -> (r: ConsoleLine)
    ensures
        unset_line_ok(r, match previous { Some(n) => Some(n@), None => None }),
{
    match previous {
        Some(name) => ConsoleLine::Success(unset_message(&name)),
        None => ConsoleLine::Info("No default connection was set.".to_owned()),
    }
}

/// The line shown after the default connection was cleared.
pub fn handle_unset_default<S: SecretStore, C: ConfigStore>(app: &ConnectionService<S, C>) -> (r: Result<ConsoleLine, AppError>)
    ensures
        r matches Ok(line) ==> exists|p: Option<Seq<char>>| #[trigger] unset_line_ok(line, p),
{
    let previous = app.unset_default()?;
    let ghost p = match &previous { Some(n) => Some(n@), None => None::<Seq<char>> };
    let line = unset_line(previous);
    assert(unset_line_ok(line, p));
    Ok(line)
}

/// The message for a connection that was saved.
pub fn saved_message(name: &ConnectionName) -> (r: String)
    ensures
        r@ == "Connection '"@ + name@ + "' saved."@,
{
    let mut m = "Connection '".to_owned();
    m.append(name.as_str());
    m.append("' saved.");
    m
}

/// The message for a connection test that failed.
pub fn test_failed_message(reason: &str) -> (r: String)
    ensures
        r@ == "Connection test failed: "@ + reason@,
{
    let mut m = "Connection test failed: ".to_owned();
    m.append(reason);
    m
}

/// The lines shown after a connection was saved: a warning for each
/// warning, then the success.
pub fn saved_lines(name: &ConnectionName, warnings: &Vec<ConnectionWarning>) -> (r: Vec<ConsoleLine>)
    ensures
        r@.len() == warnings@.len() + 1,
        warning_lines_ok(r@.drop_last(), warnings@),
        r@.last() matches ConsoleLine::Success(m) && m@ == "Connection '"@ + name@ + "' saved."@,
{
    let mut lines = warning_lines(warnings);
    let ghost before = lines@;
    lines.push(ConsoleLine::Success(saved_message(name)));
    assert(lines@.drop_last() =~= before);
    lines
}

/// The lines shown after a connection was added: a warning for each
/// warning; the outcome of the connection test that followed, when there
/// was one (a failed test leaves the connection saved); then the success.
pub fn saved_report(name: &ConnectionName, warnings: &Vec<ConnectionWarning>, test: Option<Result<(), String>>) -> (r: Vec<ConsoleLine>)
    ensures
        r@.len() == warnings@.len() + 1 + (if test is Some { 1int } else { 0int }),
        warning_lines_ok(r@.take(warnings@.len() as int), warnings@),
        match test {
            Some(Ok(())) => r@[warnings@.len() as int] matches ConsoleLine::Success(m) && m@ == "Connected successfully."@,
            Some(Err(reason)) => r@[warnings@.len() as int] matches ConsoleLine::Error(m) && m@ == "Connection test failed: "@ + reason@,
            None => true,
        },
        r@.last() matches ConsoleLine::Success(m) && m@ == "Connection '"@ + name@ + "' saved."@,
{
    let mut lines = warning_lines(warnings);
    let ghost before = lines@;
    match test {
        Some(Ok(())) => lines.push(ConsoleLine::Success("Connected successfully.".to_owned())),
        Some(Err(reason)) => lines.push(ConsoleLine::Error(test_failed_message(reason.as_str()))),
        None => {},
    }
    lines.push(ConsoleLine::Success(saved_message(name)));
    assert(lines@.take(warnings@.len() as int) =~= before);
    lines
}

/// The message for a default connection that was cleared.
pub open spec fn unset_text(name: Seq<char>) -> Seq<char> {
    "Default connection '"@ + name + "' unset."@
}

/// The message for a default connection that was cleared.
pub fn unset_message(name: &ConnectionName) -> (r: String)
    ensures
        r@ == unset_text(name@),
{
    let mut m = "Default connection '".to_owned();
    m.append(name.as_str());
    m.append("' unset.");
    m
}

/// The `key=value` texts of parameters, joined by commas, or `-` when there are none.
pub open spec fn params_text(p: StrMap<String>) -> Seq<char> {
    let entries = Seq::new(p.key_seq().len(), |i: int| p.key_seq()[i] + "="@ + p.value_seq()[i]@);
    if join(entries, ","@).len() == 0 { "-"@ } else { join(entries, ","@) }
}

/// The row that shows a connection in the list: default marker, name,
/// engine, location, user, authentication and parameters.
pub open spec fn list_row(c: Connection, default_name: Option<Seq<char>>) -> Seq<Seq<char>> {
    seq![
        if default_name == Some(c.spec_name()@) { "*"@ } else { ""@ },
        c.spec_name()@,
        driver_name(c.spec_driver()),
        location_text(c.spec_kind()),
        match c.spec_kind() {
            ConnectionKind::Network { user, .. } => user@,
            ConnectionKind::Sqlite { .. } => "-"@,
        },
        match c.spec_auth() {
            AuthMode::NoAuth => "none"@,
            AuthMode::Password => "password ("@ + storage_name(c.spec_storage()) + ")"@,
        },
        params_text(c.spec_params()),
    ]
}

/// The headers of the connection list.
pub open spec fn list_headers() -> Seq<Seq<char>> {
    seq![""@, "NAME"@, "DRIVER"@, "LOCATION"@, "USER"@, "AUTH"@, "PARAMS"@]
}

fn params_cell(p: &StrMap<String>) -> (r: String)
    ensures
        r@ == params_text(*p),
{
    let keys = p.keys();
    let vals = p.values();
    let mut entries: Vec<String> = Vec::new();
    let mut i: usize = 0;
    let ghost ks = p.key_seq();
    let ghost vs = p.value_seq();
    while i < keys.len()
        invariant
            keys@.map_values(|k: String| k@) == ks,
            vals@ == vs,
            ks.len() == vs.len(),
            i <= keys@.len(),
            entries@.len() == i,
            forall|j: int| 0 <= j < i ==> #[trigger] entries@[j]@ == ks[j] + "="@ + vs[j]@,
        decreases keys@.len() - i,
    {
        let mut e = keys[i].clone();
        e.append("=");
        e.append(vals[i].as_str());
        assert(keys@[i as int]@ == ks[i as int]);
        entries.push(e);
        i = i + 1;
    }
    let joined = join_strings(&entries, ",");
    proof {
        let spec_entries = Seq::new(ks.len(), |j: int| ks[j] + "="@ + vs[j]@);
        assert(entries@.map_values(|p: String| p@) =~= spec_entries);
    }
    if joined.as_str().unicode_len() == 0 {
        "-".to_owned()
    } else {
        joined
    }
}

/// The row that shows a connection in the list.
pub fn list_row_cells(c: &Connection, default_name: &Option<ConnectionName>) -> (r: Vec<String>)
    ensures
        r@.map_values(|s: String| s@) == list_row(*c, opt_name(*default_name)),
{
    let is_default = match default_name {
        Some(d) => crate::text::str_eq(d.as_str(), c.name().as_str()),
        None => false,
    };
    let marker = if is_default { "*".to_owned() } else { "".to_owned() };
    let user = match c.kind() {
        ConnectionKind::Network { user, .. } => user.clone(),
        ConnectionKind::Sqlite { .. } => "-".to_owned(),
    };
    let auth = match c.auth() {
        AuthMode::NoAuth => "none".to_owned(),
        AuthMode::Password => {
            let mut a = "password (".to_owned();
            a.append(c.credential_storage().to_string().as_str());
            a.append(")");
            a
        },
    };
    let mut cells: Vec<String> = Vec::new();
    cells.push(marker);
    cells.push(c.name().to_string());
    cells.push(c.driver().to_string());
    cells.push(c.location());
    cells.push(user);
    cells.push(auth);
    cells.push(params_cell(c.params()));
    assert(cells@.map_values(|s: String| s@) =~= list_row(*c, opt_name(*default_name)));
    cells
}

/// The name held, as a character sequence.
pub open spec fn opt_name(n: Option<ConnectionName>) -> Option<Seq<char>> {
    match n {
        Some(x) => Some(x@),
        None => None,
    }
}

/// The rows of the connection list, one per connection in the order given.
pub fn list_rows(res: &ListResult) -> (r: Vec<Vec<String>>)
    ensures
        r@.len() == res.connections@.len(),
        forall|i: int| 0 <= i < r@.len() ==> (#[trigger] r@[i])@.map_values(|s: String| s@)
            == list_row(res.connections@[i], opt_name(res.default_connection)),
{
    let mut rows: Vec<Vec<String>> = Vec::new();
    let mut i: usize = 0;
    while i < res.connections.len()
        invariant
            i <= res.connections@.len(),
            rows@.len() == i,
            forall|j: int| 0 <= j < i ==> (#[trigger] rows@[j])@.map_values(|s: String| s@)
                == list_row(res.connections@[j], opt_name(res.default_connection)),
        decreases res.connections@.len() - i,
    {
        rows.push(list_row_cells(&res.connections[i], &res.default_connection));
        i = i + 1;
    }
    rows
}

/// The connection list as a table: headers, rows and the format to write it in.
#[derive(Debug)]
pub struct ListTable {
    pub headers: Vec<String>,
    pub rows: Vec<Vec<String>>,
    pub format: OutputFormat,
}

/// `rows` show the connections of `l`, one row each, in order.
pub open spec fn table_shows(rows: Seq<Vec<String>>, l: ListResult) -> bool {
    &&& rows.len() == l.connections@.len()
    &&& forall|i: int| 0 <= i < rows.len() ==> (#[trigger] rows[i])@.map_values(|s: String| s@)
        == list_row(l.connections@[i], opt_name(l.default_connection))
}

/// The table shows what listing the saved connections gave, for some
/// answer of the store.
pub open spec fn list_table_explained(r: Result<ListTable, AppError>) -> bool {
    match r {
        Ok(t) => exists|l: ListResult| #[trigger] table_shows(t.rows@, l) && list_explained(Ok(l)),
        Err(e) => e is Store,
    }
}

/// Builds the table of saved connections.
pub fn handle_list<S: SecretStore, C: ConfigStore>(app: &ConnectionService<S, C>, args: &ListArgs) -> (r: Result<ListTable, AppError>)
    ensures
        r matches Ok(t) ==> t.headers@.map_values(|s: String| s@) == list_headers()
            && t.format == match args.output.output {
                Some(f) => f,
                None => OutputFormat::Table,
            },
        list_table_explained(r),
        r matches Err(e) ==> e is Store,
        r matches Ok(t) ==> forall|i: int| 0 <= i < t.rows@.len() ==> (#[trigger] t.rows@[i])@.len() == 7,
        r matches Ok(t) ==> forall|i: int, j: int| 0 <= i < j < t.rows@.len()
            ==> key_lt((#[trigger] t.rows@[i])@[1]@, (#[trigger] t.rows@[j])@[1]@),
{
    let res = app.list()?;
    let rows = list_rows(&res);
    assert forall|i: int| 0 <= i < rows@.len() implies (#[trigger] rows@[i])@.len() == 7
        && rows@[i]@[1]@ == res.connections@[i].spec_name()@ by {
        assert(rows@[i]@.map_values(|s: String| s@) == list_row(res.connections@[i], opt_name(res.default_connection)));
        assert(rows@[i]@.map_values(|s: String| s@)[1] == rows@[i]@[1]@);
    }
    assert forall|i: int, j: int| 0 <= i < j < rows@.len()
        implies key_lt((#[trigger] rows@[i])@[1]@, (#[trigger] rows@[j])@[1]@) by {
        assert(rows@[i]@[1]@ == res.connections@[i].spec_name()@);
        assert(rows@[j]@[1]@ == res.connections@[j].spec_name()@);
        assert(key_lt(res.connections@[i].spec_name()@, res.connections@[j].spec_name()@));
    }
    let mut headers: Vec<String> = Vec::new();
    headers.push("".to_owned());
    headers.push("NAME".to_owned());
    headers.push("DRIVER".to_owned());
    headers.push("LOCATION".to_owned());
    headers.push("USER".to_owned());
    headers.push("AUTH".to_owned());
    headers.push("PARAMS".to_owned());
    assert(headers@.map_values(|s: String| s@) =~= list_headers());
    assert(table_shows(rows@, res));
    let t = ListTable { headers, rows, format: chosen_format(&args.output) };
    assert(table_shows(t.rows@, res) && list_explained(Ok::<ListResult, AppError>(res)));
    Ok(t)
}


/// A port written in the URL is the port of the connection: what the URL
/// gives does not depend on the default port, and its port is the URL's.
pub proof fn law_url_port_wins(url: UrlView, default_a: u16, default_b: u16, p: u16)
    requires
        url.port == Some(p),
    ensures
        url_location(url, default_a) == url_location(url, default_b),
        url_location(url, default_a) matches Ok(loc) ==> loc.1 == p,
{
}

/// The default port is taken only when the URL has none; host, database and
/// user come from the URL whatever the default port.
pub proof fn law_url_default_port_only_when_missing(url: UrlView, default_port: u16)
    requires
        url.port is None,
        url.username.len() > 0,
        url.host is Some,
    ensures
        url_location(url, default_port) matches Ok(loc)
            && loc.0 == url.host->0
            && loc.1 == default_port
            && loc.3 == url.username,
{
}

/// A URL with a user and a host always gives a network connection; one
/// without a user or without a host never does.
pub proof fn law_url_needs_user_and_host(url: UrlView, default_port: u16)
    ensures
        url_location(url, default_port) is Ok <==> (url.username.len() > 0 && url.host is Some),
{
}

/// Where the password of a connection that authenticates by password comes
/// from: the URL when it holds one (no other source is then asked for);
/// otherwise never none, but the named environment variable, standard input
/// or a prompt that asks `Password for '<name>'`. A connection without
/// authentication has no password source, and is refused beside a password in
/// the URL.
pub proof fn law_password_source(
    auth: Option<AuthSubcommand>,
    has_url_password: bool,
    name: Seq<char>,
    r: Result<(AuthMode, PasswordSource), String>,
)
    requires
        follows_plan(r, auth_plan(auth, has_url_password, name), name),
    ensures
        r matches Ok((AuthMode::Password, src)) ==> {
            &&& (src is NoPassword <==> has_url_password)
            &&& (src matches PasswordSource::Prompt(p) ==> p@ == "Password for '"@ + name + "'"@)
        },
        r matches Ok((AuthMode::NoAuth, src)) ==> src is NoPassword && !has_url_password,
        auth is None ==> r matches Ok((AuthMode::Password, _)),
{
}

/// With `auth password` and neither `--env` nor `--stdin`, a URL without a
/// password makes the user be prompted for it.
pub proof fn law_password_prompted_when_url_has_none(
    auth: Option<AuthSubcommand>,
    name: Seq<char>,
    r: Result<(AuthMode, PasswordSource), String>,
)
    requires
        follows_plan(r, auth_plan(auth, false, name), name),
        auth is None || (auth matches Some(AuthSubcommand::Auth(args))
            && args.method matches AuthMethod::Password(pass)
            && !pass.secret.stdin && pass.secret.env is None),
    ensures
        r matches Ok((AuthMode::Password, PasswordSource::Prompt(p)))
            && p@ == "Password for '"@ + name + "'"@,
{
}


/// Without a URL, the separate arguments say where the database is: the
/// port given wins over the default, which is taken only when none is given.
pub proof fn law_args_port(args: NetworkConnectionArgs, default_a: u16, default_b: u16)
    requires
        args.url is None,
        network_args_complete(args),
    ensures
        args_location(args, default_a) matches Ok(loc) && loc.0 == args.host->0@ && loc.2 == args.db->0@
            && loc.3 == args.user->0@,
        args.port matches Some(p) ==> args_location(args, default_a) == args_location(args, default_b)
            && args_location(args, default_a)->Ok_0.1 == p,
        args.port is None ==> args_location(args, default_a)->Ok_0.1 == default_a,
{
}

/// With a URL, the separate arguments are not read: the URL alone says where
/// the database is.
pub proof fn law_url_over_args(args: NetworkConnectionArgs, other: NetworkConnectionArgs, default_port: u16)
    requires
        args.url is Some,
        other.url == args.url,
    ensures
        args_location(args, default_port) == args_location(other, default_port),
{
}

} // verus!
