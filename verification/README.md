# sqel

A command-line tool for named database connections (PostgreSQL, MySQL,
SQLite): it saves connections in a TOML file, keeps their passwords in the
system keychain, tests them, and runs queries or scripts against them.

## Layout

- `src/` is the library, verified with Verus. It holds the decisions of the
  tool with their contracts:
  - `text.rs`, `str_map.rs`: string helpers and an ordered string-keyed map,
    specified over `Seq<char>` and `Map` views;
  - `domain/`: connection names, connections, engines and the saved
    configuration, with the laws of adding, removing and choosing the default;
  - `ports/`, `app/`: the store traits and the connection service that keeps
    the configuration and the keychain in step;
  - `cli/`: command arguments, database URLs, the lines and tables shown to
    the user, and the SQL script handling of the query command (splitting into
    statements, stripping leading comments, telling reads from writes);
  - `infra/`: the configuration path, what keychain answers mean, column
    decoding plans, driver parameters and the text of PostgreSQL intervals.
- `app/` is the program around it: command-line parsing, the terminal, the
  configuration file, the keychain, the database drivers and result output.
- `tests/` runs the library on concrete values.
