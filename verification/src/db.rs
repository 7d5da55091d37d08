use vstd::prelude::*;
use vstd::string::StringExecFns;
use crate::env::{data_home, resolve_data_home, Environment, PathError};
use crate::path::{join, joined};

verus! {

/// One directory of the history, with its visits summed up.
pub struct DirEntry {
    /// Absolute path of the directory.
    pub cwd: String,
    /// Number of commands run in this directory.
    pub freq: i64,
    /// Time of the most recent visit, in nanoseconds since the Unix epoch.
    pub last_visit_ns: i64,
}

/// Where the history database is looked for. The first of these that is
/// there decides: the path given on the command line, `ATUIN_DB_PATH`,
/// `history.db` in `ATUIN_DATA_DIR`, `atuin/history.db` in the data home.
pub open spec fn db_path(cli_override: Option<&str>, env: Environment) -> Option<Seq<char>> {
    if let Some(path) = cli_override {
        Some(path@)
    } else if let Some(path) = env.atuin_db_path {
        Some(path@)
    } else if let Some(dir) = env.atuin_data_dir {
        Some(joined(dir@, "history.db"@))
    } else {
        match data_home(env.xdg_data_home, env.home) {
            Some(base) => Some(joined(joined(base, "atuin"@), "history.db"@)),
            None => None,
        }
    }
}

/// Resolves the path of the history database.
///
/// In this order: the path given on the command line, `ATUIN_DB_PATH`,
/// `ATUIN_DATA_DIR/history.db`, `XDG_DATA_HOME/atuin/history.db`,
/// `~/.local/share/atuin/history.db`. Fails only where none of the first
/// four is there and the home directory is unknown.
pub fn resolve_db_path(cli_override: Option<&str>, env: &Environment) -> (path: Result<
    String,
    PathError,
>)
    ensures
        match db_path(cli_override, *env) {
            Some(expected) => path is Ok && path->Ok_0@ == expected,
            None => path == Err::<String, PathError>(PathError::NoHomeDirectory),
        },
{
    if let Some(given) = cli_override {
        return Ok(String::from_str(given));
    }
    if let Some(given) = &env.atuin_db_path {
        return Ok(given.clone());
    }
    if let Some(dir) = &env.atuin_data_dir {
        return Ok(join(dir.as_str(), "history.db"));
    }
    match resolve_data_home(&env.xdg_data_home, &env.home) {
        Ok(base) => {
            let dir: String = join(base.as_str(), "atuin");
            Ok(join(dir.as_str(), "history.db"))
        },
        Err(e) => Err(e),
    }
}

/// The table that the history is read from.
pub const HISTORY_SCHEMA: &'static str =
    "CREATE TABLE IF NOT EXISTS history (
            id TEXT PRIMARY KEY,
            timestamp INTEGER NOT NULL,
            duration INTEGER NOT NULL,
            exit INTEGER NOT NULL,
            command TEXT NOT NULL,
            cwd TEXT NOT NULL,
            session TEXT NOT NULL,
            hostname TEXT NOT NULL,
            deleted_at INTEGER
        );";

/// The query that sums up every directory of the history: one row for
/// each path with a visit that is not deleted, with the number of such
/// visits and the time of the latest.
pub const ALL_DIRS_SQL: &'static str =
    "SELECT cwd, count(*) AS freq, max(timestamp) AS last_visit FROM history WHERE deleted_at IS NULL GROUP BY cwd";

/// The same query, held to the paths that match the pattern bound to its
/// one parameter.
pub const DIRS_BELOW_SQL: &'static str =
    "SELECT cwd, count(*) AS freq, max(timestamp) AS last_visit FROM history WHERE deleted_at IS NULL AND cwd LIKE ?1 GROUP BY cwd";

/// A query for directory entries: its text, and the pattern to bind to its
/// parameter where it has one.
pub struct DirQuery {
    /// The SQL text.
    pub sql: &'static str,
    /// The `LIKE` pattern for the first parameter, if the text has one.
    pub pattern: Option<String>,
}

/// The query for the directories of the history; with a prefix, for those
/// strictly below it: the pattern is the prefix, a slash and a wildcard,
/// which the prefix itself does not match.
pub fn dir_query(cwd_prefix: Option<&str>) -> (query: DirQuery)
    ensures
        match cwd_prefix {
            Some(prefix) => {
                &&& query.sql@ == DIRS_BELOW_SQL@
                &&& query.pattern is Some
                &&& query.pattern->0@ == prefix@ + "/%"@
            },
            None => query.sql@ == ALL_DIRS_SQL@ && query.pattern is None,
        },
{
    match cwd_prefix {
        Some(prefix) => {
            let mut pattern: String = String::from_str(prefix);
            pattern.append("/%");
            DirQuery { sql: DIRS_BELOW_SQL, pattern: Some(pattern) }
        },
        None => DirQuery { sql: ALL_DIRS_SQL, pattern: None },
    }
}

} // verus!
