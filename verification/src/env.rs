use vstd::prelude::*;
use crate::path::{join, joined};

verus! {

/// What the process environment says about where data lives. A variable
/// that is unset, or that does not hold valid text, is `None`.
pub struct Environment {
    /// `ATUIN_DB_PATH`: the history database itself.
    pub atuin_db_path: Option<String>,
    /// `ATUIN_DATA_DIR`: the directory that holds the database.
    pub atuin_data_dir: Option<String>,
    /// `XDG_DATA_HOME`: the base directory for data files.
    pub xdg_data_home: Option<String>,
    /// The user's home directory, where it is known and is valid text.
    pub home: Option<String>,
}

/// Why a path could not be resolved.
#[derive(Clone, Copy, Debug, PartialEq, Eq, Structural)]
pub enum PathError {
    /// No location is configured and the home directory is unknown.
    NoHomeDirectory,
}

impl PathError {
    /// The message shown to the user.
    pub fn message(&self) -> (text: &'static str)
        ensures
            text@ == "could not determine home directory"@,
    {
        "could not determine home directory"
    }
}

/// The data directory that is used where `XDG_DATA_HOME` is not set:
/// `.local/share` under the home directory.
pub open spec fn default_data_home(home: Seq<char>) -> Seq<char> {
    joined(joined(home, ".local"@), "share"@)
}

/// The base directory for data files: `XDG_DATA_HOME` where it is set,
/// else `.local/share` under the home directory, if that is known.
pub open spec fn data_home(xdg_data_home: Option<String>, home: Option<String>) -> Option<Seq<char>> {
    match (xdg_data_home, home) {
        (Some(xdg), _) => Some(xdg@),
        (None, Some(home)) => Some(default_data_home(home@)),
        (None, None) => None,
    }
}

/// Resolves the base directory for data files.
pub fn resolve_data_home(xdg_data_home: &Option<String>, home: &Option<String>) -> (base: Result<
    String,
    PathError,
>)
    ensures
        match data_home(*xdg_data_home, *home) {
            Some(path) => base is Ok && base->Ok_0@ == path,
            None => base == Err::<String, PathError>(PathError::NoHomeDirectory),
        },
{
    match xdg_data_home {
        Some(xdg) => Ok(xdg.clone()),
        None => match home {
            Some(home) => {
                let local: String = join(home.as_str(), ".local");
                Ok(join(local.as_str(), "share"))
            },
            None => Err(PathError::NoHomeDirectory),
        },
    }
}

} // verus!
