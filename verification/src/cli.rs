use vstd::prelude::*;
use crate::frecency::Mode;

verus! {

/// What the command line holds.
pub struct Cli {
    /// List all matches with their scores.
    pub list: bool,
    /// Rank by frequency only.
    pub rank: bool,
    /// Rank by recency only.
    pub time: bool,
    /// Keep to the directories below the current one.
    pub current: bool,
    /// Add the given paths to the exclusion list.
    pub exclude: bool,
    /// Path of the database, in place of the configured one.
    pub db: Option<String>,
    /// The subcommand, if one was given.
    pub command: Option<Command>,
    /// Keywords to match against directory paths; with `exclude`, the
    /// paths to exclude.
    pub keywords: Vec<String>,
}

/// A subcommand.
#[derive(Clone, Copy, Debug, PartialEq, Eq, Structural)]
pub enum Command {
    /// Print the shell function that wraps the program.
    Init {
        /// The shell to print it for.
        shell: Shell,
    },
}

/// A shell that the program can be wired into.
#[derive(Clone, Copy, Debug, PartialEq, Eq, Structural)]
pub enum Shell {
    Bash,
    Zsh,
    Fish,
}

/// What one run of the program does.
#[derive(Clone, Copy, Debug, PartialEq, Eq, Structural)]
pub enum Action {
    /// Print the shell function for this shell.
    Init(Shell),
    /// Add each of the given paths to the exclusion list.
    Exclude,
    /// Rank the directories of the history and print the outcome.
    Jump,
}

/// A command line that asks for nothing that can be done.
#[derive(Clone, Copy, Debug, PartialEq, Eq, Structural)]
pub enum UsageError {
    /// Exclusion was asked for and no path was given.
    ExcludeWithoutPath,
}

impl UsageError {
    /// The message shown to the user.
    pub fn message(&self) -> (text: &'static str)
        ensures
            text@ == "atuin-z -x requires a path argument"@,
    {
        "atuin-z -x requires a path argument"
    }
}

impl Cli {
    /// The scoring mode that the flags ask for: frequency where `rank` is
    /// set, else recency where `time` is set, else frecency.
    pub open spec fn mode_of(self) -> Mode {
        if self.rank {
            Mode::Frequency
        } else if self.time {
            Mode::Recency
        } else {
            Mode::Frecency
        }
    }

    /// What the command line asks for. A subcommand goes before the
    /// exclusion flag, and that before ranking.
    pub open spec fn action_of(self) -> Result<Action, UsageError> {
        match self.command {
            Some(Command::Init { shell }) => Ok(Action::Init(shell)),
            None => if self.exclude {
                if self.keywords@.len() == 0 {
                    Err(UsageError::ExcludeWithoutPath)
                } else {
                    Ok(Action::Exclude)
                }
            } else {
                Ok(Action::Jump)
            },
        }
    }

    /// The scoring mode to rank with.
    pub fn mode(&self) -> (mode: Mode)
        ensures
            mode == self.mode_of(),
    {
        if self.rank {
            Mode::Frequency
        } else if self.time {
            Mode::Recency
        } else {
            Mode::Frecency
        }
    }

    /// What to do, or why nothing can be done.
    pub fn action(&self) -> (action: Result<Action, UsageError>)
        ensures
            action == self.action_of(),
    {
        match &self.command {
            Some(Command::Init { shell }) => Ok(Action::Init(*shell)),
            None => {
                if self.exclude {
                    if self.keywords.len() == 0 {
                        Err(UsageError::ExcludeWithoutPath)
                    } else {
                        Ok(Action::Exclude)
                    }
                } else {
                    Ok(Action::Jump)
                }
            },
        }
    }
}

} // verus!
