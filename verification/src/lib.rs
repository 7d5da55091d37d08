//! Ranking of visited directories by how often and how recently they were
//! used.
//!
//! The history of a shell knows, for each directory, how many commands ran
//! there and when the last one did. `frecency` turns these into a score,
//! `matching` filters the directories by keywords, by an exclusion list and
//! by whether they still exist, and ranks what is left. `ranking` says what
//! a ranking is and states what holds of every one; `order` ranks plain
//! scores. `exclusions` reads and writes the exclusion list, `db` and `env`
//! tell where the data lives and how it is asked for, `cli` and `shell`
//! decide what one run of the program does.
//!
//! Scores are exact: they are whole numbers of eighths, so that every decay
//! weight and the boost for a match in the last component of a path can be
//! computed without rounding.

pub mod cli;
pub mod db;
pub mod env;
pub mod exclusions;
pub mod frecency;
pub mod matching;
pub mod order;
pub mod path;
pub mod ranking;
pub mod shell;
pub mod text;
