//! Turns a directory of executable scripts into a command line interface:
//! each subdirectory is a group of commands, each script a command that
//! declares its arguments in the comment block at its top and receives
//! them in its environment.

use vstd::prelude::*;

pub mod command;
pub mod listing;
pub mod metadata;
pub mod names;
pub mod script;
pub mod text;

pub use command::build_cli_command;
pub use metadata::CommandMetadata;
pub use script::{execute_script, find_script_file};

verus! {

/// Name of the directory, under the user's home, that holds the scripts.
pub const SCRIPTS_DIR: &'static str = ".shutl";

/// The directory that holds the scripts.
#[derive(Debug, Clone, PartialEq)]
pub struct ScriptsDir {
    pub path: String,
    /// Whether the directory is to be made where it does not exist.
    pub create: bool,
}

/// Where the scripts are: in the directory that was configured, where one
/// was; else in `.shutl` under the user's home, which is made on first
/// use.
pub open spec fn scripts_dir(configured: Option<Seq<char>>, home: Option<Seq<char>>) -> (
    Seq<char>,
    bool,
) {
    match configured {
        Some(dir) => (dir, false),
        None => (listing::join_path(home->0, ".shutl"@), true),
    }
}

/// Tells where the scripts are: `configured` is the directory that the
/// environment names, if it names one, `home` the user's home directory.
pub fn get_scripts_dir(configured: Option<&str>, home: Option<&str>) -> (r: ScriptsDir)
    requires
        configured is Some || home is Some,
    ensures
        (r.path@, r.create) == scripts_dir(text::view_of(configured), text::view_of(home)),
{
    match configured {
        Some(dir) => ScriptsDir { path: dir.to_owned(), create: false },
        None => match home {
            Some(home) => ScriptsDir { path: listing::path_in(home, SCRIPTS_DIR), create: true },
            None => ScriptsDir { path: String::new(), create: true },
        },
    }
}

} // verus!
