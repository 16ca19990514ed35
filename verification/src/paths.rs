//! Where the files of the tool lie: below the home directory of the user.

use std::path::PathBuf;
use vstd::prelude::*;

verus! {

/// `std::path::PathBuf`, of which nothing is known but that two paths are the
/// same path or not.
#[verifier::external_type_specification]
#[verifier::external_body]
pub struct ExPathBuf(PathBuf);

/// Name of the file of the tracked state, below the home directory.
pub const CONFIG_FILE: &'static str = ".config/dns-cli-config.json";

/// Name of the file of the last known address, below the home directory.
pub const LAST_IP_FILE: &'static str = ".last_ip.txt";

/// `home::home_dir`: the home directory of the user, if the environment or
/// the system knows one. Which one that is lies with the machine, so nothing
/// is claimed of it.
#[verifier::external_body]
pub(crate) fn home_dir() -> (home: Option<PathBuf>) {
    home::home_dir()
}

/// `Path::join`: the path of `name` below `base`. How the two are put
/// together lies with the platform, so nothing is claimed of the result.
#[verifier::external_body]
pub(crate) fn join_path(base: &PathBuf, name: &str) -> (path: PathBuf) {
    base.join(name)
}

/// The path of the file `name` in the home directory of the user, where a
/// home directory is known. Whether one is known lies with the machine.
pub fn in_home(name: &str) -> (path: Option<PathBuf>) {
    below(home_dir(), name)
}

/// The path of the file `name` below the directory `home`: there is one just
/// where there is a directory.
pub fn below(home: Option<PathBuf>, name: &str) -> (path: Option<PathBuf>)
    ensures
        path is Some <==> home is Some,
{
    match home {
        Some(home) => Some(join_path(&home, name)),
        None => None,
    }
}

} // verus!
