//! The three root directories every operation works under.
use vstd::prelude::*;

verus! {

/// Where the live dotfiles, the templates, and the pre-overwrite backups
/// live.  All paths in this crate are absolute, `/`-separated strings.
pub struct Config {
    /// Root under which the live dotfiles sit (the user's home).
    pub home_path: String,
    /// Root of the template tree.
    pub dot_path: String,
    /// Root under which backups of overwritten files are stored.
    pub backup_path: String,
}

impl Config {
    pub fn new(home_path: &str, dot_path: &str, backup_path: &str) -> (r: Self)
        ensures
            r.home_path@ == home_path@,
            r.dot_path@ == dot_path@,
            r.backup_path@ == backup_path@,
    {
        Config {
            home_path: home_path.to_owned(),
            dot_path: dot_path.to_owned(),
            backup_path: backup_path.to_owned(),
        }
    }
}

} // verus!
