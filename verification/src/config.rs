//! The persisted settings and where they are stored.

use vstd::prelude::*;

verus! {

/// The user's settings: whether firewall rules outlive the program, and
/// which PoPs are blocked.
#[derive(Debug, Clone)]
pub struct Settings {
    pub persist_rules_on_exit: bool,
    pub blocked_pops: Vec<String>,
}

impl Default for Settings {
    /// Rules are removed on exit and nothing is blocked.
    fn default() -> (s: Settings)
        ensures
            !s.persist_rules_on_exit,
            s.blocked_pops@.len() == 0,
    {
        Settings { persist_rules_on_exit: false, blocked_pops: Vec::new() }
    }
}

/// Where the settings file and its directory are.
pub struct ConfigManager {
    config_dir: String,
    config_file: String,
}

/// What `Path::parent` returns for a path given as text (`None` for a root
/// or an empty path), under the path rules of the platform the crate is
/// built for.
pub uninterp spec fn path_parent(path: Seq<char>) -> Option<Seq<char>>;

/// Calls `std::path::Path::parent` on `path`; the contract only names the
/// result, which depends on the path alone.
#[verifier::external_body]
fn parent_of(path: &str) -> (r: Option<String>)
    ensures
        match r {
            Some(p) => path_parent(path@) == Some(p@),
            None => path_parent(path@) is None,
        },
{
    match std::path::Path::new(path).parent() {
        Some(p) => Some(p.to_string_lossy().into_owned()),
        None => None,
    }
}

/// The directory that holds `file`: its parent, or the path itself when it
/// has none.
pub open spec fn directory_of(file: Seq<char>) -> Seq<char> {
    match path_parent(file) {
        Some(p) => p,
        None => file,
    }
}

impl ConfigManager {
    /// The directory that holds the settings file.
    pub closed spec fn dir_spec(&self) -> Seq<char> {
        self.config_dir@
    }

    /// The settings file.
    pub closed spec fn file_spec(&self) -> Seq<char> {
        self.config_file@
    }

    /// A manager for the settings file at `config_file`, whose directory is
    /// the file's parent (or the path itself, when it has no parent).
    pub fn with_path(config_file: String) -> (m: ConfigManager)
        ensures
            m.file_spec() == config_file@,
            m.dir_spec() == directory_of(config_file@),
    {
        let config_dir = match parent_of(config_file.as_str()) {
            Some(p) => p,
            None => config_file.clone(),
        };
        ConfigManager { config_dir, config_file }
    }

    /// The directory that holds the settings file.
    pub fn config_dir(&self) -> (d: &str)
        ensures
            d@ == self.dir_spec(),
    {
        self.config_dir.as_str()
    }

    /// The settings file.
    pub fn config_file(&self) -> (f: &str)
        ensures
            f@ == self.file_spec(),
    {
        self.config_file.as_str()
    }
}

} // verus!
