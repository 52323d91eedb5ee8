//! The `path` command.
use vstd::prelude::*;

use crate::shell;

verus! {

/// A file of the program.
#[derive(Clone, Copy, PartialEq, Eq, Debug, Structural)]
pub enum Paths {
    Config,
    Cache,
    LegacyConfig,
    LegacyCache,
}

/// Where the files of the program are.
#[derive(Debug)]
pub struct Locations {
    pub config: String,
    pub cache: String,
    pub legacy_config: String,
    pub legacy_cache: String,
}

/// Where a file is.
pub open spec fn location(locations: Locations, path: Paths) -> Seq<char> {
    match path {
        Paths::Config => locations.config@,
        Paths::Cache => locations.cache@,
        Paths::LegacyConfig => locations.legacy_config@,
        Paths::LegacyCache => locations.legacy_cache@,
    }
}

/// Every location is the one before with the home directory in place of `~`.
pub open spec fn are_expanded(before: Locations, home: Seq<char>, after: Locations) -> bool {
    forall|path: Paths|
        shell::is_expanded_with(
            #[trigger] location(before, path),
            home,
            location(after, path),
        )
}

impl Locations {
    /// Puts the home directory in place of `~`. Returns that directory; where it is not known, it
    /// is `~` itself, and the locations stay as they are.
    pub fn expand(&mut self) -> (home: String)
        ensures
            are_expanded(*old(self), home@, *final(self)),
    {
        let home = shell::expand_tilde("~");
        self.expand_with(home.as_str());
        home
    }

    /// Puts the given directory in place of `~`.
    pub fn expand_with(&mut self, home: &str)
        ensures
            are_expanded(*old(self), home@, *final(self)),
    {
        self.config = shell::expand_tilde_with(self.config.as_str(), home);
        self.cache = shell::expand_tilde_with(self.cache.as_str(), home);
        self.legacy_config = shell::expand_tilde_with(self.legacy_config.as_str(), home);
        self.legacy_cache = shell::expand_tilde_with(self.legacy_cache.as_str(), home);
    }
}

/// What the command prints: where a file is, on a line of its own.
pub fn execute(locations: &Locations, path: Paths) -> (output: String)
    ensures
        output@ == location(*locations, path).push('\n'),
{
    let file_path = match path {
        Paths::Config => locations.config.as_str(),
        Paths::Cache => locations.cache.as_str(),
        Paths::LegacyCache => locations.legacy_cache.as_str(),
        Paths::LegacyConfig => locations.legacy_config.as_str(),
    };
    let mut output = file_path.to_owned();
    output.push('\n');
    output
}

} // verus!
