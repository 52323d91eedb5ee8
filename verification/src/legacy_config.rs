//! The configuration as an older program wrote it.
use vstd::prelude::*;

use crate::config::TextSet;
use crate::diff::PathSet;

verus! {

#[derive(Debug)]
pub struct LegacyConfig {
    pub search_directories: PathSet,
    pub ignored_directories: PathSet,
    pub whitelist_patterns: TextSet,
}

} // verus!
