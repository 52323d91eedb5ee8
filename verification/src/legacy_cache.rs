//! The cache as an older program wrote it.
use vstd::prelude::*;

use crate::path::FilePath;

verus! {

#[derive(Debug)]
pub struct LegacyCache {
    pub paths: Vec<FilePath>,
}

} // verus!
