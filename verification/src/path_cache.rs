//! A cache that is a set of paths.
use vstd::prelude::*;

use crate::diff;
use crate::diff::{Diff, PathSet};
use crate::path::FilePath;
use crate::sorted_set;

verus! {

/// A set of paths, and the file that holds it.
#[derive(Debug)]
pub struct Cache {
    file_path: FilePath,
    paths: PathSet,
}

/// A set of paths, and the file that holds it.
pub struct CacheView {
    pub file_path: Seq<u8>,
    pub paths: Seq<Seq<u8>>,
}

impl View for Cache {
    type V = CacheView;

    closed spec fn view(&self) -> CacheView {
        CacheView { file_path: self.file_path@, paths: self.paths@ }
    }
}

/// A cache, and whether its file was there.
#[derive(Debug)]
pub enum OpenOrCreate {
    Opened(Cache),
    Created(Cache),
}

/// Why a cache was not opened.
#[derive(Debug)]
pub enum OpenOrCreateError {
    FileDoesNotExist,
    Io(String),
    Json(String),
}

impl Cache {
    /// The cache that a file holds, from what was read from it.
    pub fn load_from_file(
        file_path: &FilePath,
        read: Result<PathSet, OpenOrCreateError>,
    ) -> (res: Result<Cache, OpenOrCreateError>)
        ensures
            match read {
                Ok(paths) => res is Ok && res->Ok_0@ == (CacheView {
                    file_path: file_path@,
                    paths: paths@,
                }),
                Err(error) => res == Err::<Cache, OpenOrCreateError>(error),
            },
    {
        match read {
            Ok(paths) => Ok(Cache { file_path: file_path.clone(), paths }),
            Err(error) => Err(error),
        }
    }

    /// The cache that a file holds, or an empty one where there is no file.
    pub fn open_or_create(
        file_path: &FilePath,
        read: Result<PathSet, OpenOrCreateError>,
    ) -> (res: Result<OpenOrCreate, OpenOrCreateError>)
        ensures
            match read {
                Ok(paths) => res matches Ok(OpenOrCreate::Opened(cache)) && cache@ == (CacheView {
                    file_path: file_path@,
                    paths: paths@,
                }),
                Err(OpenOrCreateError::FileDoesNotExist) => res matches Ok(
                    OpenOrCreate::Created(cache),
                ) && cache@ == (CacheView { file_path: file_path@, paths: Seq::empty() }),
                Err(error) => res == Err::<OpenOrCreate, OpenOrCreateError>(error),
            },
    {
        match Cache::load_from_file(file_path, read) {
            Ok(cache) => Ok(OpenOrCreate::Opened(cache)),
            Err(error) => match error {
                OpenOrCreateError::FileDoesNotExist => Ok(
                    OpenOrCreate::Created(
                        Cache { file_path: file_path.clone(), paths: PathSet::new() },
                    ),
                ),
                error => Err(error),
            },
        }
    }

    /// Forgets everything, then holds the given paths.
    pub fn write(&mut self, paths: Vec<FilePath>)
        ensures
            final(self)@ == (CacheView {
                file_path: old(self)@.file_path,
                paths: sorted_set::extended::<FilePath>(
                    Seq::empty(),
                    sorted_set::item_views(paths@),
                ),
            }),
    {
        self.paths = diff::path_set(&paths);
    }

    /// The paths, to write them to the file.
    pub fn paths(&self) -> (paths: &PathSet)
        ensures
            paths@ == self@.paths,
    {
        &self.paths
    }

    /// The file that holds the cache.
    pub fn file_path(&self) -> (path: &FilePath)
        ensures
            path@ == self@.file_path,
    {
        &self.file_path
    }

    /// What leads from the cached paths to the exclusions.
    pub fn find_diff(&self, exclusions: &PathSet) -> (found: Diff)
        ensures
            found.added@ == diff::paths_only_in(exclusions@, self@.paths),
            found.removed@ == diff::paths_only_in(self@.paths, exclusions@),
    {
        Diff {
            added: diff::only_in(exclusions, &self.paths),
            removed: diff::only_in(&self.paths, exclusions),
        }
    }
}

} // verus!
