//! The cache: the paths left out of the backups, with the repositories that asked for it.
use vstd::prelude::*;

use crate::diff;
use crate::diff::{Diff, Exclusion, ExclusionView};
use crate::path;
use crate::path::FilePath;
use crate::sort;
use crate::sorted_set;
use crate::text;

verus! {

/// The version of the schema that caches are brought to when they are opened.
pub const LATEST_VERSION: u32 = 3;

/// The version of the schema from which on the repository of a path is recorded.
pub const REPOSITORY_VERSION: u32 = 3;

/// A moment in time: seconds since 1970 began, and nanoseconds.
#[derive(Clone, Copy, PartialEq, Eq, PartialOrd, Ord, Debug, Structural)]
pub struct Timestamp {
    pub seconds: i64,
    pub nanos: u32,
}

/// Why a cache was not opened or created.
#[derive(Debug)]
pub enum OpenOrCreateError {
    FileDoesNotExist,
    NoParentDirectory,
    /// The file was written by a version of the program that is newer than this one.
    UnknownVersion(u32),
    /// The file or the directory could not be read or written.
    Io(String),
    Sqlite(String),
}

/// What `rusqlite_migration::Error` writes of a file that is at a later version than the latest
/// that is known.
#[verifier::external_body]
fn too_far_ahead_text() -> (text: String)
    ensures
        text@
            == "rusqlite_migration error in migrations definition: Attempt to migrate a database with a migration number that is too high"@,
{
    let cause = rusqlite_migration::MigrationDefinitionError::DatabaseTooFarAhead;
    rusqlite_migration::Error::MigrationDefinition(cause).to_string()
}

/// What an error says.
pub open spec fn open_error_text(error: OpenOrCreateError) -> Seq<char> {
    match error {
        OpenOrCreateError::FileDoesNotExist => "File does not exist"@,
        OpenOrCreateError::NoParentDirectory => "No parent directory"@,
        OpenOrCreateError::UnknownVersion(_) => {
            "rusqlite_migration error in migrations definition: Attempt to migrate a database with a migration number that is too high"@
        },
        OpenOrCreateError::Io(message) => message@,
        OpenOrCreateError::Sqlite(message) => message@,
    }
}

impl OpenOrCreateError {
    pub fn text(&self) -> (text: String)
        ensures
            text@ == open_error_text(*self),
    {
        match self {
            OpenOrCreateError::FileDoesNotExist => "File does not exist".to_owned(),
            OpenOrCreateError::NoParentDirectory => "No parent directory".to_owned(),
            OpenOrCreateError::UnknownVersion(_) => too_far_ahead_text(),
            OpenOrCreateError::Io(message) => message.as_str().to_owned(),
            OpenOrCreateError::Sqlite(message) => message.as_str().to_owned(),
        }
    }
}

/// What is said of a file that could not be loaded, before what is wrong with it.
pub fn failed_to_load(file_path: &FilePath) -> (message: String)
    ensures
        message@ == "Failed to load file "@ + text::lossy_text(file_path@),
{
    "Failed to load file ".to_owned().concat(file_path.display().as_str())
}

/// What is said when a cache was brought to another version of the schema.
pub open spec fn update_text(previous: u32, new: u32) -> Seq<char> {
    "Cache updated from version "@ + text::decimal(previous as nat) + " to version "@
        + text::decimal(new as nat)
}

/// What is said of the version of a cache when it was opened.
pub fn version_message(previous: u32, new: u32) -> (message: Option<String>)
    ensures
        match message {
            Some(m) => previous != new && m@ == update_text(previous, new),
            None => previous == new,
        },
{
    if previous != new {
        Some(
            "Cache updated from version ".to_owned().concat(
                text::number(previous as u64).as_str(),
            ).concat(" to version ").concat(text::number(new as u64).as_str()),
        )
    } else {
        None
    }
}

/// The schema has no time of the last update.
#[derive(Clone, Copy, PartialEq, Eq, Debug, Structural)]
pub struct LastUpdateUnavailable;

impl LastUpdateUnavailable {
    pub fn text(&self) -> (text: String)
        ensures
            text@ == "last_update is only available for schema with version > 0"@,
    {
        "last_update is only available for schema with version > 0".to_owned()
    }
}

/// The contents of a cache file.
#[derive(Debug)]
pub struct Stored {
    pub rows: Vec<Exclusion>,
    pub last_update: Option<Timestamp>,
    pub version: u32,
}

/// What a cache holds.
pub struct CacheView {
    pub rows: Seq<ExclusionView>,
    pub last_update: Option<Timestamp>,
    pub version: u32,
}

/// The list of the paths that are left out of the backups.
#[derive(Debug)]
pub struct Cache {
    rows: Vec<Exclusion>,
    last_update: Option<Timestamp>,
    version: u32,
}

impl View for Cache {
    type V = CacheView;

    closed spec fn view(&self) -> CacheView {
        CacheView {
            rows: sorted_set::item_views(self.rows@),
            last_update: self.last_update,
            version: self.version,
        }
    }
}

impl Cache {
    /// A cache is in the latest schema.
    #[verifier::type_invariant]
    pub open spec fn is_latest(self) -> bool {
        self@.version == LATEST_VERSION
    }
}

/// A cache with nothing in it.
pub open spec fn empty_cache() -> CacheView {
    CacheView { rows: Seq::empty(), last_update: None, version: LATEST_VERSION }
}

/// The row as the latest schema has it: a schema without repositories leaves none.
pub open spec fn migrated(version: u32, row: ExclusionView) -> ExclusionView {
    if version < REPOSITORY_VERSION {
        ExclusionView { path: row.path, repository: None }
    } else {
        row
    }
}

/// The cache that the contents of a file make.
pub open spec fn opened(stored: Stored) -> CacheView {
    CacheView {
        rows: sorted_set::item_views(stored.rows@).map_values(
            |row: ExclusionView| migrated(stored.version, row),
        ),
        last_update: stored.last_update,
        version: LATEST_VERSION,
    }
}

/// A cache that was kept in a file in the latest schema is the same when it is opened again.
pub proof fn kept_cache_opens_again(stored: Stored)
    requires
        stored.version == LATEST_VERSION,
    ensures
        opened(stored) == (CacheView {
            rows: sorted_set::item_views(stored.rows@),
            last_update: stored.last_update,
            version: stored.version,
        }),
{
    assert(opened(stored).rows =~= sorted_set::item_views(stored.rows@));
}

/// The row is one that this repository created.
pub open spec fn is_created_by(row: ExclusionView, repository: Seq<u8>) -> bool {
    row.repository == Some(repository)
}

/// The paths that a repository created, in the order of the rows.
pub open spec fn created_by(rows: Seq<ExclusionView>, repository: Seq<u8>) -> Seq<Seq<u8>>
    decreases rows.len(),
{
    if rows.len() == 0 {
        Seq::empty()
    } else {
        let init = created_by(rows.drop_last(), repository);
        if is_created_by(rows.last(), repository) {
            init.push(rows.last().path)
        } else {
            init
        }
    }
}

/// The rows without those that the repository created for one of the paths.
pub open spec fn rows_without(
    rows: Seq<ExclusionView>,
    paths: Seq<Seq<u8>>,
    repository: Seq<u8>,
) -> Seq<ExclusionView>
    decreases rows.len(),
{
    if rows.len() == 0 {
        rows
    } else {
        let init = rows_without(rows.drop_last(), paths, repository);
        if is_created_by(rows.last(), repository) && paths.contains(rows.last().path) {
            init
        } else {
            init.push(rows.last())
        }
    }
}

/// The paths without those in `removed`.
pub open spec fn paths_without(paths: Seq<Seq<u8>>, removed: Seq<Seq<u8>>) -> Seq<Seq<u8>>
    decreases paths.len(),
{
    if paths.len() == 0 {
        paths
    } else {
        let init = paths_without(paths.drop_last(), removed);
        if removed.contains(paths.last()) {
            init
        } else {
            init.push(paths.last())
        }
    }
}

/// The paths of the rows, each where it stands first.
pub open spec fn distinct_paths(rows: Seq<ExclusionView>) -> Seq<Seq<u8>>
    decreases rows.len(),
{
    if rows.len() == 0 {
        Seq::empty()
    } else {
        let init = distinct_paths(rows.drop_last());
        if init.contains(rows.last().path) {
            init
        } else {
            init.push(rows.last().path)
        }
    }
}

/// A row has this path.
pub open spec fn has_row(rows: Seq<ExclusionView>, path: Seq<u8>) -> bool {
    exists|i: int| 0 <= i < rows.len() && (#[trigger] rows[i]).path == path
}

/// A row has the path of a directory above this one.
pub open spec fn covers(rows: Seq<ExclusionView>, path: Seq<u8>) -> bool {
    exists|k: int|
        0 < k < path::ancestors(path).len() && has_row(rows, #[trigger] path::ancestors(path)[k])
}

/// The distinct paths are those of the rows, and none occurs twice.
pub proof fn distinct_paths_laws(rows: Seq<ExclusionView>)
    ensures
        forall|p: Seq<u8>| #[trigger] distinct_paths(rows).contains(p) <==> has_row(rows, p),
        distinct_paths(rows).no_duplicates(),
    decreases rows.len(),
{
    if rows.len() > 0 {
        let init = rows.drop_last();
        distinct_paths_laws(init);
        let some = distinct_paths(init);
        let all = distinct_paths(rows);
        assert forall|p: Seq<u8>| #[trigger] all.contains(p) <==> has_row(rows, p) by {
            assert(some.contains(p) <==> has_row(init, p));
            if has_row(rows, p) {
                let i = choose|i: int| 0 <= i < rows.len() && (#[trigger] rows[i]).path == p;
                if i < init.len() {
                    assert(init[i].path == p);
                    let j = choose|j: int| 0 <= j < some.len() && some[j] == p;
                    assert(all[j] == p);
                } else if !some.contains(p) {
                    assert(all[all.len() - 1] == p);
                }
            }
            if all.contains(p) {
                let i = choose|i: int| 0 <= i < all.len() && all[i] == p;
                if i < some.len() {
                    assert(some[i] == p);
                    assert(has_row(init, p));
                    let j = choose|j: int| 0 <= j < init.len() && (#[trigger] init[j]).path == p;
                    assert(rows[j].path == p);
                } else {
                    assert(rows[rows.len() - 1].path == p);
                }
            }
        }
    }
}

/// Adding rows adds the paths of those that the repository created.
pub proof fn created_by_added(
    rows: Seq<ExclusionView>,
    more: Seq<ExclusionView>,
    repository: Seq<u8>,
)
    ensures
        created_by(rows + more, repository) == created_by(rows, repository) + created_by(
            more,
            repository,
        ),
    decreases more.len(),
{
    if more.len() == 0 {
        assert(rows + more =~= rows);
        assert(created_by(rows, repository) + created_by(more, repository) =~= created_by(
            rows,
            repository,
        ));
    } else {
        created_by_added(rows, more.drop_last(), repository);
        assert((rows + more).drop_last() =~= rows + more.drop_last());
        assert(created_by(rows + more, repository) =~= created_by(rows, repository) + created_by(
            more,
            repository,
        ));
    }
}

/// Removing paths of a repository removes them from what it created, and leaves what every
/// other repository created.
pub proof fn created_by_removed(
    rows: Seq<ExclusionView>,
    paths: Seq<Seq<u8>>,
    repository: Seq<u8>,
    other: Seq<u8>,
)
    ensures
        created_by(rows_without(rows, paths, repository), repository) == paths_without(
            created_by(rows, repository),
            paths,
        ),
        other != repository ==> created_by(rows_without(rows, paths, repository), other)
            == created_by(rows, other),
    decreases rows.len(),
{
    if rows.len() > 0 {
        let init = rows.drop_last();
        created_by_removed(init, paths, repository, other);
        let kept = rows_without(init, paths, repository);
        assert(kept.push(rows.last()).drop_last() =~= kept);
        if is_created_by(rows.last(), repository) {
            assert(created_by(rows, repository).drop_last() =~= created_by(init, repository));
        }
    }
}

/// For every path that a repository created there is a row.
pub proof fn created_by_has_row(rows: Seq<ExclusionView>, repository: Seq<u8>, path: Seq<u8>)
    requires
        created_by(rows, repository).contains(path),
    ensures
        rows.contains(ExclusionView { path, repository: Some(repository) }),
    decreases rows.len(),
{
    let row = ExclusionView { path, repository: Some(repository) };
    let init = rows.drop_last();
    assert(rows =~= init.push(rows.last()));
    vstd::seq_lib::lemma_seq_contains_after_push(init, rows.last(), row);
    vstd::seq_lib::lemma_seq_contains_after_push(
        created_by(init, repository),
        rows.last().path,
        path,
    );
    if created_by(init, repository).contains(path) {
        created_by_has_row(init, repository, path);
    }
}

/// What is left are the paths that are not removed.
pub proof fn paths_without_contains(paths: Seq<Seq<u8>>, removed: Seq<Seq<u8>>)
    ensures
        forall|p: Seq<u8>| #[trigger]
            paths_without(paths, removed).contains(p) <==> paths.contains(p)
                && !removed.contains(p),
    decreases paths.len(),
{
    if paths.len() > 0 {
        let init = paths.drop_last();
        paths_without_contains(init, removed);
        let some = paths_without(init, removed);
        let all = paths_without(paths, removed);
        assert(paths =~= init.push(paths.last()));
        assert forall|p: Seq<u8>| #[trigger] all.contains(p) <==> paths.contains(p)
            && !removed.contains(p) by {
            assert(some.contains(p) <==> init.contains(p) && !removed.contains(p));
            assert(paths.contains(p) <==> init.contains(p) || p == paths.last()) by {
                vstd::seq_lib::lemma_seq_contains_after_push(init, paths.last(), p);
            }
            if !removed.contains(paths.last()) {
                vstd::seq_lib::lemma_seq_contains_after_push(some, paths.last(), p);
            }
        }
    }
}

impl Cache {
    /// A cache that is kept nowhere.
    pub fn open_in_memory() -> (cache: Cache)
        ensures
            cache@ == empty_cache(),
    {
        let rows: Vec<Exclusion> = Vec::new();
        assert(sorted_set::item_views(rows@) =~= Seq::<ExclusionView>::empty());
        Cache { rows, last_update: None, version: LATEST_VERSION }
    }

    /// A new cache that is kept in this file.
    pub fn create(file_path: &FilePath) -> (res: Result<Cache, OpenOrCreateError>)
        ensures
            match res {
                Ok(cache) => path::path_parent(file_path@) is Some && cache@ == empty_cache(),
                Err(error) => path::path_parent(file_path@) is None
                    && error is NoParentDirectory,
            },
    {
        match file_path.parent() {
            Some(_) => Ok(Cache::open_in_memory()),
            None => Err(OpenOrCreateError::NoParentDirectory),
        }
    }

    /// The cache that a file holds, if there is a file, in the latest schema.
    pub fn open(stored: Option<Stored>) -> (res: Result<Cache, OpenOrCreateError>)
        ensures
            match stored {
                None => res is Err && res->Err_0 is FileDoesNotExist,
                Some(file) => if file.version > LATEST_VERSION {
                    res is Err && res->Err_0 == OpenOrCreateError::UnknownVersion(file.version)
                } else {
                    res is Ok && res->Ok_0@ == opened(file)
                },
            },
    {
        let file = match stored {
            None => {
                return Err(OpenOrCreateError::FileDoesNotExist);
            },
            Some(file) => file,
        };
        if file.version > LATEST_VERSION {
            return Err(OpenOrCreateError::UnknownVersion(file.version));
        }
        if file.version < REPOSITORY_VERSION {
            let mut rows: Vec<Exclusion> = Vec::new();
            let mut i: usize = 0;
            while i < file.rows.len()
                invariant
                    i <= file.rows@.len(),
                    rows@.len() == i,
                    file.version < REPOSITORY_VERSION,
                    forall|j: int|
                        0 <= j < i ==> (#[trigger] rows@[j])@ == migrated(
                            file.version,
                            file.rows@[j]@,
                        ),
                decreases file.rows@.len() - i,
            {
                rows.push(Exclusion::orphan(file.rows[i].path().clone()));
                i = i + 1;
            }
            assert(sorted_set::item_views(rows@) =~= opened(file).rows);
            Ok(Cache { rows, last_update: file.last_update, version: LATEST_VERSION })
        } else {
            assert(sorted_set::item_views(file.rows@) =~= opened(file).rows);
            Ok(Cache { rows: file.rows, last_update: file.last_update, version: LATEST_VERSION })
        }
    }

    /// The cache that the file holds, or a new one where there is no file. The path says where
    /// the file is, and what was found there is the second argument.
    pub fn open_or_create(
        file_path: &FilePath,
        found: Result<Option<Stored>, OpenOrCreateError>,
    ) -> (res: Result<Cache, OpenOrCreateError>)
        ensures
            match found {
                Err(error) => res == Err::<Cache, OpenOrCreateError>(error),
                Ok(None) => match res {
                    Ok(cache) => path::path_parent(file_path@) is Some && cache@ == empty_cache(),
                    Err(error) => path::path_parent(file_path@) is None
                        && error is NoParentDirectory,
                },
                Ok(Some(file)) => if file.version > LATEST_VERSION {
                    res is Err && res->Err_0 == OpenOrCreateError::UnknownVersion(file.version)
                } else {
                    res is Ok && res->Ok_0@ == opened(file)
                },
            },
    {
        match found {
            Err(error) => Err(error),
            Ok(stored) => match Cache::open(stored) {
                Ok(cache) => Ok(cache),
                Err(error) => match error {
                    OpenOrCreateError::FileDoesNotExist => Cache::create(file_path),
                    error => Err(error),
                },
            },
        }
    }

    /// Forgets everything, then holds the given exclusions.
    pub fn reset(&mut self, exclusions: Vec<Exclusion>, now: Timestamp)
        ensures
            final(self)@ == (CacheView {
                rows: sorted_set::item_views(exclusions@),
                last_update: Some(now),
                version: old(self)@.version,
            }),
    {
        proof {
            use_type_invariant(&*self);
        }
        self.rows = exclusions;
        self.last_update = Some(now);
    }

    /// Holds some more exclusions.
    pub fn add_paths(&mut self, exclusions: Vec<Exclusion>, now: Timestamp)
        ensures
            final(self)@ == (CacheView {
                rows: old(self)@.rows + sorted_set::item_views(exclusions@),
                last_update: Some(now),
                version: old(self)@.version,
            }),
    {
        proof {
            use_type_invariant(&*self);
        }
        let ghost more = sorted_set::item_views(exclusions@);
        let ghost before = self@.rows;
        let mut exclusions = exclusions;
        let mut rows: Vec<Exclusion> = Vec::new();
        std::mem::swap(&mut rows, &mut self.rows);
        rows.append(&mut exclusions);
        self.rows = rows;
        self.last_update = Some(now);
        assert(self@.rows =~= before + more);
    }

    /// Removes the paths as far as the repository created them.
    pub fn remove_paths(&mut self, paths: &Vec<FilePath>, repository: &FilePath, now: Timestamp)
        ensures
            final(self)@ == (CacheView {
                rows: rows_without(
                    old(self)@.rows,
                    sorted_set::item_views(paths@),
                    repository@,
                ),
                last_update: Some(now),
                version: old(self)@.version,
            }),
    {
        proof {
            use_type_invariant(&*self);
        }
        let ghost all = self@.rows;
        let ghost removed = sorted_set::item_views(paths@);
        let mut rows: Vec<Exclusion> = Vec::new();
        let mut i: usize = 0;
        assert(all.take(0) =~= Seq::<ExclusionView>::empty());
        assert(sorted_set::item_views(rows@) =~= Seq::<ExclusionView>::empty());
        while i < self.rows.len()
            invariant
                i <= self.rows@.len(),
                all == sorted_set::item_views(self.rows@),
                removed == sorted_set::item_views(paths@),
                sorted_set::item_views(rows@) == rows_without(
                    all.take(i as int),
                    removed,
                    repository@,
                ),
                self.version == old(self).version,
                self.version == LATEST_VERSION,
            decreases self.rows@.len() - i,
        {
            let row = &self.rows[i];
            let ghost before = sorted_set::item_views(rows@);
            assert(row@ == all[i as int]);
            let created = match row.repository() {
                Some(creator) => creator.same_bytes(repository),
                None => false,
            };
            if !(created && diff::is_spelled(paths, row.path())) {
                rows.push(row.clone());
                assert(sorted_set::item_views(rows@) =~= before.push(row@));
            }
            assert(all.take(i + 1).drop_last() =~= all.take(i as int));
            i = i + 1;
        }
        assert(all.take(i as int) =~= all);
        self.rows = rows;
        self.last_update = Some(now);
    }

    /// The paths that the repository created.
    pub fn paths_created_by(&self, repository: &FilePath) -> (paths: Vec<FilePath>)
        ensures
            sorted_set::item_views(paths@) == created_by(self@.rows, repository@),
    {
        let ghost all = self@.rows;
        let mut paths: Vec<FilePath> = Vec::new();
        let mut i: usize = 0;
        assert(all.take(0) =~= Seq::<ExclusionView>::empty());
        assert(sorted_set::item_views(paths@) =~= Seq::<Seq<u8>>::empty());
        while i < self.rows.len()
            invariant
                i <= self.rows@.len(),
                all == sorted_set::item_views(self.rows@),
                sorted_set::item_views(paths@) == created_by(all.take(i as int), repository@),
            decreases self.rows@.len() - i,
        {
            let row = &self.rows[i];
            let ghost before = sorted_set::item_views(paths@);
            assert(row@ == all[i as int]);
            let created = match row.repository() {
                Some(creator) => creator.same_bytes(repository),
                None => false,
            };
            if created {
                paths.push(row.path().clone());
                assert(sorted_set::item_views(paths@) =~= before.push(row@.path));
            }
            assert(all.take(i + 1).drop_last() =~= all.take(i as int));
            i = i + 1;
        }
        assert(all.take(i as int) =~= all);
        paths
    }

    /// The paths in the cache, each once.
    pub fn paths(&self) -> (paths: Vec<FilePath>)
        ensures
            sorted_set::item_views(paths@) == distinct_paths(self@.rows),
    {
        let ghost all = self@.rows;
        let mut paths: Vec<FilePath> = Vec::new();
        let mut i: usize = 0;
        assert(all.take(0) =~= Seq::<ExclusionView>::empty());
        assert(sorted_set::item_views(paths@) =~= Seq::<Seq<u8>>::empty());
        while i < self.rows.len()
            invariant
                i <= self.rows@.len(),
                all == sorted_set::item_views(self.rows@),
                sorted_set::item_views(paths@) == distinct_paths(all.take(i as int)),
            decreases self.rows@.len() - i,
        {
            let path = self.rows[i].path();
            let ghost before = sorted_set::item_views(paths@);
            assert(path@ == all[i as int].path);
            if !diff::is_spelled(&paths, path) {
                paths.push(path.clone());
                assert(sorted_set::item_views(paths@) =~= before.push(path@));
            }
            assert(all.take(i + 1).drop_last() =~= all.take(i as int));
            i = i + 1;
        }
        assert(all.take(i as int) =~= all);
        paths
    }

    /// What leads from the cached paths to the exclusions, which are sorted by path.
    ///
    /// Where several cached paths differ in their spelling only, one of them is reported as
    /// removed.
    pub fn find_diff(&self, exclusions: &[Exclusion]) -> (found: Diff)
        requires
            diff::sorted_by_path(sorted_set::item_views(exclusions@)),
        ensures
            found.added@ == diff::paths_only_in(
                diff::exclusion_paths(sorted_set::item_views(exclusions@)),
                distinct_paths(self@.rows),
            ),
            diff::is_difference(
                found.removed@,
                distinct_paths(self@.rows),
                diff::exclusion_paths(sorted_set::item_views(exclusions@)),
            ),
    {
        let paths = self.paths();
        let ghost cached = sorted_set::item_views(paths@);
        let sorted = sort::sort(paths);
        let found = Diff::from_sorted(exclusions, &sorted);
        proof {
            diff::differences_with_sorted(
                diff::exclusion_paths(sorted_set::item_views(exclusions@)),
                cached,
                sorted_set::item_views(sorted@),
            );
        }
        found
    }

    /// Whether the cache has a directory above the path.
    pub fn contains_ancestor_of(&self, path: &FilePath) -> (res: bool)
        ensures
            res == covers(self@.rows, path@),
    {
        let ghost all = path::ancestors(path@);
        let ghost mut k: int = 1;
        let mut current = path.parent();
        proof {
            path::ancestors_start(path@);
            if current is Some {
                path::ancestors_start(current->0@);
            }
        }
        loop
            invariant
                all == path::ancestors(path@),
                1 <= k,
                forall|j: int| 1 <= j < k ==> !has_row(self@.rows, #[trigger] all[j]),
                match current {
                    Some(up) => k < all.len() && path::ancestors(up@) == all.skip(k),
                    None => k == all.len(),
                },
            decreases (match current {
                Some(up) => up@.len() + 1,
                None => 0,
            }),
        {
            let ancestor = match current {
                Some(ancestor) => ancestor,
                None => {
                    return false;
                },
            };
            assert(all.skip(k)[0] == all[k]);
            if self.has_path(&ancestor) {
                return true;
            }
            current = ancestor.parent();
            proof {
                path::parent_is_shorter(ancestor@);
                path::ancestors_start(ancestor@);
                assert(all.skip(k).skip(1) =~= all.skip(k + 1));
                k = k + 1;
                if current is Some {
                    path::ancestors_start(current->0@);
                }
            }
        }
    }

    fn has_path(&self, path: &FilePath) -> (res: bool)
        ensures
            res == has_row(self@.rows, path@),
    {
        let ghost all = self@.rows;
        let mut i: usize = 0;
        while i < self.rows.len()
            invariant
                i <= self.rows@.len(),
                all == sorted_set::item_views(self.rows@),
                forall|j: int| 0 <= j < i ==> (#[trigger] all[j]).path != path@,
            decreases self.rows@.len() - i,
        {
            assert(all[i as int] == self.rows@[i as int]@);
            if self.rows[i].path().same_bytes(path) {
                return true;
            }
            i = i + 1;
        }
        false
    }

    /// The moment of the last change. Every cache is in a schema that has it.
    pub fn last_update(&self) -> (res: Result<Option<Timestamp>, LastUpdateUnavailable>)
        ensures
            res == Ok::<Option<Timestamp>, LastUpdateUnavailable>(self@.last_update),
    {
        proof {
            use_type_invariant(self);
        }
        if self.get_version() == 0 {
            Err(LastUpdateUnavailable)
        } else {
            Ok(self.last_update)
        }
    }

    pub fn get_version(&self) -> (version: u32)
        ensures
            version == self@.version,
            version == LATEST_VERSION,
    {
        proof {
            use_type_invariant(self);
        }
        self.version
    }

    /// The rows, to write them to a file.
    pub fn rows(&self) -> (rows: &Vec<Exclusion>)
        ensures
            sorted_set::item_views(rows@) == self@.rows,
    {
        &self.rows
    }
}

} // verus!
