//! Scanning again the repositories that hold paths which changed.
use vstd::prelude::*;

use crate::cache;
use crate::cache::{Cache, CacheView, Timestamp};
use crate::diff;
use crate::diff::{Diff, Exclusion, ExclusionView, PathSet};
use crate::facts::{Findings, Kind};
use crate::git;
use crate::order::Ordered;
use crate::path;
use crate::path::FilePath;
use crate::sort;
use crate::sorted_set;

verus! {

/// The path is in one of the directories, or is one of them.
pub open spec fn is_in_one_of(path: Seq<u8>, directories: Seq<Seq<u8>>) -> bool {
    exists|i: int|
        0 <= i < directories.len() && path::path_starts_with(path, #[trigger] directories[i])
}

/// The repository of a path, if it is in one of the directories.
pub open spec fn searched_repository(
    found: Seq<(Seq<u8>, Kind)>,
    directories: Seq<Seq<u8>>,
    path: Seq<u8>,
) -> Option<Seq<u8>> {
    match git::parent_repository(found, path) {
        Some(repository) => if is_in_one_of(repository, directories) {
            Some(repository)
        } else {
            None
        },
        None => None,
    }
}

/// The repositories of the paths, as far as they are in one of the directories.
pub open spec fn searched_repositories(
    found: Seq<(Seq<u8>, Kind)>,
    directories: Seq<Seq<u8>>,
    paths: Seq<Seq<u8>>,
) -> Seq<Seq<u8>>
    decreases paths.len(),
{
    if paths.len() == 0 {
        Seq::empty()
    } else {
        let init = searched_repositories(found, directories, paths.drop_last());
        match searched_repository(found, directories, paths.last()) {
            Some(repository) => init.push(repository),
            None => init,
        }
    }
}

/// The paths that no cached directory covers.
pub open spec fn uncovered(rows: Seq<ExclusionView>, paths: Seq<Seq<u8>>) -> Seq<Seq<u8>>
    decreases paths.len(),
{
    if paths.len() == 0 {
        paths
    } else {
        let init = uncovered(rows, paths.drop_last());
        if cache::covers(rows, paths.last()) {
            init
        } else {
            init.push(paths.last())
        }
    }
}

/// The repositories of the paths that no cached directory covers.
pub open spec fn stirred_repositories(
    found: Seq<(Seq<u8>, Kind)>,
    directories: Seq<Seq<u8>>,
    rows: Seq<ExclusionView>,
    paths: Seq<Seq<u8>>,
) -> Seq<Seq<u8>> {
    searched_repositories(found, directories, uncovered(rows, paths))
}

/// The repositories of `all` that one of the two lists has.
pub open spec fn listed_in_either(
    all: Seq<Seq<u8>>,
    a: Seq<Seq<u8>>,
    b: Seq<Seq<u8>>,
) -> Seq<Seq<u8>>
    decreases all.len(),
{
    if all.len() == 0 {
        all
    } else {
        let init = listed_in_either(all.drop_last(), a, b);
        let k = path::components(all.last());
        if diff::lists(a, k) || diff::lists(b, k) {
            init.push(all.last())
        } else {
            init
        }
    }
}

/// The repositories to scan.
///
/// A path is skipped only where a cached directory covers it and git ignores it: otherwise the
/// scan of its repository can report something new. `unignored` are the repositories with a path
/// that git does not ignore.
pub open spec fn repositories_to_scan(
    found: Seq<(Seq<u8>, Kind)>,
    directories: Seq<Seq<u8>>,
    rows: Seq<ExclusionView>,
    unignored: Seq<Seq<u8>>,
    paths: Seq<Seq<u8>>,
) -> Seq<Seq<u8>> {
    sorted_set::extended::<FilePath>(
        Seq::empty(),
        listed_in_either(
            searched_repositories(found, directories, paths),
            stirred_repositories(found, directories, rows, paths),
            unignored,
        ),
    )
}

fn is_in_search_directory(repository: &FilePath, directories: &PathSet) -> (res: bool)
    ensures
        res == is_in_one_of(repository@, directories@),
{
    let mut i: usize = 0;
    while i < directories.len()
        invariant
            i <= directories@.len(),
            forall|j: int|
                0 <= j < i ==> !path::path_starts_with(repository@, #[trigger] directories@[j]),
        decreases directories@.len() - i,
    {
        if repository.starts_with(directories.get(i)) {
            return true;
        }
        i = i + 1;
    }
    false
}

/// The repository of a path, if it is in one of the search directories.
pub fn repository_of(path: &FilePath, directories: &PathSet, found: &Findings) -> (res: Option<
    FilePath,
>)
    ensures
        match res {
            Some(r) => searched_repository(found@, directories@, path@) == Some(r@),
            None => searched_repository(found@, directories@, path@) is None,
        },
{
    match git::find_parent_repository(path, found) {
        Some(repository) => if is_in_search_directory(&repository, directories) {
            Some(repository)
        } else {
            None
        },
        None => None,
    }
}

/// The repositories of the paths that no cached directory covers.
fn stirred(
    paths: &PathSet,
    directories: &PathSet,
    cache: &Cache,
    found: &Findings,
) -> (repositories: PathSet)
    ensures
        repositories@ == sorted_set::extended::<FilePath>(
            Seq::empty(),
            stirred_repositories(found@, directories@, cache@.rows, paths@),
        ),
{
    let ghost all = paths@;
    let ghost rows = cache@.rows;
    let ghost mut open: Seq<Seq<u8>> = Seq::empty();
    let mut repositories = PathSet::new();
    let mut i: usize = 0;
    assert(all.take(0) =~= Seq::<Seq<u8>>::empty());
    while i < paths.len()
        invariant
            i <= all.len(),
            all == paths@,
            rows == cache@.rows,
            open == uncovered(rows, all.take(i as int)),
            repositories@ == sorted_set::extended::<FilePath>(
                Seq::empty(),
                searched_repositories(found@, directories@, open),
            ),
        decreases all.len() - i,
    {
        assert(all.take(i + 1).drop_last() =~= all.take(i as int));
        let path = paths.get(i);
        if !cache.contains_ancestor_of(path) {
            let ghost before = searched_repositories(found@, directories@, open);
            assert(open.push(path@).drop_last() =~= open);
            if let Some(repository) = repository_of(path, directories, found) {
                assert(before.push(repository@).drop_last() =~= before);
                repositories.insert(repository);
            }
            proof {
                open = open.push(path@);
            }
        }
        i = i + 1;
    }
    assert(all.take(i as int) =~= all);
    repositories
}

/// The repositories that are in doubt: a cached directory covers each of their paths, so git has
/// to be asked whether it ignores them.
pub open spec fn doubtful(
    found: Seq<(Seq<u8>, Kind)>,
    directories: Seq<Seq<u8>>,
    rows: Seq<ExclusionView>,
    paths: Seq<Seq<u8>>,
) -> Seq<Seq<u8>> {
    diff::paths_only_in(
        searched_repositories(found, directories, paths),
        stirred_repositories(found, directories, rows, paths),
    )
}

/// The repositories for which git has to be asked whether it ignores their paths.
pub fn repositories_in_doubt(
    paths: &PathSet,
    directories: &PathSet,
    cache: &Cache,
    found: &Findings,
) -> (repositories: PathSet)
    ensures
        repositories@ == doubtful(found@, directories@, cache@.rows, paths@),
{
    let settled = stirred(paths, directories, cache, found);
    let ghost all = paths@;
    let ghost sure = stirred_repositories(found@, directories@, cache@.rows, all);
    proof {
        sorted_set::extended_laws::<FilePath>(Seq::empty(), sure);
    }
    let mut repositories = PathSet::new();
    let mut i: usize = 0;
    assert(all.take(0) =~= Seq::<Seq<u8>>::empty());
    while i < paths.len()
        invariant
            i <= all.len(),
            all == paths@,
            forall|k: Seq<Seq<u8>>| #[trigger]
                sorted_set::has_key::<FilePath>(settled@, k) <==> sorted_set::has_key::<FilePath>(
                    sure,
                    k,
                ),
            repositories@ == diff::paths_only_in(
                searched_repositories(found@, directories@, all.take(i as int)),
                sure,
            ),
        decreases all.len() - i,
    {
        assert(all.take(i + 1).drop_last() =~= all.take(i as int));
        let ghost some = searched_repositories(found@, directories@, all.take(i as int));
        if let Some(repository) = repository_of(paths.get(i), directories, found) {
            proof {
                assert(some.push(repository@).drop_last() =~= some);
                let before = diff::unlisted(some, sure);
                assert(before.push(repository@).drop_last() =~= before);
            }
            if !settled.contains(&repository) {
                repositories.insert(repository);
            }
        }
        i = i + 1;
    }
    assert(all.take(i as int) =~= all);
    repositories
}

/// The paths of a repository.
pub open spec fn paths_in(
    found: Seq<(Seq<u8>, Kind)>,
    directories: Seq<Seq<u8>>,
    repository: Seq<u8>,
    paths: Seq<Seq<u8>>,
) -> Seq<Seq<u8>>
    decreases paths.len(),
{
    if paths.len() == 0 {
        paths
    } else {
        let init = paths_in(found, directories, repository, paths.drop_last());
        match searched_repository(found, directories, paths.last()) {
            Some(r) => if path::components(r) == path::components(repository) {
                init.push(paths.last())
            } else {
                init
            },
            None => init,
        }
    }
}

/// The paths of a repository, to ask git whether it ignores them.
pub fn paths_in_repository(
    paths: &PathSet,
    directories: &PathSet,
    found: &Findings,
    repository: &FilePath,
) -> (res: Vec<FilePath>)
    ensures
        sorted_set::item_views(res@) == paths_in(found@, directories@, repository@, paths@),
{
    let ghost all = paths@;
    let mut res: Vec<FilePath> = Vec::new();
    let mut i: usize = 0;
    assert(all.take(0) =~= Seq::<Seq<u8>>::empty());
    assert(sorted_set::item_views(res@) =~= Seq::<Seq<u8>>::empty());
    while i < paths.len()
        invariant
            i <= all.len(),
            all == paths@,
            sorted_set::item_views(res@) == paths_in(
                found@,
                directories@,
                repository@,
                all.take(i as int),
            ),
        decreases all.len() - i,
    {
        assert(all.take(i + 1).drop_last() =~= all.take(i as int));
        let ghost before = sorted_set::item_views(res@);
        let path = paths.get(i);
        if let Some(r) = repository_of(path, directories, found) {
            if r == *repository {
                res.push(path.clone());
                assert(sorted_set::item_views(res@) =~= before.push(path@));
            }
        }
        i = i + 1;
    }
    assert(all.take(i as int) =~= all);
    res
}

/// The repositories to scan because of paths that changed.
pub fn find_repositories_to_scan(
    paths: &PathSet,
    directories: &PathSet,
    cache: &Cache,
    found: &Findings,
    unignored: &PathSet,
) -> (repositories: PathSet)
    ensures
        repositories@ == repositories_to_scan(
            found@,
            directories@,
            cache@.rows,
            unignored@,
            paths@,
        ),
{
    let settled = stirred(paths, directories, cache, found);
    let ghost all = paths@;
    let ghost sure = stirred_repositories(found@, directories@, cache@.rows, all);
    proof {
        sorted_set::extended_laws::<FilePath>(Seq::empty(), sure);
    }
    let mut repositories = PathSet::new();
    let mut i: usize = 0;
    assert(all.take(0) =~= Seq::<Seq<u8>>::empty());
    while i < paths.len()
        invariant
            i <= all.len(),
            all == paths@,
            forall|k: Seq<Seq<u8>>| #[trigger]
                sorted_set::has_key::<FilePath>(settled@, k) <==> sorted_set::has_key::<FilePath>(
                    sure,
                    k,
                ),
            repositories@ == sorted_set::extended::<FilePath>(
                Seq::empty(),
                listed_in_either(
                    searched_repositories(found@, directories@, all.take(i as int)),
                    sure,
                    unignored@,
                ),
            ),
        decreases all.len() - i,
    {
        assert(all.take(i + 1).drop_last() =~= all.take(i as int));
        let ghost some = searched_repositories(found@, directories@, all.take(i as int));
        if let Some(repository) = repository_of(paths.get(i), directories, found) {
            proof {
                assert(some.push(repository@).drop_last() =~= some);
                let before = listed_in_either(some, sure, unignored@);
                assert(before.push(repository@).drop_last() =~= before);
            }
            if settled.contains(&repository) || unignored.contains(&repository) {
                repositories.insert(repository);
            }
        }
        i = i + 1;
    }
    assert(all.take(i as int) =~= all);
    repositories
}

/// The repositories of the paths are those of one of them.
pub proof fn searched_repositories_have_paths(
    found: Seq<(Seq<u8>, Kind)>,
    directories: Seq<Seq<u8>>,
    paths: Seq<Seq<u8>>,
    r: Seq<u8>,
)
    ensures
        searched_repositories(found, directories, paths).contains(r) <==> exists|i: int|
            0 <= i < paths.len() && searched_repository(found, directories, #[trigger] paths[i])
                == Some(r),
    decreases paths.len(),
{
    if paths.len() > 0 {
        let init = paths.drop_last();
        let some = searched_repositories(found, directories, init);
        let all = searched_repositories(found, directories, paths);
        searched_repositories_have_paths(found, directories, init, r);
        if let Some(last) = searched_repository(found, directories, paths.last()) {
            vstd::seq_lib::lemma_seq_contains_after_push(some, last, r);
        }
        if all.contains(r) {
            if some.contains(r) {
                let i = choose|i: int|
                    0 <= i < init.len() && searched_repository(
                        found,
                        directories,
                        #[trigger] init[i],
                    ) == Some(r);
                assert(paths[i] == init[i]);
            } else {
                assert(searched_repository(found, directories, paths[paths.len() - 1]) == Some(r));
            }
        }
        if exists|i: int|
            0 <= i < paths.len() && searched_repository(found, directories, #[trigger] paths[i])
                == Some(r) {
            let i = choose|i: int|
                0 <= i < paths.len() && searched_repository(
                    found,
                    directories,
                    #[trigger] paths[i],
                ) == Some(r);
            if i < init.len() {
                assert(init[i] == paths[i]);
                assert(some.contains(r));
            }
        }
    }
}

/// The paths that no cached directory covers are those of the paths that none covers.
pub proof fn uncovered_contains(rows: Seq<ExclusionView>, paths: Seq<Seq<u8>>, p: Seq<u8>)
    ensures
        uncovered(rows, paths).contains(p) <==> paths.contains(p) && !cache::covers(rows, p),
    decreases paths.len(),
{
    if paths.len() > 0 {
        let init = paths.drop_last();
        uncovered_contains(rows, init, p);
        assert(paths =~= init.push(paths.last()));
        vstd::seq_lib::lemma_seq_contains_after_push(init, paths.last(), p);
        vstd::seq_lib::lemma_seq_contains_after_push(uncovered(rows, init), paths.last(), p);
    }
}

/// The repositories that one of two lists has are those of the repositories that one has.
pub proof fn listed_in_either_contains(
    all: Seq<Seq<u8>>,
    a: Seq<Seq<u8>>,
    b: Seq<Seq<u8>>,
    r: Seq<u8>,
)
    ensures
        listed_in_either(all, a, b).contains(r) <==> all.contains(r) && (diff::lists(
            a,
            path::components(r),
        ) || diff::lists(b, path::components(r))),
    decreases all.len(),
{
    if all.len() > 0 {
        let init = all.drop_last();
        listed_in_either_contains(init, a, b, r);
        assert(all =~= init.push(all.last()));
        vstd::seq_lib::lemma_seq_contains_after_push(init, all.last(), r);
        vstd::seq_lib::lemma_seq_contains_after_push(
            listed_in_either(init, a, b),
            all.last(),
            r,
        );
    }
}

/// Every repository to scan is in one of the search directories, and holds one of the paths.
pub proof fn scanned_repositories_are_searched(
    found: Seq<(Seq<u8>, Kind)>,
    directories: Seq<Seq<u8>>,
    rows: Seq<ExclusionView>,
    unignored: Seq<Seq<u8>>,
    paths: Seq<Seq<u8>>,
    r: Seq<u8>,
)
    requires
        repositories_to_scan(found, directories, rows, unignored, paths).contains(r),
    ensures
        is_in_one_of(r, directories),
        exists|i: int|
            0 <= i < paths.len() && git::parent_repository(found, #[trigger] paths[i]) == Some(r),
{
    let all = searched_repositories(found, directories, paths);
    let sure = stirred_repositories(found, directories, rows, paths);
    let some = listed_in_either(all, sure, unignored);
    sorted_set::extended_laws::<FilePath>(Seq::empty(), some);
    assert(some.contains(r));
    listed_in_either_contains(all, sure, unignored, r);
    searched_repositories_have_paths(found, directories, paths, r);
    let i = choose|i: int|
        0 <= i < paths.len() && searched_repository(found, directories, #[trigger] paths[i])
            == Some(r);
    assert(git::parent_repository(found, paths[i]) == Some(r));
}

/// A path that no cached directory covers has its repository scanned, and so has every path in a
/// repository that git says to hold a path which it does not ignore.
pub proof fn changed_repository_is_scanned(
    found: Seq<(Seq<u8>, Kind)>,
    directories: Seq<Seq<u8>>,
    rows: Seq<ExclusionView>,
    unignored: Seq<Seq<u8>>,
    paths: Seq<Seq<u8>>,
    p: Seq<u8>,
    r: Seq<u8>,
)
    requires
        paths.contains(p),
        git::parent_repository(found, p) == Some(r),
        is_in_one_of(r, directories),
        !cache::covers(rows, p) || diff::lists(unignored, path::components(r)),
    ensures
        diff::lists(
            repositories_to_scan(found, directories, rows, unignored, paths),
            path::components(r),
        ),
{
    let all = searched_repositories(found, directories, paths);
    let sure = stirred_repositories(found, directories, rows, paths);
    let some = listed_in_either(all, sure, unignored);
    let k = path::components(r);
    let i = choose|i: int| 0 <= i < paths.len() && paths[i] == p;
    assert(searched_repository(found, directories, paths[i]) == Some(r));
    searched_repositories_have_paths(found, directories, paths, r);
    if !cache::covers(rows, p) {
        uncovered_contains(rows, paths, p);
        let open = uncovered(rows, paths);
        let j = choose|j: int| 0 <= j < open.len() && open[j] == p;
        assert(searched_repository(found, directories, open[j]) == Some(r));
        searched_repositories_have_paths(found, directories, open, r);
        let n = choose|n: int| 0 <= n < sure.len() && sure[n] == r;
        assert(path::components(sure[n]) == k);
        assert(diff::lists(sure, k));
    }
    listed_in_either_contains(all, sure, unignored, r);
    let m = choose|m: int| 0 <= m < some.len() && some[m] == r;
    assert(path::components(some[m]) == k);
    assert(sorted_set::has_key::<FilePath>(some, k));
    sorted_set::extended_laws::<FilePath>(Seq::empty(), some);
}

/// A repository is scanned for a reason only: one of its paths is covered by no cached directory,
/// or git says that it does not ignore one of them.
pub proof fn scan_has_a_reason(
    found: Seq<(Seq<u8>, Kind)>,
    directories: Seq<Seq<u8>>,
    rows: Seq<ExclusionView>,
    unignored: Seq<Seq<u8>>,
    paths: Seq<Seq<u8>>,
    k: Seq<Seq<u8>>,
)
    requires
        diff::lists(repositories_to_scan(found, directories, rows, unignored, paths), k),
        !diff::lists(unignored, k),
    ensures
        exists|p: Seq<u8>| #[trigger]
            paths.contains(p) && !cache::covers(rows, p) && git::parent_repository(found, p)
                is Some && path::components(git::parent_repository(found, p)->0) == k,
{
    let all = searched_repositories(found, directories, paths);
    let sure = stirred_repositories(found, directories, rows, paths);
    let some = listed_in_either(all, sure, unignored);
    sorted_set::extended_laws::<FilePath>(Seq::empty(), some);
    assert(sorted_set::has_key::<FilePath>(some, k));
    let i = choose|i: int| 0 <= i < some.len() && path::components(#[trigger] some[i]) == k;
    assert(some.contains(some[i]));
    listed_in_either_contains(all, sure, unignored, some[i]);
    assert(diff::lists(sure, k));
    let j = choose|j: int| 0 <= j < sure.len() && path::components(#[trigger] sure[j]) == k;
    assert(sure.contains(sure[j]));
    let open = uncovered(rows, paths);
    searched_repositories_have_paths(found, directories, open, sure[j]);
    let n = choose|n: int|
        0 <= n < open.len() && searched_repository(found, directories, #[trigger] open[n]) == Some(
            sure[j],
        );
    assert(open.contains(open[n]));
    uncovered_contains(rows, paths, open[n]);
    assert(paths.contains(open[n]));
}

/// What the scan of a repository changes, if it changes anything.
pub fn find_changes(
    cache: &Cache,
    repository: &FilePath,
    exclusions: Vec<Exclusion>,
) -> (changes: Option<Diff>)
    ensures
        ({
            let now = diff::exclusion_paths(sorted_set::item_views(exclusions@));
            let then = cache::created_by(cache@.rows, repository@);
            match changes {
                Some(d) => diff::is_difference(d.added@, now, then) && diff::is_difference(
                    d.removed@,
                    then,
                    now,
                ) && (d.added@.len() > 0 || d.removed@.len() > 0),
                None => forall|k: Seq<Seq<u8>>| #[trigger]
                    diff::lists(now, k) <==> diff::lists(then, k),
            }
        }),
{
    let ghost found = sorted_set::item_views(exclusions@);
    let ghost now = diff::exclusion_paths(found);
    let ghost then = cache::created_by(cache@.rows, repository@);
    let current = diff::sort_and_dedup(exclusions);
    let ghost sorted_now = diff::exclusion_paths(sorted_set::item_views(current@));
    let previous = sort::sort(cache.paths_created_by(repository));
    let ghost sorted_then = sorted_set::item_views(previous@);
    let changes = Diff::from_sorted(&current, &previous);
    proof {
        diff::sorted_set_keeps_paths(sorted_set::item_views(current@), found);
        diff::lists_in_any_order(sorted_then, then);
        diff::differences_by_listing(sorted_now, now, sorted_then, then);
        diff::differences_by_listing(sorted_then, then, sorted_now, now);
    }
    if changes.added.is_empty() && changes.removed.is_empty() {
        proof {
            assert forall|k: Seq<Seq<u8>>| #[trigger] diff::lists(now, k) <==> diff::lists(
                then,
                k,
            ) by {
                assert(diff::lists(changes.added@, k) <==> diff::lists(now, k) && !diff::lists(
                    then,
                    k,
                ));
                assert(diff::lists(changes.removed@, k) <==> diff::lists(then, k) && !diff::lists(
                    now,
                    k,
                ));
            }
        }
        None
    } else {
        Some(changes)
    }
}

/// The exclusions for the paths that were added, but for those that failed.
pub open spec fn rows_added(
    added: Seq<Seq<u8>>,
    failed: Seq<Seq<u8>>,
    repository: Seq<u8>,
) -> Seq<ExclusionView> {
    diff::unlisted(added, failed).map_values(
        |p: Seq<u8>| ExclusionView { path: p, repository: Some(repository) },
    )
}

/// The rows after the scan of a repository.
pub open spec fn rescanned(
    rows: Seq<ExclusionView>,
    added: Seq<Seq<u8>>,
    removed: Seq<Seq<u8>>,
    failed: Seq<Seq<u8>>,
    repository: Seq<u8>,
) -> Seq<ExclusionView> {
    cache::rows_without(rows, removed, repository) + rows_added(added, failed, repository)
}

proof fn removing_nothing(rows: Seq<ExclusionView>, repository: Seq<u8>)
    ensures
        cache::rows_without(rows, Seq::empty(), repository) == rows,
    decreases rows.len(),
{
    if rows.len() > 0 {
        removing_nothing(rows.drop_last(), repository);
        assert(rows =~= rows.drop_last().push(rows.last()));
    }
}

/// Notes in the cache what the scan of a repository changed. A dry run changes nothing.
pub fn commit_changes(
    cache: &mut Cache,
    repository: &FilePath,
    changes: &Diff,
    failed: &PathSet,
    dry_run: bool,
    now: Timestamp,
)
    ensures
        dry_run ==> final(cache)@ == old(cache)@,
        !dry_run ==> final(cache)@ == (CacheView {
            rows: rescanned(
                old(cache)@.rows,
                changes.added@,
                changes.removed@,
                failed@,
                repository@,
            ),
            last_update: Some(now),
            version: old(cache)@.version,
        }),
{
    if dry_run {
        return ;
    }
    let ghost rows = cache@.rows;
    proof {
        removing_nothing(rows, repository@);
        if changes.removed@.len() == 0 {
            assert(changes.removed@ =~= Seq::<Seq<u8>>::empty());
        }
    }
    if !changes.removed.is_empty() {
        cache.remove_paths(changes.removed.items(), repository, now);
    }
    let ghost all = changes.added@;
    let mut added: Vec<Exclusion> = Vec::new();
    let mut i: usize = 0;
    assert(all.take(0) =~= Seq::<Seq<u8>>::empty());
    assert(sorted_set::item_views(added@) =~= rows_added(all.take(0), failed@, repository@));
    while i < changes.added.len()
        invariant
            i <= all.len(),
            all == changes.added@,
            sorted_set::item_views(added@) == rows_added(
                all.take(i as int),
                failed@,
                repository@,
            ),
        decreases all.len() - i,
    {
        assert(all.take(i + 1).drop_last() =~= all.take(i as int));
        let ghost before = sorted_set::item_views(added@);
        let path = changes.added.get(i);
        if !failed.contains(path) {
            let exclusion = Exclusion::new(path.clone(), repository.clone());
            let ghost v = exclusion@;
            added.push(exclusion);
            assert(sorted_set::item_views(added@) =~= before.push(v));
            assert(before.push(v) =~= rows_added(all.take(i + 1), failed@, repository@));
        }
        i = i + 1;
    }
    assert(all.take(i as int) =~= all);
    cache.add_paths(added, now);
}

proof fn created_by_mapped(paths: Seq<Seq<u8>>, repository: Seq<u8>, other: Seq<u8>)
    ensures
        ({
            let rows = paths.map_values(
                |p: Seq<u8>| ExclusionView { path: p, repository: Some(repository) },
            );
            &&& cache::created_by(rows, repository) == paths
            &&& other != repository ==> cache::created_by(rows, other).len() == 0
        }),
    decreases paths.len(),
{
    let rows = paths.map_values(
        |p: Seq<u8>| ExclusionView { path: p, repository: Some(repository) },
    );
    if paths.len() > 0 {
        created_by_mapped(paths.drop_last(), repository, other);
        let init = paths.drop_last().map_values(
            |p: Seq<u8>| ExclusionView { path: p, repository: Some(repository) },
        );
        assert(rows.drop_last() =~= init);
        assert(paths =~= paths.drop_last().push(paths.last()));
    } else {
        assert(cache::created_by(rows, repository) =~= paths);
    }
}

/// The scan of one repository changes nothing of what every other repository created.
pub proof fn rescan_leaves_other_repositories(
    rows: Seq<ExclusionView>,
    added: Seq<Seq<u8>>,
    removed: Seq<Seq<u8>>,
    failed: Seq<Seq<u8>>,
    repository: Seq<u8>,
    other: Seq<u8>,
)
    requires
        other != repository,
    ensures
        cache::created_by(rescanned(rows, added, removed, failed, repository), other)
            == cache::created_by(rows, other),
{
    let kept = cache::rows_without(rows, removed, repository);
    let more = rows_added(added, failed, repository);
    cache::created_by_added(kept, more, other);
    cache::created_by_removed(rows, removed, repository, other);
    created_by_mapped(diff::unlisted(added, failed), repository, other);
    assert(cache::created_by(kept, other) + cache::created_by(more, other) =~= cache::created_by(
        rows,
        other,
    ));
}

/// The scan of a repository removes no row that another repository, or none, created.
pub proof fn rescan_keeps_rows_of_others(
    rows: Seq<ExclusionView>,
    added: Seq<Seq<u8>>,
    removed: Seq<Seq<u8>>,
    failed: Seq<Seq<u8>>,
    repository: Seq<u8>,
    row: ExclusionView,
)
    requires
        rows.contains(row),
        row.repository != Some(repository),
    ensures
        rescanned(rows, added, removed, failed, repository).contains(row),
{
    kept_row(rows, removed, repository, row);
    let kept = cache::rows_without(rows, removed, repository);
    let all = rescanned(rows, added, removed, failed, repository);
    let i = choose|i: int| 0 <= i < kept.len() && kept[i] == row;
    assert(all[i] == row);
}

proof fn kept_row(
    rows: Seq<ExclusionView>,
    removed: Seq<Seq<u8>>,
    repository: Seq<u8>,
    row: ExclusionView,
)
    requires
        rows.contains(row),
        row.repository != Some(repository),
    ensures
        cache::rows_without(rows, removed, repository).contains(row),
    decreases rows.len(),
{
    let init = rows.drop_last();
    let some = cache::rows_without(init, removed, repository);
    assert(rows =~= init.push(rows.last()));
    vstd::seq_lib::lemma_seq_contains_after_push(init, rows.last(), row);
    vstd::seq_lib::lemma_seq_contains_after_push(some, rows.last(), row);
    if init.contains(row) {
        kept_row(init, removed, repository, row);
    }
}

/// What a repository created is, after its scan, what it had created without what was removed,
/// and what was added without what failed.
pub proof fn rescan_result(
    rows: Seq<ExclusionView>,
    added: Seq<Seq<u8>>,
    removed: Seq<Seq<u8>>,
    failed: Seq<Seq<u8>>,
    repository: Seq<u8>,
)
    ensures
        cache::created_by(rescanned(rows, added, removed, failed, repository), repository)
            == cache::paths_without(cache::created_by(rows, repository), removed)
            + diff::unlisted(added, failed),
{
    let kept = cache::rows_without(rows, removed, repository);
    let more = rows_added(added, failed, repository);
    cache::created_by_added(kept, more, repository);
    cache::created_by_removed(rows, removed, repository, repository);
    created_by_mapped(diff::unlisted(added, failed), repository, repository);
}

/// No path is spelled in two ways.
pub open spec fn spelled_once(paths: Seq<Seq<u8>>) -> bool {
    forall|i: int, j: int|
        0 <= i < paths.len() && 0 <= j < paths.len() && path::components(#[trigger] paths[i])
            == path::components(#[trigger] paths[j]) ==> paths[i] == paths[j]
}

/// The scan of a repository spells no path in a second way, neither among what that repository
/// created nor among what another one did.
pub proof fn rescan_keeps_spelling(
    rows: Seq<ExclusionView>,
    now: Seq<Seq<u8>>,
    added: Seq<Seq<u8>>,
    removed: Seq<Seq<u8>>,
    failed: Seq<Seq<u8>>,
    repository: Seq<u8>,
    creator: Seq<u8>,
)
    requires
        diff::is_difference(added, now, cache::created_by(rows, repository)),
        spelled_once(cache::created_by(rows, creator)),
    ensures
        spelled_once(
            cache::created_by(rescanned(rows, added, removed, failed, repository), creator),
        ),
{
    if creator != repository {
        rescan_leaves_other_repositories(rows, added, removed, failed, repository, creator);
    } else {
        let then = cache::created_by(rows, repository);
        let kept = cache::paths_without(then, removed);
        let new = diff::unlisted(added, failed);
        let after = kept + new;
        rescan_result(rows, added, removed, failed, repository);
        cache::paths_without_contains(then, removed);
        diff::unlisted_contains(added, failed);
        assert forall|i: int|
            #![trigger after[i]]
            0 <= i < after.len() implies then.contains(after[i]) || added.contains(after[i]) by {
            if i < kept.len() {
                assert(kept.contains(kept[i]));
            } else {
                assert(new.contains(new[i - kept.len()]));
            }
        }
        assert forall|i: int, j: int|
            0 <= i < after.len() && 0 <= j < after.len() && path::components(#[trigger] after[i])
                == path::components(#[trigger] after[j]) implies after[i] == after[j] by {
            let k = path::components(after[i]);
            assert(diff::lists(added, k) <==> diff::lists(now, k) && !diff::lists(then, k));
            if then.contains(after[i]) {
                let m = choose|m: int| 0 <= m < then.len() && then[m] == after[i];
                assert(path::components(then[m]) == k);
            } else {
                let m = choose|m: int| 0 <= m < added.len() && added[m] == after[i];
                assert(path::components(added[m]) == k);
            }
            if then.contains(after[j]) {
                let n = choose|n: int| 0 <= n < then.len() && then[n] == after[j];
                assert(path::components(then[n]) == k);
            } else {
                let n = choose|n: int| 0 <= n < added.len() && added[n] == after[j];
                assert(path::components(added[n]) == k);
                <FilePath as Ordered>::before_is_irreflexive(k);
            }
        }
    }
}

/// After its scan, what a repository created is what the scan found, but for what could not be
/// added: a second scan that finds the same has only those paths to add, and none to remove.
pub proof fn rescan_settles(
    rows: Seq<ExclusionView>,
    now: Seq<Seq<u8>>,
    added: Seq<Seq<u8>>,
    removed: Seq<Seq<u8>>,
    failed: Seq<Seq<u8>>,
    repository: Seq<u8>,
    k: Seq<Seq<u8>>,
)
    requires
        diff::is_difference(added, now, cache::created_by(rows, repository)),
        diff::is_difference(removed, cache::created_by(rows, repository), now),
        spelled_once(cache::created_by(rows, repository)),
        diff::lists(failed, k) ==> diff::lists(added, k),
    ensures
        diff::lists(
            cache::created_by(rescanned(rows, added, removed, failed, repository), repository),
            k,
        ) <==> diff::lists(now, k) && !diff::lists(failed, k),
{
    let then = cache::created_by(rows, repository);
    let kept = cache::paths_without(then, removed);
    let new = diff::unlisted(added, failed);
    let after = kept + new;
    rescan_result(rows, added, removed, failed, repository);
    cache::paths_without_contains(then, removed);
    diff::unlisted_keys(added, failed);
    assert(diff::lists(new, k) <==> diff::lists(added, k) && !diff::lists(failed, k));
    assert(diff::lists(added, k) <==> diff::lists(now, k) && !diff::lists(then, k));
    assert(diff::lists(removed, k) <==> diff::lists(then, k) && !diff::lists(now, k));
    assert(diff::lists(kept, k) <==> diff::lists(then, k) && diff::lists(now, k)) by {
        if diff::lists(kept, k) {
            let i = choose|i: int| 0 <= i < kept.len() && path::components(#[trigger] kept[i])
                == k;
            assert(kept.contains(kept[i]));
            assert(then.contains(kept[i]) && !removed.contains(kept[i]));
            let j = choose|j: int| 0 <= j < then.len() && then[j] == kept[i];
            assert(path::components(then[j]) == k);
            if !diff::lists(now, k) {
                let m = choose|m: int|
                    0 <= m < removed.len() && path::components(#[trigger] removed[m]) == k;
                assert(removed.contains(removed[m]));
                assert(then.contains(removed[m]));
                let n = choose|n: int| 0 <= n < then.len() && then[n] == removed[m];
                assert(then[n] == then[j]);
            }
        }
        if diff::lists(then, k) && diff::lists(now, k) {
            let j = choose|j: int| 0 <= j < then.len() && path::components(#[trigger] then[j])
                == k;
            assert(then.contains(then[j]));
            if removed.contains(then[j]) {
                let m = choose|m: int| 0 <= m < removed.len() && removed[m] == then[j];
                assert(path::components(removed[m]) == k);
                assert(diff::lists(removed, k));
            }
            assert(kept.contains(then[j]));
            let i = choose|i: int| 0 <= i < kept.len() && kept[i] == then[j];
            assert(path::components(kept[i]) == k);
        }
    }
    assert(diff::lists(after, k) <==> diff::lists(kept, k) || diff::lists(new, k)) by {
        if diff::lists(after, k) {
            let i = choose|i: int| 0 <= i < after.len() && path::components(#[trigger] after[i])
                == k;
            if i < kept.len() {
                assert(path::components(kept[i]) == k);
            } else {
                assert(path::components(new[i - kept.len()]) == k);
            }
        }
        if diff::lists(kept, k) {
            let i = choose|i: int| 0 <= i < kept.len() && path::components(#[trigger] kept[i])
                == k;
            assert(path::components(after[i]) == k);
        }
        if diff::lists(new, k) {
            let i = choose|i: int| 0 <= i < new.len() && path::components(#[trigger] new[i]) == k;
            assert(path::components(after[kept.len() + i]) == k);
        }
    }
}

} // verus!
