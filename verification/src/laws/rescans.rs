//! Laws of the scans that follow a change.
use vstd::prelude::*;

use crate::cache;
use crate::commands::rescan;
use crate::diff;
use crate::diff::ExclusionView;
use crate::facts::Kind;
use crate::git;
use crate::laws::caches;
use crate::laws::exclusions;
use crate::path;
use crate::path::FilePath;
use crate::sorted_set;

verus! {

/// One of the directories is the repository or stands above it.
pub open spec fn is_below_one(repository: Seq<u8>, directories: Seq<Seq<u8>>) -> bool {
    exists|i: int|
        0 <= i < directories.len() && path::components(#[trigger] directories[i]).is_prefix_of(
            path::components(repository),
        )
}

/// The repository of the path is this one, and one of the directories stands above it.
pub open spec fn is_searched_in(
    found: Seq<(Seq<u8>, Kind)>,
    directories: Seq<Seq<u8>>,
    p: Seq<u8>,
    r: Seq<u8>,
) -> bool {
    git::parent_repository(found, p) == Some(r) && is_below_one(r, directories)
}

/// A repository is searched if one of the directories, whichever it is, stands above it, and it is
/// not if none does.
pub proof fn every_directory_counts(
    found: Seq<(Seq<u8>, Kind)>,
    directories: Seq<Seq<u8>>,
    p: Seq<u8>,
    r: Seq<u8>,
)
    ensures
        rescan::searched_repository(found, directories, p) == Some(r) <==> git::parent_repository(
            found,
            p,
        ) == Some(r) && exists|i: int|
            0 <= i < directories.len() && path::components(#[trigger] directories[i]).is_prefix_of(
                path::components(r),
            ),
        forall|i: int|
            0 <= i < directories.len() && #[trigger] path::path_starts_with(r, directories[i])
                && git::parent_repository(found, p) == Some(r) ==> rescan::searched_repository(
                found,
                directories,
                p,
            ) == Some(r),
{
    if exists|i: int|
        0 <= i < directories.len() && path::components(#[trigger] directories[i]).is_prefix_of(
            path::components(r),
        ) {
        let i = choose|i: int|
            0 <= i < directories.len() && path::components(#[trigger] directories[i]).is_prefix_of(
                path::components(r),
            );
        assert(path::path_starts_with(r, directories[i]));
        assert(rescan::is_in_one_of(r, directories));
    }
    if rescan::is_in_one_of(r, directories) {
        let i = choose|i: int|
            0 <= i < directories.len() && path::path_starts_with(r, #[trigger] directories[i]);
        assert(path::components(directories[i]).is_prefix_of(path::components(r)));
    }
    assert forall|i: int|
        0 <= i < directories.len() && #[trigger] path::path_starts_with(r, directories[i])
            && git::parent_repository(found, p) == Some(r) implies rescan::searched_repository(
        found,
        directories,
        p,
    ) == Some(r) by {
        assert(rescan::is_in_one_of(r, directories));
    }
}

/// The repositories of some paths are those of one of them above which one of the directories
/// stands.
pub proof fn searched(
    found: Seq<(Seq<u8>, Kind)>,
    directories: Seq<Seq<u8>>,
    paths: Seq<Seq<u8>>,
    k: Seq<Seq<u8>>,
)
    ensures
        diff::lists(rescan::searched_repositories(found, directories, paths), k) <==> exists|
            p: Seq<u8>,
            r: Seq<u8>,
        |
            paths.contains(p) && #[trigger] is_searched_in(found, directories, p, r)
                && path::components(r) == k,
{
    let all = rescan::searched_repositories(found, directories, paths);
    if diff::lists(all, k) {
        let n = choose|n: int| 0 <= n < all.len() && path::components(#[trigger] all[n]) == k;
        let r = all[n];
        assert(all.contains(r));
        rescan::searched_repositories_have_paths(found, directories, paths, r);
        let i = choose|i: int|
            0 <= i < paths.len() && rescan::searched_repository(
                found,
                directories,
                #[trigger] paths[i],
            ) == Some(r);
        every_directory_counts(found, directories, paths[i], r);
        assert(paths.contains(paths[i]) && is_searched_in(found, directories, paths[i], r));
    }
    if exists|p: Seq<u8>, r: Seq<u8>|
        paths.contains(p) && #[trigger] is_searched_in(found, directories, p, r)
            && path::components(r) == k {
        let (p, r) = choose|p: Seq<u8>, r: Seq<u8>|
            paths.contains(p) && #[trigger] is_searched_in(found, directories, p, r)
                && path::components(r) == k;
        let i = choose|i: int| 0 <= i < paths.len() && paths[i] == p;
        every_directory_counts(found, directories, p, r);
        assert(rescan::searched_repository(found, directories, paths[i]) == Some(r));
        rescan::searched_repositories_have_paths(found, directories, paths, r);
        exclusions::listed_by_components(all, k);
    }
}

proof fn stirred(
    found: Seq<(Seq<u8>, Kind)>,
    directories: Seq<Seq<u8>>,
    rows: Seq<ExclusionView>,
    paths: Seq<Seq<u8>>,
    k: Seq<Seq<u8>>,
)
    ensures
        diff::lists(rescan::stirred_repositories(found, directories, rows, paths), k) <==> exists|
            p: Seq<u8>,
            r: Seq<u8>,
        |
            paths.contains(p) && !cache::covers(rows, p) && #[trigger] is_searched_in(
                found,
                directories,
                p,
                r,
            ) && path::components(r) == k,
{
    let open = rescan::uncovered(rows, paths);
    searched(found, directories, open, k);
    if diff::lists(rescan::stirred_repositories(found, directories, rows, paths), k) {
        let (p, r) = choose|p: Seq<u8>, r: Seq<u8>|
            open.contains(p) && #[trigger] is_searched_in(found, directories, p, r)
                && path::components(r) == k;
        rescan::uncovered_contains(rows, paths, p);
        assert(paths.contains(p) && !cache::covers(rows, p) && is_searched_in(
            found,
            directories,
            p,
            r,
        ));
    }
    if exists|p: Seq<u8>, r: Seq<u8>|
        paths.contains(p) && !cache::covers(rows, p) && #[trigger] is_searched_in(
            found,
            directories,
            p,
            r,
        ) && path::components(r) == k {
        let (p, r) = choose|p: Seq<u8>, r: Seq<u8>|
            paths.contains(p) && !cache::covers(rows, p) && #[trigger] is_searched_in(
                found,
                directories,
                p,
                r,
            ) && path::components(r) == k;
        rescan::uncovered_contains(rows, paths, p);
        assert(open.contains(p) && is_searched_in(found, directories, p, r));
    }
}

/// A repository is scanned if and only if it is that of one of the paths, one of the directories
/// stands above it, and one of its paths is covered by no cached directory or git does not ignore
/// one of them.
pub proof fn repositories_that_are_scanned(
    found: Seq<(Seq<u8>, Kind)>,
    directories: Seq<Seq<u8>>,
    rows: Seq<ExclusionView>,
    unignored: Seq<Seq<u8>>,
    paths: Seq<Seq<u8>>,
    k: Seq<Seq<u8>>,
)
    ensures
        (exists|r: Seq<u8>| #[trigger]
            rescan::repositories_to_scan(found, directories, rows, unignored, paths).contains(r)
                && path::components(r) == k) <==> {
            ||| exists|p: Seq<u8>, r: Seq<u8>|
                paths.contains(p) && !cache::covers(rows, p) && #[trigger] is_searched_in(
                    found,
                    directories,
                    p,
                    r,
                ) && path::components(r) == k
            ||| (exists|p: Seq<u8>, r: Seq<u8>|
                paths.contains(p) && #[trigger] is_searched_in(found, directories, p, r)
                    && path::components(r) == k) && exists|u: Seq<u8>| #[trigger]
                unignored.contains(u) && path::components(u) == k
        },
{
    let all = rescan::searched_repositories(found, directories, paths);
    let sure = rescan::stirred_repositories(found, directories, rows, paths);
    let some = rescan::listed_in_either(all, sure, unignored);
    let res = rescan::repositories_to_scan(found, directories, rows, unignored, paths);
    searched(found, directories, paths, k);
    stirred(found, directories, rows, paths, k);
    exclusions::listed_by_components(unignored, k);
    exclusions::listed_by_components(res, k);
    exclusions::listed_by_components(some, k);
    exclusions::listed_by_components(all, k);
    sorted_set::extended_laws::<FilePath>(Seq::empty(), some);
    assert(diff::lists(res, k) <==> diff::lists(some, k));
    if diff::lists(some, k) {
        let r = choose|r: Seq<u8>| #[trigger] some.contains(r) && path::components(r) == k;
        rescan::listed_in_either_contains(all, sure, unignored, r);
        assert(all.contains(r));
    }
    if diff::lists(sure, k) {
        let (p, r) = choose|p: Seq<u8>, r: Seq<u8>|
            paths.contains(p) && !cache::covers(rows, p) && #[trigger] is_searched_in(
                found,
                directories,
                p,
                r,
            ) && path::components(r) == k;
        assert(paths.contains(p) && is_searched_in(found, directories, p, r));
    }
    if diff::lists(all, k) && (diff::lists(sure, k) || diff::lists(unignored, k)) {
        let r = choose|r: Seq<u8>| #[trigger] all.contains(r) && path::components(r) == k;
        rescan::listed_in_either_contains(all, sure, unignored, r);
        assert(some.contains(r));
    }
}

/// Git is asked of a repository just where a cached directory covers every path of it.
pub proof fn repositories_that_are_in_doubt(
    found: Seq<(Seq<u8>, Kind)>,
    directories: Seq<Seq<u8>>,
    rows: Seq<ExclusionView>,
    paths: Seq<Seq<u8>>,
    k: Seq<Seq<u8>>,
)
    ensures
        (exists|r: Seq<u8>| #[trigger]
            rescan::doubtful(found, directories, rows, paths).contains(r) && path::components(r)
                == k) <==> {
            &&& exists|p: Seq<u8>, r: Seq<u8>|
                paths.contains(p) && #[trigger] is_searched_in(found, directories, p, r)
                    && path::components(r) == k
            &&& forall|p: Seq<u8>, r: Seq<u8>|
                paths.contains(p) && #[trigger] is_searched_in(found, directories, p, r)
                    && path::components(r) == k ==> cache::covers(rows, p)
        },
{
    let all = rescan::searched_repositories(found, directories, paths);
    let sure = rescan::stirred_repositories(found, directories, rows, paths);
    let res = rescan::doubtful(found, directories, rows, paths);
    diff::paths_only_in_laws(all, sure);
    exclusions::listed_by_components(res, k);
    searched(found, directories, paths, k);
    stirred(found, directories, rows, paths, k);
    assert(diff::lists(res, k) <==> diff::lists(all, k) && !diff::lists(sure, k));
    if !diff::lists(sure, k) {
        assert forall|p: Seq<u8>, r: Seq<u8>|
            paths.contains(p) && #[trigger] is_searched_in(found, directories, p, r)
                && path::components(r) == k implies cache::covers(rows, p) by {}
    } else {
        let (p, r) = choose|p: Seq<u8>, r: Seq<u8>|
            paths.contains(p) && !cache::covers(rows, p) && #[trigger] is_searched_in(
                found,
                directories,
                p,
                r,
            ) && path::components(r) == k;
        assert(is_searched_in(found, directories, p, r));
    }
}

/// The paths of which git is asked for a repository are all those of the paths that are in it, in
/// their order.
pub proof fn paths_of_which_git_is_asked(
    found: Seq<(Seq<u8>, Kind)>,
    directories: Seq<Seq<u8>>,
    repository: Seq<u8>,
    x: Seq<Seq<u8>>,
    y: Seq<Seq<u8>>,
    p: Seq<u8>,
)
    ensures
        rescan::paths_in(found, directories, repository, x).contains(p) <==> x.contains(p)
            && exists|r: Seq<u8>| #[trigger]
            is_searched_in(found, directories, p, r) && path::components(r) == path::components(
                repository,
            ),
        rescan::paths_in(found, directories, repository, x + y) == rescan::paths_in(
            found,
            directories,
            repository,
            x,
        ) + rescan::paths_in(found, directories, repository, y),
        x.len() == 1 ==> rescan::paths_in(found, directories, repository, x).len() <= 1,
    decreases x.len() + y.len(),
{
    reveal_with_fuel(rescan::paths_in, 2);
    if x.len() > 0 {
        let init = x.drop_last();
        let last = x.last();
        paths_of_which_git_is_asked(found, directories, repository, init, Seq::empty(), p);
        assert(x =~= init.push(last));
        vstd::seq_lib::lemma_seq_contains_after_push(init, last, p);
        vstd::seq_lib::lemma_seq_contains_after_push(
            rescan::paths_in(found, directories, repository, init),
            last,
            p,
        );
        if p == last {
            if let Some(r) = rescan::searched_repository(found, directories, last) {
                every_directory_counts(found, directories, last, r);
                assert(is_searched_in(found, directories, last, r));
            }
            if exists|r: Seq<u8>| #[trigger]
                is_searched_in(found, directories, p, r) && path::components(r)
                    == path::components(repository) {
                let r = choose|r: Seq<u8>| #[trigger]
                    is_searched_in(found, directories, p, r) && path::components(r)
                        == path::components(repository);
                every_directory_counts(found, directories, p, r);
            }
        }
    }
    let a = rescan::paths_in(found, directories, repository, x);
    if y.len() == 0 {
        assert(x + y =~= x);
        assert(a + rescan::paths_in(found, directories, repository, y) =~= a);
    } else {
        paths_of_which_git_is_asked(found, directories, repository, x, y.drop_last(), p);
        assert((x + y).drop_last() =~= x + y.drop_last());
        assert(rescan::paths_in(found, directories, repository, x + y) =~= a + rescan::paths_in(
            found,
            directories,
            repository,
            y,
        ));
    }
}

/// After the scan of a repository a row is there if and only if it was there and is not one of the
/// repository for a removed path, or it is one of the repository for an added path that did not
/// fail.
pub proof fn rows_after_a_rescan(
    rows: Seq<ExclusionView>,
    added: Seq<Seq<u8>>,
    removed: Seq<Seq<u8>>,
    failed: Seq<Seq<u8>>,
    repository: Seq<u8>,
    e: ExclusionView,
)
    ensures
        rescan::rescanned(rows, added, removed, failed, repository).contains(e) <==> {
            ||| rows.contains(e) && !(e.repository == Some(repository) && removed.contains(e.path))
            ||| e.repository == Some(repository) && added.contains(e.path) && !exists|i: int|
                0 <= i < failed.len() && path::components(#[trigger] failed[i])
                    == path::components(e.path)
        },
{
    let kept = cache::rows_without(rows, removed, repository);
    let more = rescan::rows_added(added, failed, repository);
    let new = diff::unlisted(added, failed);
    caches::rows_that_stay(rows, Seq::empty(), removed, repository, e);
    vstd::seq_lib::lemma_seq_concat_contains_all_elements(kept, more, e);
    unlisted_members(added, failed, e.path);
    if more.contains(e) {
        let i = choose|i: int| 0 <= i < more.len() && more[i] == e;
        assert(new[i] == e.path);
    }
    if e.repository == Some(repository) && new.contains(e.path) {
        let i = choose|i: int| 0 <= i < new.len() && new[i] == e.path;
        assert(more[i] == e);
    }
}

/// The rows for two lists of added paths, one behind the other, are those for the first and then
/// those for the second, each once.
pub proof fn added_rows_in_parts(
    x: Seq<Seq<u8>>,
    y: Seq<Seq<u8>>,
    failed: Seq<Seq<u8>>,
    repository: Seq<u8>,
)
    ensures
        rescan::rows_added(x + y, failed, repository) == rescan::rows_added(x, failed, repository)
            + rescan::rows_added(y, failed, repository),
        y.len() == 1 ==> rescan::rows_added(y, failed, repository).len() <= 1,
{
    reveal_with_fuel(diff::unlisted, 2);
    unlisted_in_parts(x, y, failed);
    assert(rescan::rows_added(x + y, failed, repository) =~= rescan::rows_added(
        x,
        failed,
        repository,
    ) + rescan::rows_added(y, failed, repository));
}

proof fn unlisted_in_parts(x: Seq<Seq<u8>>, y: Seq<Seq<u8>>, t: Seq<Seq<u8>>)
    ensures
        diff::unlisted(x + y, t) == diff::unlisted(x, t) + diff::unlisted(y, t),
    decreases y.len(),
{
    if y.len() == 0 {
        assert(x + y =~= x);
        assert(diff::unlisted(x, t) + diff::unlisted(y, t) =~= diff::unlisted(x, t));
    } else {
        unlisted_in_parts(x, y.drop_last(), t);
        assert((x + y).drop_last() =~= x + y.drop_last());
        assert(diff::unlisted(x + y, t) =~= diff::unlisted(x, t) + diff::unlisted(y, t));
    }
}

proof fn unlisted_members(s: Seq<Seq<u8>>, t: Seq<Seq<u8>>, p: Seq<u8>)
    ensures
        diff::unlisted(s, t).contains(p) <==> s.contains(p) && !exists|i: int|
            0 <= i < t.len() && path::components(#[trigger] t[i]) == path::components(p),
    decreases s.len(),
{
    exclusions::listed_by_components(t, path::components(p));
    if s.len() > 0 {
        let init = s.drop_last();
        unlisted_members(init, t, p);
        assert(s =~= init.push(s.last()));
        vstd::seq_lib::lemma_seq_contains_after_push(init, s.last(), p);
        vstd::seq_lib::lemma_seq_contains_after_push(diff::unlisted(init, t), s.last(), p);
    }
}

} // verus!
