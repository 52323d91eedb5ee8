//! Laws of the cache.
use vstd::prelude::*;

use crate::cache;
use crate::cache::{Stored, Timestamp};
use crate::commands::list;
use crate::commands::run;
use crate::diff;
use crate::diff::{Exclusion, ExclusionView};
use crate::import;
use crate::laws::exclusions;
use crate::laws::paths;
use crate::path;
use crate::path::FilePath;
use crate::sorted_set;
use crate::text;

verus! {

/// The path and the repository of an exclusion.
pub open spec fn row(path: Seq<u8>, repository: Seq<u8>) -> ExclusionView {
    ExclusionView { path, repository: Some(repository) }
}

/// A repository created a path if and only if there is a row with both. The paths that it created
/// in two lists of rows, one behind the other, are those in the first and then those in the second.
pub proof fn paths_of_a_repository(
    x: Seq<ExclusionView>,
    y: Seq<ExclusionView>,
    repository: Seq<u8>,
    p: Seq<u8>,
)
    ensures
        cache::created_by(x, repository).contains(p) <==> x.contains(row(p, repository)),
        cache::created_by(x + y, repository) == cache::created_by(x, repository)
            + cache::created_by(y, repository),
        x.len() == 1 ==> cache::created_by(x, repository).len() <= 1,
    decreases x.len(),
{
    reveal_with_fuel(cache::created_by, 2);
    cache::created_by_added(x, y, repository);
    if x.len() > 0 {
        let init = x.drop_last();
        paths_of_a_repository(init, y, repository, p);
        assert(x =~= init.push(x.last()));
        vstd::seq_lib::lemma_seq_contains_after_push(init, x.last(), row(p, repository));
        vstd::seq_lib::lemma_seq_contains_after_push(
            cache::created_by(init, repository),
            x.last().path,
            p,
        );
    }
}

/// A row stays if and only if another repository, or none, created it, or its path is not removed.
/// The rows that stay are in their order.
pub proof fn rows_that_stay(
    x: Seq<ExclusionView>,
    y: Seq<ExclusionView>,
    paths: Seq<Seq<u8>>,
    repository: Seq<u8>,
    e: ExclusionView,
)
    ensures
        cache::rows_without(x, paths, repository).contains(e) <==> x.contains(e) && !(e.repository
            == Some(repository) && paths.contains(e.path)),
        cache::rows_without(x + y, paths, repository) == cache::rows_without(x, paths, repository)
            + cache::rows_without(y, paths, repository),
        x.len() == 1 ==> cache::rows_without(x, paths, repository).len() <= 1,
    decreases x.len() + y.len(),
{
    reveal_with_fuel(cache::rows_without, 2);
    if x.len() > 0 {
        let init = x.drop_last();
        rows_that_stay(init, Seq::empty(), paths, repository, e);
        assert(x =~= init.push(x.last()));
        vstd::seq_lib::lemma_seq_contains_after_push(init, x.last(), e);
        vstd::seq_lib::lemma_seq_contains_after_push(
            cache::rows_without(init, paths, repository),
            x.last(),
            e,
        );
    }
    let a = cache::rows_without(x, paths, repository);
    if y.len() == 0 {
        assert(x + y =~= x);
        assert(a + cache::rows_without(y, paths, repository) =~= a);
    } else {
        rows_that_stay(x, y.drop_last(), paths, repository, e);
        assert((x + y).drop_last() =~= x + y.drop_last());
        assert(cache::rows_without(x + y, paths, repository) =~= a + cache::rows_without(
            y,
            paths,
            repository,
        ));
    }
}

/// The paths in the cache are those of its rows, and each is there once.
pub proof fn paths_of_the_rows(rows: Seq<ExclusionView>, p: Seq<u8>)
    ensures
        cache::distinct_paths(rows).contains(p) <==> exists|i: int|
            0 <= i < rows.len() && (#[trigger] rows[i]).path == p,
        cache::distinct_paths(rows).no_duplicates(),
{
    cache::distinct_paths_laws(rows);
    assert(cache::distinct_paths(rows).contains(p) <==> cache::has_row(rows, p));
}

/// Paths come out of the cache in the order in which they first came in.
pub proof fn paths_keep_their_order(rows: Seq<ExclusionView>, e: ExclusionView)
    ensures
        cache::distinct_paths(rows.push(e)) == (if exists|i: int|
            0 <= i < rows.len() && (#[trigger] rows[i]).path == e.path {
            cache::distinct_paths(rows)
        } else {
            cache::distinct_paths(rows).push(e.path)
        }),
{
    paths_of_the_rows(rows, e.path);
    assert(rows.push(e).drop_last() =~= rows);
}

/// A directory in the cache covers what is in it, and what is in a covered directory is covered.
pub proof fn cached_directory_covers(
    rows: Seq<ExclusionView>,
    directory: Seq<u8>,
    name: Seq<u8>,
)
    requires
        paths::is_plain(directory),
        paths::is_name(name),
    ensures
        cache::covers(rows, path::path_join(directory, name)) <==> cache::covers(rows, directory)
            || exists|i: int| 0 <= i < rows.len() && (#[trigger] rows[i]).path == directory,
{
    let whole = path::path_join(directory, name);
    let up = path::ancestors(directory);
    let all = path::ancestors(whole);
    paths::ancestors_of_a_name(directory, name);
    path::ancestors_start(directory);
    if cache::covers(rows, whole) {
        let k = choose|k: int| 0 < k < all.len() && cache::has_row(rows, #[trigger] all[k]);
        assert(all[k] == up[k - 1]);
        if k > 1 {
            assert(cache::has_row(rows, up[k - 1]));
        }
    }
    if cache::covers(rows, directory) {
        let k = choose|k: int| 0 < k < up.len() && cache::has_row(rows, #[trigger] up[k]);
        assert(all[k + 1] == up[k]);
    }
    if exists|i: int| 0 <= i < rows.len() && (#[trigger] rows[i]).path == directory {
        assert(cache::has_row(rows, directory));
        assert(all[1] == up[0]);
    }
}

/// A path is covered only by a row with the path of a directory above it.
pub proof fn covering_rows_are_above(rows: Seq<ExclusionView>, p: Seq<u8>)
    requires
        cache::covers(rows, p),
    ensures
        exists|i: int|
            0 <= i < rows.len() && path::path_starts_with(p, (#[trigger] rows[i]).path)
                && path::components(rows[i].path).len() < path::components(p).len(),
{
    let all = path::ancestors(p);
    let k = choose|k: int| 0 < k < all.len() && cache::has_row(rows, #[trigger] all[k]);
    let i = choose|i: int| 0 <= i < rows.len() && (#[trigger] rows[i]).path == all[k];
    path::ancestors_are_above(p, k);
    path::ancestors_start(p);
    let up = path::path_parent(p)->0;
    assert(path::ancestors(up) == all.skip(1));
    assert(all.skip(1)[k - 1] == all[k]);
    path::ancestors_are_above(up, k - 1);
    path::parent_drops_the_last_component(p);
}

/// A file of a schema that knows repositories gives its rows back as they are, and an older one its
/// paths without repositories. The moment of the last change is kept.
pub proof fn stored_rows_come_back(stored: Stored, i: int)
    requires
        0 <= i < stored.rows@.len(),
    ensures
        cache::opened(stored).rows.len() == stored.rows@.len(),
        cache::opened(stored).rows[i].path == stored.rows@[i]@.path,
        stored.version >= 3 ==> cache::opened(stored).rows[i].repository
            == stored.rows@[i]@.repository,
        stored.version < 3 ==> cache::opened(stored).rows[i].repository is None,
        cache::opened(stored).last_update == stored.last_update,
        cache::opened(stored).version == 3,
        cache::empty_cache().rows.len() == 0,
        cache::empty_cache().last_update == None::<Timestamp>,
{
}

/// Exclusions that are sorted and told apart are those that there were: each stands there with
/// its path and its repository, in some spelling, and no two are the same.
pub proof fn sorted_exclusions_are_all(s: Seq<ExclusionView>, t: Seq<ExclusionView>, e: ExclusionView)
    requires
        diff::is_sorted_set_of(s, t),
    ensures
        t.contains(e) ==> exists|i: int|
            0 <= i < s.len() && path::components((#[trigger] s[i]).path) == path::components(e.path)
                && diff::repository_key(s[i].repository) == diff::repository_key(e.repository),
        s.contains(e) ==> t.contains(e),
        forall|i: int, j: int|
            0 <= i < j < s.len() ==> path::components((#[trigger] s[i]).path) != path::components(
                (#[trigger] s[j]).path,
            ) || diff::repository_key(s[i].repository) != diff::repository_key(s[j].repository),
{
    let k = (path::components(e.path), diff::repository_key(e.repository));
    if t.contains(e) {
        let j = choose|j: int| 0 <= j < t.len() && t[j] == e;
        assert(<Exclusion as crate::order::Ordered>::key(t[j]) == k);
        assert(sorted_set::has_key::<Exclusion>(t, k));
        assert(sorted_set::has_key::<Exclusion>(s, k));
        let i = choose|i: int|
            0 <= i < s.len() && <Exclusion as crate::order::Ordered>::key(#[trigger] s[i]) == k;
        assert(path::components(s[i].path) == k.0);
    }
    assert forall|i: int, j: int|
        0 <= i < j < s.len() implies path::components((#[trigger] s[i]).path) != path::components(
        (#[trigger] s[j]).path,
    ) || diff::repository_key(s[i].repository) != diff::repository_key(s[j].repository) by {
        <Exclusion as crate::order::Ordered>::before_is_irreflexive(
            <Exclusion as crate::order::Ordered>::key(s[i]),
        );
    }
}

/// A difference has a path with some components if and only if the one list has such a path and the
/// other has none.
pub proof fn difference_by_components(
    d: Seq<Seq<u8>>,
    s: Seq<Seq<u8>>,
    t: Seq<Seq<u8>>,
    k: Seq<Seq<u8>>,
)
    requires
        diff::is_difference(d, s, t),
    ensures
        (exists|p: Seq<u8>| #[trigger] d.contains(p) && path::components(p) == k) <==> (exists|
            p: Seq<u8>,
        | #[trigger]
            s.contains(p) && path::components(p) == k) && !(exists|p: Seq<u8>| #[trigger]
            t.contains(p) && path::components(p) == k),
{
    exclusions::listed_by_components(d, k);
    exclusions::listed_by_components(s, k);
    exclusions::listed_by_components(t, k);
    assert(diff::lists(d, k) <==> diff::lists(s, k) && !diff::lists(t, k));
}

/// The paths that only one list has, in their order, are just those of its paths whose components
/// no path of the other has.
pub proof fn paths_of_one_list(s: Seq<Seq<u8>>, t: Seq<Seq<u8>>, k: Seq<Seq<u8>>)
    ensures
        (exists|p: Seq<u8>| #[trigger] diff::paths_only_in(s, t).contains(p) && path::components(p)
            == k) <==> (exists|p: Seq<u8>| #[trigger] s.contains(p) && path::components(p) == k)
            && !(exists|p: Seq<u8>| #[trigger] t.contains(p) && path::components(p) == k),
        forall|p: Seq<u8>| #[trigger] diff::paths_only_in(s, t).contains(p) ==> s.contains(p),
        sorted_set::increasing::<FilePath>(diff::paths_only_in(s, t)),
{
    let d = diff::paths_only_in(s, t);
    diff::paths_only_in_laws(s, t);
    diff::unlisted_contains(s, t);
    sorted_set::extended_laws::<FilePath>(Seq::empty(), diff::unlisted(s, t));
    assert(diff::lists(d, k) <==> diff::lists(s, k) && !diff::lists(t, k));
    exclusions::listed_by_components(d, k);
    exclusions::listed_by_components(s, k);
    exclusions::listed_by_components(t, k);
    assert forall|p: Seq<u8>| #[trigger] d.contains(p) implies s.contains(p) by {
        assert(diff::unlisted(s, t).contains(p));
    }
}

/// An exclusion that a scan found is kept if and only if its path is none of those that failed.
/// What is kept is in its order.
pub proof fn failed_exclusions_are_not_kept(
    x: Seq<ExclusionView>,
    y: Seq<ExclusionView>,
    failed: Seq<Seq<u8>>,
    e: ExclusionView,
)
    ensures
        run::without_failed(x, failed).contains(e) <==> x.contains(e) && !exists|i: int|
            0 <= i < failed.len() && path::components(#[trigger] failed[i]) == path::components(
                e.path,
            ),
        run::without_failed(x + y, failed) == run::without_failed(x, failed) + run::without_failed(
            y,
            failed,
        ),
        x.len() == 1 ==> run::without_failed(x, failed).len() <= 1,
    decreases x.len() + y.len(),
{
    reveal_with_fuel(run::without_failed, 2);
    exclusions::listed_by_components(failed, path::components(e.path));
    if x.len() > 0 {
        let init = x.drop_last();
        failed_exclusions_are_not_kept(init, Seq::empty(), failed, e);
        assert(x =~= init.push(x.last()));
        vstd::seq_lib::lemma_seq_contains_after_push(init, x.last(), e);
        vstd::seq_lib::lemma_seq_contains_after_push(
            run::without_failed(init, failed),
            x.last(),
            e,
        );
    }
    let a = run::without_failed(x, failed);
    if y.len() == 0 {
        assert(x + y =~= x);
        assert(a + run::without_failed(y, failed) =~= a);
    } else {
        failed_exclusions_are_not_kept(x, y.drop_last(), failed, e);
        assert((x + y).drop_last() =~= x + y.drop_last());
        assert(run::without_failed(x + y, failed) =~= a + run::without_failed(y, failed));
    }
}

/// The list has every path once, in the order of the cache, each with the separator behind it.
pub proof fn every_path_is_listed(
    x: Seq<Seq<u8>>,
    y: Seq<Seq<u8>>,
    p: Seq<u8>,
    separator: char,
)
    ensures
        list::listing(x + y, separator) == list::listing(x, separator) + list::listing(y, separator),
        list::listing(seq![p], separator) == text::lossy_text(p).push(separator),
        list::listing(Seq::empty(), separator) == Seq::<char>::empty(),
    decreases y.len(),
{
    reveal_with_fuel(list::listing, 2);
    assert(seq![p].drop_last() =~= Seq::<Seq<u8>>::empty());
    assert(list::listing(seq![p], separator) =~= text::lossy_text(p).push(separator));
    let a = list::listing(x, separator);
    if y.len() == 0 {
        assert(x + y =~= x);
        assert(a + list::listing(y, separator) =~= a);
    } else {
        every_path_is_listed(x, y.drop_last(), p, separator);
        assert((x + y).drop_last() =~= x + y.drop_last());
        assert(list::listing(x + y, separator) =~= a + list::listing(y, separator));
    }
}

/// Every path of an old cache is taken over, in its place, without a repository.
pub proof fn old_paths_are_taken_over(old_paths: Seq<Seq<u8>>, i: int)
    requires
        0 <= i < old_paths.len(),
    ensures
        import::orphans(old_paths).len() == old_paths.len(),
        import::orphans(old_paths)[i].path == old_paths[i],
        import::orphans(old_paths)[i].repository is None,
{
}

} // verus!
