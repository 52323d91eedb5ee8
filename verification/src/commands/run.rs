//! The `run` command: a scan of everything.
use vstd::prelude::*;

use crate::cache;
use crate::cache::{Cache, CacheView, Timestamp};
use crate::commands;
use crate::commands::rescan;
use crate::diff;
use crate::diff::{Exclusion, ExclusionView, PathSet};
use crate::order::Ordered;
use crate::path;
use crate::path::FilePath;
use crate::report;
use crate::report::{Level, Message, MessageView};
use crate::sorted_set;
use crate::text;
use crate::whitelist::Whitelist;

verus! {

/// A scan that goes on: the repositories that were found, and the exclusions that they ask for.
#[derive(Debug)]
pub struct Scan {
    repositories: PathSet,
    exclusions: Vec<Exclusion>,
}

/// A scan that goes on.
pub struct ScanView {
    pub repositories: Seq<Seq<u8>>,
    pub exclusions: Seq<ExclusionView>,
}

impl View for Scan {
    type V = ScanView;

    closed spec fn view(&self) -> ScanView {
        ScanView {
            repositories: self.repositories@,
            exclusions: sorted_set::item_views(self.exclusions@),
        }
    }
}

/// What a scan found.
#[derive(Debug)]
pub struct Found {
    pub repositories: PathSet,
    /// The exclusions in their order, each once.
    pub exclusions: Vec<Exclusion>,
    pub messages: Vec<Message>,
}

/// What is said of the repositories.
pub open spec fn found_messages(repositories: Seq<Seq<u8>>, details: bool) -> Seq<MessageView> {
    seq![
        report::message(
            Level::Info,
            "Found "@ + text::decimal(repositories.len()) + " "@ + text::pluralized(
                "repository"@,
                repositories.len(),
            ),
        ),
    ] + (if details {
        commands::path_messages("• "@, repositories, Seq::empty())
    } else {
        Seq::empty()
    })
}

impl Scan {
    /// Begins a scan of some directories. Where there are none, there is nothing to do.
    pub fn begin(directories: &PathSet) -> (scan: Option<Scan>)
        ensures
            match scan {
                Some(s) => directories@.len() > 0 && s@ == (ScanView {
                    repositories: Seq::empty(),
                    exclusions: Seq::empty(),
                }),
                None => directories@.len() == 0,
            },
    {
        if directories.is_empty() {
            None
        } else {
            let exclusions: Vec<Exclusion> = Vec::new();
            assert(sorted_set::item_views(exclusions@) =~= Seq::<ExclusionView>::empty());
            Some(Scan { repositories: PathSet::new(), exclusions })
        }
    }

    /// Notes a repository. Returns whether it is new, and so to be scanned.
    pub fn visit(&mut self, repository: &FilePath) -> (is_new: bool)
        ensures
            final(self)@ == (ScanView {
                repositories: sorted_set::inserted::<FilePath>(
                    old(self)@.repositories,
                    repository@,
                ),
                exclusions: old(self)@.exclusions,
            }),
            is_new == !diff::lists(old(self)@.repositories, path::components(repository@)),
    {
        self.repositories.insert(repository.clone())
    }

    /// Adds the exclusions that a repository asks for.
    pub fn collect(
        &mut self,
        repository: &FilePath,
        ignored: &Vec<FilePath>,
        symlinks: &Vec<FilePath>,
        whitelist: &Whitelist,
    )
        ensures
            final(self)@ == (ScanView {
                repositories: old(self)@.repositories,
                exclusions: old(self)@.exclusions + commands::exclusions_for(
                    repository@,
                    sorted_set::item_views(ignored@),
                    sorted_set::item_views(symlinks@),
                    whitelist@,
                ),
            }),
    {
        commands::find_paths_to_exclude_from_backup(
            repository,
            ignored,
            symlinks,
            whitelist,
            &mut self.exclusions,
        );
    }

    /// Ends the scan.
    pub fn finish(self, details: bool) -> (found: Found)
        ensures
            found.repositories@ == self@.repositories,
            diff::is_sorted_set_of(
                sorted_set::item_views(found.exclusions@),
                self@.exclusions,
            ),
            diff::sorted_by_path(sorted_set::item_views(found.exclusions@)),
            sorted_set::item_views(found.messages@) == found_messages(
                self@.repositories,
                details,
            ),
    {
        let exclusions = diff::sort_and_dedup(self.exclusions);
        let mut messages: Vec<Message> = Vec::new();
        let count: usize = self.repositories.len();
        let line = "Found ".to_owned().concat(text::number(count as u64).as_str()).concat(
            " ",
        ).concat(text::plural("repository", count).as_str());
        report::tell(&mut messages, Level::Info, line);
        if details {
            commands::tell_paths(
                &mut messages,
                "• ",
                self.repositories.items(),
                &PathSet::new(),
            );
        }
        assert(sorted_set::item_views(messages@) =~= found_messages(
            self.repositories@,
            details,
        ));
        Found { repositories: self.repositories, exclusions, messages }
    }
}

/// A repository that was noted is not scanned again.
pub proof fn repository_is_scanned_once(repositories: Seq<Seq<u8>>, repository: Seq<u8>)
    requires
        sorted_set::increasing::<FilePath>(repositories),
    ensures
        diff::lists(
            sorted_set::inserted::<FilePath>(repositories, repository),
            path::components(repository),
        ),
        sorted_set::increasing::<FilePath>(
            sorted_set::inserted::<FilePath>(repositories, repository),
        ),
{
    sorted_set::inserted_laws::<FilePath>(repositories, repository);
}

/// The exclusions without those whose path failed.
pub open spec fn without_failed(
    exclusions: Seq<ExclusionView>,
    failed: Seq<Seq<u8>>,
) -> Seq<ExclusionView>
    decreases exclusions.len(),
{
    if exclusions.len() == 0 {
        exclusions
    } else {
        let init = without_failed(exclusions.drop_last(), failed);
        if diff::lists(failed, path::components(exclusions.last().path)) {
            init
        } else {
            init.push(exclusions.last())
        }
    }
}

/// Keeps what a scan found in the cache, but for the paths that could not be added. A dry run
/// changes nothing.
pub fn commit(
    cache: &mut Cache,
    exclusions: &Vec<Exclusion>,
    failed: &PathSet,
    dry_run: bool,
    now: Timestamp,
)
    ensures
        dry_run ==> final(cache)@ == old(cache)@,
        !dry_run ==> final(cache)@ == (CacheView {
            rows: without_failed(sorted_set::item_views(exclusions@), failed@),
            last_update: Some(now),
            version: old(cache)@.version,
        }),
{
    if dry_run {
        return ;
    }
    let ghost all = sorted_set::item_views(exclusions@);
    let mut kept: Vec<Exclusion> = Vec::new();
    let mut i: usize = 0;
    assert(all.take(0) =~= Seq::<ExclusionView>::empty());
    assert(sorted_set::item_views(kept@) =~= Seq::<ExclusionView>::empty());
    while i < exclusions.len()
        invariant
            i <= exclusions@.len(),
            all == sorted_set::item_views(exclusions@),
            sorted_set::item_views(kept@) == without_failed(all.take(i as int), failed@),
        decreases exclusions@.len() - i,
    {
        let ghost before = sorted_set::item_views(kept@);
        let exclusion = &exclusions[i];
        assert(all[i as int] == exclusion@);
        assert(all.take(i + 1).drop_last() =~= all.take(i as int));
        if !failed.contains(exclusion.path()) {
            kept.push(exclusion.clone());
            assert(sorted_set::item_views(kept@) =~= before.push(exclusion@));
        }
        i = i + 1;
    }
    assert(all.take(i as int) =~= all);
    cache.reset(kept, now);
}

proof fn rows_without_failed(
    exclusions: Seq<ExclusionView>,
    failed: Seq<Seq<u8>>,
    k: Seq<Seq<u8>>,
)
    ensures
        diff::lists(diff::exclusion_paths(without_failed(exclusions, failed)), k)
            <==> diff::lists(diff::exclusion_paths(exclusions), k) && !diff::lists(failed, k),
    decreases exclusions.len(),
{
    let paths = diff::exclusion_paths(exclusions);
    let all = diff::exclusion_paths(without_failed(exclusions, failed));
    if exclusions.len() > 0 {
        let init = exclusions.drop_last();
        let init_paths = diff::exclusion_paths(init);
        let some = diff::exclusion_paths(without_failed(init, failed));
        rows_without_failed(init, failed, k);
        let last = exclusions.last().path;
        assert(paths =~= init_paths.push(last));
        diff::lists_after_push(init_paths, last, k);
        if !diff::lists(failed, path::components(last)) {
            assert(all =~= some.push(last));
            diff::lists_after_push(some, last, k);
        }
    }
}

proof fn without_failed_contains(
    exclusions: Seq<ExclusionView>,
    failed: Seq<Seq<u8>>,
    row: ExclusionView,
)
    requires
        without_failed(exclusions, failed).contains(row),
    ensures
        exclusions.contains(row),
    decreases exclusions.len(),
{
    let init = exclusions.drop_last();
    let some = without_failed(init, failed);
    assert(exclusions =~= init.push(exclusions.last()));
    vstd::seq_lib::lemma_seq_contains_after_push(init, exclusions.last(), row);
    vstd::seq_lib::lemma_seq_contains_after_push(some, exclusions.last(), row);
    if some.contains(row) {
        without_failed_contains(init, failed, row);
    }
}

/// After a scan that was kept, no path that a repository created is spelled in two ways.
pub proof fn scan_spells_once(
    collected: Seq<ExclusionView>,
    found: Seq<ExclusionView>,
    failed: Seq<Seq<u8>>,
    repository: Seq<u8>,
)
    requires
        diff::is_sorted_set_of(found, collected),
    ensures
        rescan::spelled_once(cache::created_by(without_failed(found, failed), repository)),
{
    let rows = without_failed(found, failed);
    let paths = cache::created_by(rows, repository);
    assert forall|i: int, j: int|
        0 <= i < paths.len() && 0 <= j < paths.len() && path::components(#[trigger] paths[i])
            == path::components(#[trigger] paths[j]) implies paths[i] == paths[j] by {
        let a = ExclusionView { path: paths[i], repository: Some(repository) };
        let b = ExclusionView { path: paths[j], repository: Some(repository) };
        assert(paths.contains(paths[i]) && paths.contains(paths[j]));
        cache::created_by_has_row(rows, repository, paths[i]);
        cache::created_by_has_row(rows, repository, paths[j]);
        without_failed_contains(found, failed, a);
        without_failed_contains(found, failed, b);
        let m = choose|m: int| 0 <= m < found.len() && found[m] == a;
        let n = choose|n: int| 0 <= n < found.len() && found[n] == b;
        <Exclusion as Ordered>::before_is_irreflexive(<Exclusion as Ordered>::key(a));
        assert(<Exclusion as Ordered>::key(found[m]) == <Exclusion as Ordered>::key(found[n]));
    }
}

/// A path is in the cache after a scan that was kept if and only if the scan found it and it could
/// be added.
pub proof fn scan_result(
    collected: Seq<ExclusionView>,
    found: Seq<ExclusionView>,
    failed: Seq<Seq<u8>>,
    k: Seq<Seq<u8>>,
)
    requires
        diff::is_sorted_set_of(found, collected),
    ensures
        diff::lists(cache::distinct_paths(without_failed(found, failed)), k) <==> diff::lists(
            diff::exclusion_paths(collected),
            k,
        ) && !diff::lists(failed, k),
{
    diff::sorted_set_keeps_paths(found, collected);
    rows_without_failed(found, failed, k);
    cached_paths_list_rows(without_failed(found, failed), k);
}

/// After a scan that was kept, another scan that finds the same has just the paths to add that
/// could not be added, and no path to remove.
pub proof fn scan_settles(
    exclusions: Seq<ExclusionView>,
    failed: Seq<Seq<u8>>,
    k: Seq<Seq<u8>>,
)
    ensures
        ({
            let now = diff::exclusion_paths(exclusions);
            let cached = cache::distinct_paths(without_failed(exclusions, failed));
            &&& diff::lists(diff::paths_only_in(now, cached), k) <==> diff::lists(now, k)
                && diff::lists(failed, k)
            &&& !diff::lists(diff::paths_only_in(cached, now), k)
        }),
{
    let now = diff::exclusion_paths(exclusions);
    let rows = without_failed(exclusions, failed);
    let cached = cache::distinct_paths(rows);
    rows_without_failed(exclusions, failed, k);
    diff::paths_only_in_laws(now, cached);
    diff::paths_only_in_laws(cached, now);
    cached_paths_list_rows(rows, k);
    assert(diff::lists(diff::paths_only_in(now, cached), k) <==> diff::lists(now, k)
        && !diff::lists(cached, k));
    assert(diff::lists(diff::paths_only_in(cached, now), k) <==> diff::lists(cached, k)
        && !diff::lists(now, k));
}

/// The paths in a cache are those of its rows.
pub proof fn cached_paths_list_rows(rows: Seq<ExclusionView>, k: Seq<Seq<u8>>)
    ensures
        diff::lists(cache::distinct_paths(rows), k) <==> diff::lists(
            diff::exclusion_paths(rows),
            k,
        ),
{
    let cached = cache::distinct_paths(rows);
    let paths = diff::exclusion_paths(rows);
    cache::distinct_paths_laws(rows);
    if diff::lists(cached, k) {
        let i = choose|i: int| 0 <= i < cached.len() && path::components(#[trigger] cached[i])
            == k;
        assert(cached.contains(cached[i]));
        assert(cache::has_row(rows, cached[i]));
        let j = choose|j: int| 0 <= j < rows.len() && (#[trigger] rows[j]).path == cached[i];
        assert(path::components(paths[j]) == k);
    }
    if diff::lists(paths, k) {
        let j = choose|j: int| 0 <= j < paths.len() && path::components(#[trigger] paths[j]) == k;
        assert(rows[j].path == paths[j]);
        assert(cache::has_row(rows, paths[j]));
        assert(cached.contains(paths[j]));
        let i = choose|i: int| 0 <= i < cached.len() && cached[i] == paths[j];
        assert(path::components(cached[i]) == k);
    }
}

} // verus!
