//! The `reset` command: nothing is left out of the backups any more.
use vstd::prelude::*;

use crate::cache;
use crate::cache::{Cache, CacheView, Timestamp};
use crate::diff;
use crate::diff::{Diff, Exclusion, ExclusionView};
use crate::sorted_set;

verus! {

/// What is to be removed: every path in the cache.
pub fn find_changes(cache: &Cache) -> (changes: Diff)
    ensures
        changes.added@.len() == 0,
        diff::is_difference(
            changes.removed@,
            cache::distinct_paths(cache@.rows),
            Seq::empty(),
        ),
{
    let none: Vec<Exclusion> = Vec::new();
    assert(diff::exclusion_paths(sorted_set::item_views(none@)) =~= Seq::<Seq<u8>>::empty());
    let changes = cache.find_diff(&none);
    proof {
        let cached = cache::distinct_paths(cache@.rows);
        assert(diff::unlisted(Seq::empty(), cached).len() == 0);
    }
    changes
}

/// Empties the cache. A dry run changes nothing.
pub fn commit(cache: &mut Cache, dry_run: bool, now: Timestamp)
    ensures
        dry_run ==> final(cache)@ == old(cache)@,
        !dry_run ==> final(cache)@ == (CacheView {
            rows: Seq::empty(),
            last_update: Some(now),
            version: old(cache)@.version,
        }),
{
    if !dry_run {
        let none: Vec<Exclusion> = Vec::new();
        assert(sorted_set::item_views(none@) =~= Seq::<ExclusionView>::empty());
        cache.reset(none, now);
    }
}

} // verus!
