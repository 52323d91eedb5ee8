//! The `list` command.
use vstd::prelude::*;

use crate::cache;
use crate::cache::Cache;
use crate::sorted_set;
use crate::text;

verus! {

/// What stands behind each path: a zero character, or the end of a line.
pub fn separator(zero_separator: bool) -> (c: char)
    ensures
        c == (if zero_separator {
            '\0'
        } else {
            '\n'
        }),
{
    if zero_separator {
        '\0'
    } else {
        '\n'
    }
}

/// The paths, each with the separator behind it.
pub open spec fn listing(paths: Seq<Seq<u8>>, separator: char) -> Seq<char>
    decreases paths.len(),
{
    if paths.len() == 0 {
        Seq::empty()
    } else {
        listing(paths.drop_last(), separator) + text::lossy_text(paths.last()).push(separator)
    }
}

/// What the command prints: the paths in the cache, each with the separator behind it.
pub fn execute(cache: &Cache, separator: char) -> (output: String)
    ensures
        output@ == listing(cache::distinct_paths(cache@.rows), separator),
{
    let paths = cache.paths();
    let ghost all = sorted_set::item_views(paths@);
    let mut output = "".to_owned();
    let mut i: usize = 0;
    proof {
        reveal_strlit("");
        assert(output@ =~= listing(all.take(0), separator));
    }
    while i < paths.len()
        invariant
            i <= paths@.len(),
            all == sorted_set::item_views(paths@),
            output@ == listing(all.take(i as int), separator),
        decreases paths@.len() - i,
    {
        let ghost before = output@;
        assert(all[i as int] == paths@[i as int]@);
        assert(all.take(i + 1).drop_last() =~= all.take(i as int));
        output.append(paths[i].display().as_str());
        output.push(separator);
        assert(output@ =~= before + text::lossy_text(all[i as int]).push(separator));
        i = i + 1;
    }
    assert(all.take(i as int) =~= all);
    output
}

} // verus!
