//! Laws of the sizes that are measured.
use vstd::prelude::*;

use crate::commands::stats;
use crate::commands::stats::SizeScanView;
use crate::facts;
use crate::facts::Kind;
use crate::path;
use crate::path::FilePath;
use crate::sorted_set;

verus! {

/// The paths of a kind in two lists, one behind the other, are those in the first and then those
/// in the second; one path is of a kind just where that kind was found at it.
pub proof fn kinds_in_parts(
    found: Seq<(Seq<u8>, Kind)>,
    x: Seq<Seq<u8>>,
    y: Seq<Seq<u8>>,
    p: Seq<u8>,
    kind: Kind,
)
    ensures
        stats::paths_of_kind(found, x + y, kind) == stats::paths_of_kind(found, x, kind)
            + stats::paths_of_kind(found, y, kind),
        stats::paths_of_kind(found, seq![p], kind) == (if facts::kind_at(found, p) == kind {
            seq![p]
        } else {
            Seq::empty()
        }),
    decreases y.len(),
{
    let a = stats::paths_of_kind(found, x, kind);
    let none = Seq::<Seq<u8>>::empty();
    assert(seq![p].drop_last() =~= none);
    assert(stats::paths_of_kind(found, none, kind) =~= none);
    assert(stats::paths_of_kind(found, seq![p], kind) =~= (if facts::kind_at(found, p) == kind {
        seq![p]
    } else {
        none
    }));
    if y.len() == 0 {
        assert(x + y =~= x);
        assert(a + stats::paths_of_kind(found, y, kind) =~= a);
    } else {
        kinds_in_parts(found, x, y.drop_last(), p, kind);
        assert((x + y).drop_last() =~= x + y.drop_last());
        assert(stats::paths_of_kind(found, x + y, kind) =~= a + stats::paths_of_kind(
            found,
            y,
            kind,
        ));
    }
}

/// A path is among those of a kind if and only if it is one of the paths and that kind was found
/// at it, however it is spelled.
pub proof fn listed_paths_of_a_kind(
    found: Seq<(Seq<u8>, Kind)>,
    paths: Seq<Seq<u8>>,
    kind: Kind,
    p: Seq<u8>,
)
    ensures
        stats::paths_of_kind(found, paths, kind).contains(p) <==> paths.contains(p)
            && facts::kind_at(found, p) == kind,
    decreases paths.len(),
{
    if paths.len() > 0 {
        let init = paths.drop_last();
        listed_paths_of_a_kind(found, init, kind, p);
        assert(paths =~= init.push(paths.last()));
        vstd::seq_lib::lemma_seq_contains_after_push(init, paths.last(), p);
        vstd::seq_lib::lemma_seq_contains_after_push(
            stats::paths_of_kind(found, init, kind),
            paths.last(),
            p,
        );
    }
}

/// At the beginning the directories to read are the listed directories, and the files to measure
/// are the listed files, each once.
pub proof fn size_scan_begins(
    found: Seq<(Seq<u8>, Kind)>,
    paths: Seq<Seq<u8>>,
    p: Seq<u8>,
    k: Seq<Seq<u8>>,
)
    ensures
        stats::size_scan(found, paths).directories.contains(p) <==> paths.contains(p)
            && facts::kind_at(found, p) == Kind::Directory,
        sorted_set::has_key::<FilePath>(stats::size_scan(found, paths).files, k) <==> exists|
            f: Seq<u8>,
        | #[trigger]
            paths.contains(f) && facts::kind_at(found, f) == Kind::File && path::components(f) == k,
        sorted_set::increasing::<FilePath>(stats::size_scan(found, paths).files),
{
    let files = stats::paths_of_kind(found, paths, Kind::File);
    listed_paths_of_a_kind(found, paths, Kind::Directory, p);
    sorted_set::extended_laws::<FilePath>(Seq::empty(), files);
    if sorted_set::has_key::<FilePath>(files, k) {
        let i = choose|i: int| 0 <= i < files.len() && path::components(#[trigger] files[i]) == k;
        assert(files.contains(files[i]));
        listed_paths_of_a_kind(found, paths, Kind::File, files[i]);
    }
    if exists|f: Seq<u8>| #[trigger]
        paths.contains(f) && facts::kind_at(found, f) == Kind::File && path::components(f) == k {
        let f = choose|f: Seq<u8>| #[trigger]
            paths.contains(f) && facts::kind_at(found, f) == Kind::File && path::components(f) == k;
        listed_paths_of_a_kind(found, paths, Kind::File, f);
        let i = choose|i: int| 0 <= i < files.len() && files[i] == f;
        assert(path::components(files[i]) == k);
    }
}

/// The entries of a directory add its directories to those to read, behind them, and its files to
/// those to measure.
pub proof fn entries_are_added(
    scan: SizeScanView,
    entries: Seq<(Seq<u8>, Kind)>,
    p: Seq<u8>,
    k: Seq<Seq<u8>>,
)
    requires
        sorted_set::increasing::<FilePath>(scan.files),
    ensures
        scan.directories.is_prefix_of(stats::with_entries(scan, entries).directories),
        stats::with_entries(scan, entries).directories.contains(p) <==> scan.directories.contains(p)
            || entries.contains((p, Kind::Directory)),
        sorted_set::has_key::<FilePath>(stats::with_entries(scan, entries).files, k)
            <==> sorted_set::has_key::<FilePath>(scan.files, k) || exists|f: Seq<u8>| #[trigger]
            entries.contains((f, Kind::File)) && path::components(f) == k,
{
    let files = stats::entries_of_kind(entries, Kind::File);
    let directories = stats::entries_of_kind(entries, Kind::Directory);
    let after = stats::with_entries(scan, entries);
    stats::entries_of_kind_contains(entries, Kind::Directory, p);
    vstd::seq_lib::lemma_seq_concat_contains_all_elements(scan.directories, directories, p);
    assert(scan.directories =~= after.directories.take(scan.directories.len() as int));
    sorted_set::extended_laws::<FilePath>(scan.files, files);
    if sorted_set::has_key::<FilePath>(files, k) {
        let i = choose|i: int| 0 <= i < files.len() && path::components(#[trigger] files[i]) == k;
        assert(files.contains(files[i]));
        stats::entries_of_kind_contains(entries, Kind::File, files[i]);
        assert(entries.contains((files[i], Kind::File)));
    }
    if exists|f: Seq<u8>| #[trigger]
        entries.contains((f, Kind::File)) && path::components(f) == k {
        let f = choose|f: Seq<u8>| #[trigger]
            entries.contains((f, Kind::File)) && path::components(f) == k;
        stats::entries_of_kind_contains(entries, Kind::File, f);
        let i = choose|i: int| 0 <= i < files.len() && files[i] == f;
        assert(path::components(files[i]) == k);
    }
}

/// Each of the directories is in the one before, and the first one is a listed directory.
pub open spec fn leads_down(
    entries: spec_fn(Seq<u8>) -> Seq<(Seq<u8>, Kind)>,
    found: Seq<(Seq<u8>, Kind)>,
    paths: Seq<Seq<u8>>,
    way: Seq<Seq<u8>>,
) -> bool {
    &&& way.len() > 0
    &&& paths.contains(way[0])
    &&& facts::kind_at(found, way[0]) == Kind::Directory
    &&& forall|i: int|
        0 < i < way.len() ==> entries(way[i - 1]).contains((#[trigger] way[i], Kind::Directory))
}

/// The file is one of the listed files, or it is in a listed directory or somewhere below one.
pub open spec fn is_listed_or_below(
    entries: spec_fn(Seq<u8>) -> Seq<(Seq<u8>, Kind)>,
    found: Seq<(Seq<u8>, Kind)>,
    paths: Seq<Seq<u8>>,
    file: Seq<u8>,
) -> bool {
    ||| paths.contains(file) && facts::kind_at(found, file) == Kind::File
    ||| exists|way: Seq<Seq<u8>>| #[trigger]
        leads_down(entries, found, paths, way) && entries(way.last()).contains((file, Kind::File))
}

/// When no directory is left to read, the files to measure are just the listed files and all files
/// in the listed directories and below them.
pub proof fn every_file_is_measured(
    entries: spec_fn(Seq<u8>) -> Seq<(Seq<u8>, Kind)>,
    found: Seq<(Seq<u8>, Kind)>,
    paths: Seq<Seq<u8>>,
    n: nat,
    k: Seq<Seq<u8>>,
)
    requires
        stats::walked(entries, stats::size_scan(found, paths), n).directories.len() == 0,
    ensures
        sorted_set::has_key::<FilePath>(
            stats::walked(entries, stats::size_scan(found, paths), n).files,
            k,
        ) <==> exists|f: Seq<u8>| #[trigger]
            is_listed_or_below(entries, found, paths, f) && path::components(f) == k,
{
    let tops = stats::paths_of_kind(found, paths, Kind::Directory);
    let listed = stats::paths_of_kind(found, paths, Kind::File);
    let files = stats::walked(entries, stats::size_scan(found, paths), n).files;
    stats::walk_finds_every_file(entries, found, paths, n, k);
    if sorted_set::has_key::<FilePath>(files, k) {
        if exists|f: Seq<u8>| #[trigger] listed.contains(f) && path::components(f) == k {
            let f = choose|f: Seq<u8>| #[trigger] listed.contains(f) && path::components(f) == k;
            listed_paths_of_a_kind(found, paths, Kind::File, f);
            assert(is_listed_or_below(entries, found, paths, f));
        } else {
            let f = choose|f: Seq<u8>| #[trigger]
                stats::is_file_in_tree(entries, tops, f) && path::components(f) == k;
            let d = choose|d: Seq<u8>| #[trigger]
                stats::is_in_tree(entries, tops, d) && entries(d).contains((f, Kind::File));
            let way = choose|way: Seq<Seq<u8>>| #[trigger]
                stats::is_way_down(entries, tops, way) && way.last() == d;
            listed_paths_of_a_kind(found, paths, Kind::Directory, way[0]);
            assert(leads_down(entries, found, paths, way));
            assert(is_listed_or_below(entries, found, paths, f));
        }
    }
    if exists|f: Seq<u8>| #[trigger]
        is_listed_or_below(entries, found, paths, f) && path::components(f) == k {
        let f = choose|f: Seq<u8>| #[trigger]
            is_listed_or_below(entries, found, paths, f) && path::components(f) == k;
        listed_paths_of_a_kind(found, paths, Kind::File, f);
        if !listed.contains(f) {
            let way = choose|way: Seq<Seq<u8>>| #[trigger]
                leads_down(entries, found, paths, way) && entries(way.last()).contains(
                    (f, Kind::File),
                );
            listed_paths_of_a_kind(found, paths, Kind::Directory, way[0]);
            assert(stats::is_way_down(entries, tops, way));
            assert(stats::is_in_tree(entries, tops, way.last()));
            assert(stats::is_file_in_tree(entries, tops, f));
        }
    }
}

/// The total of two lists of sizes is the sum of their totals; a size counts as it is, and one that
/// is not known counts nothing.
pub proof fn sizes_add_up(x: Seq<Option<u64>>, y: Seq<Option<u64>>, size: u64)
    ensures
        stats::sum(x + y) == stats::sum(x) + stats::sum(y),
        stats::sum(seq![Some(size)]) == size,
        stats::sum(seq![None::<u64>]) == 0,
        stats::sum(Seq::<Option<u64>>::empty()) == 0,
    decreases y.len(),
{
    reveal_with_fuel(stats::sum, 2);
    assert(seq![Some(size)].drop_last() =~= Seq::<Option<u64>>::empty());
    assert(seq![None::<u64>].drop_last() =~= Seq::<Option<u64>>::empty());
    if y.len() == 0 {
        assert(x + y =~= x);
    } else {
        sizes_add_up(x, y.drop_last(), size);
        assert((x + y).drop_last() =~= x + y.drop_last());
    }
}

} // verus!
