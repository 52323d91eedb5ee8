//! The `stats` command.
use std::collections::VecDeque;

use vstd::prelude::*;

use crate::diff::PathSet;
use crate::facts;
use crate::facts::{Findings, Kind};
use crate::path;
use crate::path::FilePath;
use crate::sorted_set;
use crate::text;

verus! {

/// A figure to print.
#[derive(Clone, Copy, PartialEq, Eq, Debug, Structural)]
pub enum Stats {
    /// The total size of all files that are left out of the backups.
    Size {
        /// Print a size that is easy to read.
        humanize: bool,
    },
    /// The date and time of the last change of the cache.
    LastUpdate,
}

/// What `bytesize` writes for a number of bytes.
pub uninterp spec fn human_size(bytes: u64) -> Seq<char>;

/// `bytesize::ByteSize::b`, written by its `Display`: the size with a unit, which depends on the
/// number of bytes alone. Below a kibibyte the unit is the byte.
#[verifier::external_body]
fn humanized(bytes: u64) -> (text: String)
    ensures
        text@ == human_size(bytes),
        bytes < 1024 ==> text@ == text::decimal(bytes as nat) + " B"@,
{
    format!("{}", bytesize::ByteSize::b(bytes))
}

/// A walk that gathers the files to measure.
#[derive(Debug)]
pub struct SizeScan {
    files: PathSet,
    directories: VecDeque<FilePath>,
}

/// A walk that gathers files.
pub struct SizeScanView {
    pub files: Seq<Seq<u8>>,
    /// The directories that are still to be read.
    pub directories: Seq<Seq<u8>>,
}

impl View for SizeScan {
    type V = SizeScanView;

    closed spec fn view(&self) -> SizeScanView {
        SizeScanView {
            files: self.files@,
            directories: sorted_set::item_views(self.directories@),
        }
    }
}

/// An entry of a directory. Its kind is its own: symbolic links are not followed.
#[derive(Debug)]
pub struct Entry {
    pub path: FilePath,
    pub kind: Kind,
}

impl View for Entry {
    type V = (Seq<u8>, Kind);

    open spec fn view(&self) -> (Seq<u8>, Kind) {
        (self.path@, self.kind)
    }
}

/// The paths at which something of this kind stands.
pub open spec fn paths_of_kind(
    found: Seq<(Seq<u8>, Kind)>,
    paths: Seq<Seq<u8>>,
    kind: Kind,
) -> Seq<Seq<u8>>
    decreases paths.len(),
{
    if paths.len() == 0 {
        paths
    } else {
        let init = paths_of_kind(found, paths.drop_last(), kind);
        if facts::kind_at(found, paths.last()) == kind {
            init.push(paths.last())
        } else {
            init
        }
    }
}

/// The entries of this kind.
pub open spec fn entries_of_kind(entries: Seq<(Seq<u8>, Kind)>, kind: Kind) -> Seq<Seq<u8>>
    decreases entries.len(),
{
    if entries.len() == 0 {
        Seq::empty()
    } else {
        let init = entries_of_kind(entries.drop_last(), kind);
        if entries.last().1 == kind {
            init.push(entries.last().0)
        } else {
            init
        }
    }
}

/// The walk at its beginning.
pub open spec fn size_scan(found: Seq<(Seq<u8>, Kind)>, paths: Seq<Seq<u8>>) -> SizeScanView {
    SizeScanView {
        files: sorted_set::extended::<FilePath>(
            Seq::empty(),
            paths_of_kind(found, paths, Kind::File),
        ),
        directories: paths_of_kind(found, paths, Kind::Directory),
    }
}

/// The walk when the entries of a directory were read.
pub open spec fn with_entries(scan: SizeScanView, entries: Seq<(Seq<u8>, Kind)>) -> SizeScanView {
    SizeScanView {
        files: sorted_set::extended::<FilePath>(
            scan.files,
            entries_of_kind(entries, Kind::File),
        ),
        directories: scan.directories + entries_of_kind(entries, Kind::Directory),
    }
}

/// The sum of the sizes, as far as they are known.
pub open spec fn sum(sizes: Seq<Option<u64>>) -> int
    decreases sizes.len(),
{
    if sizes.len() == 0 {
        0
    } else {
        sum(sizes.drop_last()) + (match sizes.last() {
            Some(size) => size as int,
            None => 0,
        })
    }
}

impl SizeScan {
    /// Begins with some paths.
    pub fn new(paths: &Vec<FilePath>, found: &Findings) -> (scan: SizeScan)
        ensures
            scan@ == size_scan(found@, sorted_set::item_views(paths@)),
    {
        let ghost all = sorted_set::item_views(paths@);
        let mut files = PathSet::new();
        let mut directories: VecDeque<FilePath> = VecDeque::new();
        let mut i: usize = 0;
        assert(all.take(0) =~= Seq::<Seq<u8>>::empty());
        assert(sorted_set::item_views(directories@) =~= Seq::<Seq<u8>>::empty());
        while i < paths.len()
            invariant
                i <= paths@.len(),
                all == sorted_set::item_views(paths@),
                files@ == size_scan(found@, all.take(i as int)).files,
                sorted_set::item_views(directories@) == size_scan(
                    found@,
                    all.take(i as int),
                ).directories,
            decreases paths@.len() - i,
        {
            let path = &paths[i];
            assert(all[i as int] == path@);
            assert(all.take(i + 1).drop_last() =~= all.take(i as int));
            let ghost some = paths_of_kind(found@, all.take(i as int), Kind::File);
            let ghost before = sorted_set::item_views(directories@);
            match found.kind(path) {
                Kind::File => {
                    assert(some.push(path@).drop_last() =~= some);
                    files.insert(path.clone());
                },
                Kind::Directory => {
                    directories.push_back(path.clone());
                    assert(sorted_set::item_views(directories@) =~= before.push(path@));
                },
                _ => {},
            }
            i = i + 1;
        }
        assert(all.take(i as int) =~= all);
        SizeScan { files, directories }
    }

    /// The next directory to read.
    pub fn next_directory(&mut self) -> (directory: Option<FilePath>)
        ensures
            match directory {
                Some(d) => old(self)@.directories.len() > 0 && d@ == old(self)@.directories[0]
                    && final(self)@ == (SizeScanView {
                    files: old(self)@.files,
                    directories: old(self)@.directories.drop_first(),
                }),
                None => old(self)@.directories.len() == 0 && final(self)@ == old(self)@,
            },
    {
        let ghost before = sorted_set::item_views(self.directories@);
        let next = self.directories.pop_front();
        proof {
            if next is Some {
                assert(sorted_set::item_views(self.directories@) =~= before.drop_first());
            } else {
                assert(sorted_set::item_views(self.directories@) =~= before);
            }
        }
        next
    }

    /// Takes the entries of a directory.
    pub fn add_entries(&mut self, entries: &Vec<Entry>)
        ensures
            final(self)@ == with_entries(old(self)@, sorted_set::item_views(entries@)),
    {
        let ghost start = self@;
        let ghost all = sorted_set::item_views(entries@);
        let mut i: usize = 0;
        assert(all.take(0) =~= Seq::<(Seq<u8>, Kind)>::empty());
        assert(start.directories + entries_of_kind(all.take(0), Kind::Directory)
            =~= start.directories);
        while i < entries.len()
            invariant
                i <= entries@.len(),
                all == sorted_set::item_views(entries@),
                self@ == with_entries(start, all.take(i as int)),
            decreases entries@.len() - i,
        {
            let entry = &entries[i];
            assert(all[i as int] == entry@);
            assert(all.take(i + 1).drop_last() =~= all.take(i as int));
            let ghost some = entries_of_kind(all.take(i as int), Kind::File);
            let ghost more = entries_of_kind(all.take(i as int), Kind::Directory);
            let ghost before = sorted_set::item_views(self.directories@);
            match entry.kind {
                Kind::File => {
                    assert(some.push(entry.path@).drop_last() =~= some);
                    self.files.insert(entry.path.clone());
                },
                Kind::Directory => {
                    self.directories.push_back(entry.path.clone());
                    assert(sorted_set::item_views(self.directories@) =~= before.push(
                        entry.path@,
                    ));
                    assert(before.push(entry.path@) =~= start.directories + more.push(
                        entry.path@,
                    ));
                },
                _ => {},
            }
            i = i + 1;
        }
        assert(all.take(i as int) =~= all);
    }

    /// The files to measure.
    pub fn files(&self) -> (files: &PathSet)
        ensures
            files@ == self@.files,
    {
        &self.files
    }
}

/// The walk when this many directories were read, or all of them. `entries` says what is in a
/// directory.
pub open spec fn walked(
    entries: spec_fn(Seq<u8>) -> Seq<(Seq<u8>, Kind)>,
    scan: SizeScanView,
    n: nat,
) -> SizeScanView
    decreases n,
{
    if n == 0 {
        scan
    } else {
        let s = walked(entries, scan, (n - 1) as nat);
        if s.directories.len() == 0 {
            s
        } else {
            with_entries(
                SizeScanView { files: s.files, directories: s.directories.drop_first() },
                entries(s.directories[0]),
            )
        }
    }
}

/// Each of the directories is in the one before, and the first one is one of these.
pub open spec fn is_way_down(
    entries: spec_fn(Seq<u8>) -> Seq<(Seq<u8>, Kind)>,
    tops: Seq<Seq<u8>>,
    way: Seq<Seq<u8>>,
) -> bool {
    &&& way.len() > 0
    &&& tops.contains(way[0])
    &&& forall|i: int|
        0 < i < way.len() ==> entries(way[i - 1]).contains((#[trigger] way[i], Kind::Directory))
}

/// The directory is one of these, or is below one of them.
pub open spec fn is_in_tree(
    entries: spec_fn(Seq<u8>) -> Seq<(Seq<u8>, Kind)>,
    tops: Seq<Seq<u8>>,
    directory: Seq<u8>,
) -> bool {
    exists|way: Seq<Seq<u8>>| #[trigger]
        is_way_down(entries, tops, way) && way.last() == directory
}

/// The file is in a directory that is one of these or below one of them.
pub open spec fn is_file_in_tree(
    entries: spec_fn(Seq<u8>) -> Seq<(Seq<u8>, Kind)>,
    tops: Seq<Seq<u8>>,
    file: Seq<u8>,
) -> bool {
    exists|directory: Seq<u8>| #[trigger]
        is_in_tree(entries, tops, directory) && entries(directory).contains((file, Kind::File))
}

/// The directories that were read in a walk.
spec fn read_in(
    entries: spec_fn(Seq<u8>) -> Seq<(Seq<u8>, Kind)>,
    scan: SizeScanView,
    n: nat,
) -> Seq<Seq<u8>>
    decreases n,
{
    if n == 0 {
        Seq::empty()
    } else {
        let s = walked(entries, scan, (n - 1) as nat);
        let init = read_in(entries, scan, (n - 1) as nat);
        if s.directories.len() == 0 {
            init
        } else {
            init.push(s.directories[0])
        }
    }
}

/// The file is listed, or is in one of the directories that were read.
spec fn is_seen(
    entries: spec_fn(Seq<u8>) -> Seq<(Seq<u8>, Kind)>,
    listed: Seq<Seq<u8>>,
    read: Seq<Seq<u8>>,
    file: Seq<u8>,
) -> bool {
    listed.contains(file) || exists|directory: Seq<u8>| #[trigger]
        read.contains(directory) && entries(directory).contains((file, Kind::File))
}

spec fn is_walk(
    entries: spec_fn(Seq<u8>) -> Seq<(Seq<u8>, Kind)>,
    listed: Seq<Seq<u8>>,
    tops: Seq<Seq<u8>>,
    s: SizeScanView,
    read: Seq<Seq<u8>>,
) -> bool {
    &&& sorted_set::increasing::<FilePath>(s.files)
    &&& forall|d: Seq<u8>| #[trigger] s.directories.contains(d) ==> is_in_tree(entries, tops, d)
    &&& forall|d: Seq<u8>| #[trigger] read.contains(d) ==> is_in_tree(entries, tops, d)
    &&& forall|d: Seq<u8>| #[trigger]
        tops.contains(d) ==> s.directories.contains(d) || read.contains(d)
    &&& forall|up: Seq<u8>, d: Seq<u8>| #[trigger]
        read.contains(up) && #[trigger] entries(up).contains((d, Kind::Directory))
            ==> s.directories.contains(d) || read.contains(d)
    &&& forall|k: Seq<Seq<u8>>| #[trigger]
        sorted_set::has_key::<FilePath>(s.files, k) <==> exists|f: Seq<u8>| #[trigger]
            is_seen(entries, listed, read, f) && path::components(f) == k
}

/// The entries of a kind are those that have it.
pub proof fn entries_of_kind_contains(
    entries: Seq<(Seq<u8>, Kind)>,
    kind: Kind,
    p: Seq<u8>,
)
    ensures
        entries_of_kind(entries, kind).contains(p) <==> entries.contains((p, kind)),
    decreases entries.len(),
{
    if entries.len() > 0 {
        let init = entries.drop_last();
        entries_of_kind_contains(init, kind, p);
        assert(entries =~= init.push(entries.last()));
        vstd::seq_lib::lemma_seq_contains_after_push(init, entries.last(), (p, kind));
        vstd::seq_lib::lemma_seq_contains_after_push(
            entries_of_kind(init, kind),
            entries.last().0,
            p,
        );
    }
}

proof fn has_key_by_contains(s: Seq<Seq<u8>>, k: Seq<Seq<u8>>)
    ensures
        sorted_set::has_key::<FilePath>(s, k) <==> exists|f: Seq<u8>| #[trigger]
            s.contains(f) && path::components(f) == k,
{
    if sorted_set::has_key::<FilePath>(s, k) {
        let i = choose|i: int| 0 <= i < s.len() && path::components(#[trigger] s[i]) == k;
        assert(s.contains(s[i]));
    }
    if exists|f: Seq<u8>| #[trigger] s.contains(f) && path::components(f) == k {
        let f = choose|f: Seq<u8>| #[trigger] s.contains(f) && path::components(f) == k;
        let i = choose|i: int| 0 <= i < s.len() && s[i] == f;
        assert(path::components(s[i]) == k);
    }
}

proof fn walk_is_kept(
    entries: spec_fn(Seq<u8>) -> Seq<(Seq<u8>, Kind)>,
    listed: Seq<Seq<u8>>,
    scan: SizeScanView,
    n: nat,
)
    requires
        scan.files == sorted_set::extended::<FilePath>(Seq::empty(), listed),
    ensures
        is_walk(
            entries,
            listed,
            scan.directories,
            walked(entries, scan, n),
            read_in(entries, scan, n),
        ),
    decreases n,
{
    let tops = scan.directories;
    if n == 0 {
        let read = Seq::<Seq<u8>>::empty();
        sorted_set::extended_laws::<FilePath>(Seq::empty(), listed);
        assert forall|d: Seq<u8>| #[trigger] scan.directories.contains(d) implies is_in_tree(
            entries,
            tops,
            d,
        ) by {
            let way = seq![d];
            assert(is_way_down(entries, tops, way) && way.last() == d);
        }
        assert forall|k: Seq<Seq<u8>>| #[trigger]
            sorted_set::has_key::<FilePath>(scan.files, k) <==> exists|f: Seq<u8>| #[trigger]
                is_seen(entries, listed, read, f) && path::components(f) == k by {
            has_key_by_contains(listed, k);
            if exists|f: Seq<u8>| #[trigger] listed.contains(f) && path::components(f) == k {
                let f = choose|f: Seq<u8>| #[trigger]
                    listed.contains(f) && path::components(f) == k;
                assert(is_seen(entries, listed, read, f));
            }
        }
    } else {
        let s = walked(entries, scan, (n - 1) as nat);
        let read = read_in(entries, scan, (n - 1) as nat);
        walk_is_kept(entries, listed, scan, (n - 1) as nat);
        if s.directories.len() > 0 {
            let top = s.directories[0];
            let rest = s.directories.drop_first();
            let new_dirs = entries_of_kind(entries(top), Kind::Directory);
            let new_files = entries_of_kind(entries(top), Kind::File);
            let after = walked(entries, scan, n);
            let now = read.push(top);
            assert(read_in(entries, scan, n) == now);
            assert(after.directories == rest + new_dirs);
            assert(s.directories.contains(top));
            sorted_set::extended_laws::<FilePath>(s.files, new_files);
            assert forall|d: Seq<u8>| #[trigger] now.contains(d) <==> read.contains(d) || d
                == top by {
                vstd::seq_lib::lemma_seq_contains_after_push(read, top, d);
            }
            assert forall|d: Seq<u8>| #[trigger] s.directories.contains(d) implies d == top
                || rest.contains(d) by {
                let i = choose|i: int| 0 <= i < s.directories.len() && s.directories[i] == d;
                if i > 0 {
                    assert(rest[i - 1] == d);
                }
            }
            assert forall|d: Seq<u8>| #[trigger] rest.contains(d) implies s.directories.contains(
                d,
            ) by {
                let i = choose|i: int| 0 <= i < rest.len() && rest[i] == d;
                assert(s.directories[i + 1] == d);
            }
            assert forall|d: Seq<u8>| #[trigger] after.directories.contains(d) <==> rest.contains(
                d,
            ) || new_dirs.contains(d) by {
                vstd::seq_lib::lemma_seq_concat_contains_all_elements(rest, new_dirs, d);
            }
            let way = choose|way: Seq<Seq<u8>>| #[trigger]
                is_way_down(entries, tops, way) && way.last() == top;
            assert(is_in_tree(entries, tops, top));
            assert forall|d: Seq<u8>| #[trigger] after.directories.contains(d) implies is_in_tree(
                entries,
                tops,
                d,
            ) by {
                if new_dirs.contains(d) {
                    entries_of_kind_contains(entries(top), Kind::Directory, d);
                    let longer = way.push(d);
                    assert forall|i: int| 0 < i < longer.len() implies entries(
                        longer[i - 1],
                    ).contains((#[trigger] longer[i], Kind::Directory)) by {
                        if i < way.len() {
                            assert(longer[i] == way[i] && longer[i - 1] == way[i - 1]);
                        } else {
                            assert(longer[i - 1] == top);
                        }
                    }
                    assert(longer[0] == way[0]);
                    assert(is_way_down(entries, tops, longer) && longer.last() == d);
                } else {
                    assert(rest.contains(d));
                    assert(s.directories.contains(d));
                }
            }
            assert forall|d: Seq<u8>| #[trigger] now.contains(d) implies is_in_tree(
                entries,
                tops,
                d,
            ) by {
                assert(read.contains(d) || d == top);
            }
            assert forall|up: Seq<u8>, d: Seq<u8>| #[trigger]
                now.contains(up) && #[trigger] entries(up).contains(
                    (d, Kind::Directory),
                ) implies after.directories.contains(d) || now.contains(d) by {
                if up == top {
                    entries_of_kind_contains(entries(top), Kind::Directory, d);
                    assert(after.directories.contains(d));
                } else {
                    assert(read.contains(up));
                    assert(s.directories.contains(d) || read.contains(d));
                }
                assert(now.contains(d) <==> read.contains(d) || d == top);
            }
            assert forall|d: Seq<u8>| #[trigger] tops.contains(d) implies after.directories.contains(
                d,
            ) || now.contains(d) by {
                assert(s.directories.contains(d) || read.contains(d));
                assert(now.contains(d) <==> read.contains(d) || d == top);
            }
            assert forall|k: Seq<Seq<u8>>| #[trigger]
                sorted_set::has_key::<FilePath>(after.files, k) <==> exists|f: Seq<u8>| #[trigger]
                    is_seen(entries, listed, now, f) && path::components(f) == k by {
                has_key_by_contains(new_files, k);
                assert(sorted_set::has_key::<FilePath>(after.files, k) <==> sorted_set::has_key::<
                    FilePath,
                >(s.files, k) || sorted_set::has_key::<FilePath>(new_files, k));
                if sorted_set::has_key::<FilePath>(s.files, k) {
                    let f = choose|f: Seq<u8>| #[trigger]
                        is_seen(entries, listed, read, f) && path::components(f) == k;
                    if !listed.contains(f) {
                        let d = choose|d: Seq<u8>| #[trigger]
                            read.contains(d) && entries(d).contains((f, Kind::File));
                        assert(now.contains(d));
                    }
                    assert(is_seen(entries, listed, now, f));
                }
                if sorted_set::has_key::<FilePath>(new_files, k) {
                    let f = choose|f: Seq<u8>| #[trigger]
                        new_files.contains(f) && path::components(f) == k;
                    entries_of_kind_contains(entries(top), Kind::File, f);
                    assert(now.contains(top));
                    assert(is_seen(entries, listed, now, f));
                }
                if exists|f: Seq<u8>| #[trigger]
                    is_seen(entries, listed, now, f) && path::components(f) == k {
                    let f = choose|f: Seq<u8>| #[trigger]
                        is_seen(entries, listed, now, f) && path::components(f) == k;
                    if !is_seen(entries, listed, read, f) {
                        let d = choose|d: Seq<u8>| #[trigger]
                            now.contains(d) && entries(d).contains((f, Kind::File));
                        assert(d == top);
                        entries_of_kind_contains(entries(top), Kind::File, f);
                        assert(new_files.contains(f));
                    }
                }
            }
        }
    }
}

proof fn tree_was_read(
    entries: spec_fn(Seq<u8>) -> Seq<(Seq<u8>, Kind)>,
    listed: Seq<Seq<u8>>,
    tops: Seq<Seq<u8>>,
    s: SizeScanView,
    read: Seq<Seq<u8>>,
    way: Seq<Seq<u8>>,
)
    requires
        is_walk(entries, listed, tops, s, read),
        s.directories.len() == 0,
        is_way_down(entries, tops, way),
    ensures
        read.contains(way.last()),
    decreases way.len(),
{
    if way.len() == 1 {
        assert(tops.contains(way.last()));
    } else {
        let shorter = way.drop_last();
        assert forall|i: int| 0 < i < shorter.len() implies entries(shorter[i - 1]).contains(
            (#[trigger] shorter[i], Kind::Directory),
        ) by {
            assert(shorter[i] == way[i] && shorter[i - 1] == way[i - 1]);
        }
        tree_was_read(entries, listed, tops, s, read, shorter);
        let up = shorter.last();
        let last = way[way.len() - 1];
        assert(entries(way[way.len() - 2]).contains((last, Kind::Directory)));
        assert(read.contains(up) && entries(up).contains((last, Kind::Directory)));
    }
}

/// When no directory is left to read, the files to measure are the listed ones, and those in the
/// listed directories and below them.
pub proof fn walk_finds_every_file(
    entries: spec_fn(Seq<u8>) -> Seq<(Seq<u8>, Kind)>,
    found: Seq<(Seq<u8>, Kind)>,
    paths: Seq<Seq<u8>>,
    n: nat,
    k: Seq<Seq<u8>>,
)
    requires
        walked(entries, size_scan(found, paths), n).directories.len() == 0,
    ensures
        sorted_set::has_key::<FilePath>(walked(entries, size_scan(found, paths), n).files, k) <==> {
            ||| exists|f: Seq<u8>| #[trigger]
                paths_of_kind(found, paths, Kind::File).contains(f) && path::components(f) == k
            ||| exists|f: Seq<u8>| #[trigger]
                is_file_in_tree(entries, paths_of_kind(found, paths, Kind::Directory), f)
                    && path::components(f) == k
        },
{
    let scan = size_scan(found, paths);
    let listed = paths_of_kind(found, paths, Kind::File);
    let tops = scan.directories;
    let s = walked(entries, scan, n);
    let read = read_in(entries, scan, n);
    walk_is_kept(entries, listed, scan, n);
    if sorted_set::has_key::<FilePath>(s.files, k) {
        let f = choose|f: Seq<u8>| #[trigger]
            is_seen(entries, listed, read, f) && path::components(f) == k;
        if !listed.contains(f) {
            let d = choose|d: Seq<u8>| #[trigger]
                read.contains(d) && entries(d).contains((f, Kind::File));
            assert(is_in_tree(entries, tops, d));
            assert(is_file_in_tree(entries, tops, f));
        }
    }
    if exists|f: Seq<u8>| #[trigger] listed.contains(f) && path::components(f) == k {
        let f = choose|f: Seq<u8>| #[trigger] listed.contains(f) && path::components(f) == k;
        assert(is_seen(entries, listed, read, f));
    }
    if exists|f: Seq<u8>| #[trigger]
        is_file_in_tree(entries, tops, f) && path::components(f) == k {
        let f = choose|f: Seq<u8>| #[trigger]
            is_file_in_tree(entries, tops, f) && path::components(f) == k;
        let d = choose|d: Seq<u8>| #[trigger]
            is_in_tree(entries, tops, d) && entries(d).contains((f, Kind::File));
        let way = choose|way: Seq<Seq<u8>>| #[trigger]
            is_way_down(entries, tops, way) && way.last() == d;
        tree_was_read(entries, listed, tops, s, read, way);
        assert(is_seen(entries, listed, read, f));
    }
}

proof fn sum_of_some(sizes: Seq<Option<u64>>, n: int)
    requires
        0 <= n <= sizes.len(),
    ensures
        0 <= sum(sizes.take(n)) <= sum(sizes),
    decreases sizes.len(),
{
    if n == sizes.len() {
        assert(sizes.take(n) =~= sizes);
        if n > 0 {
            sum_of_some(sizes.drop_last(), n - 1);
            assert(sizes.drop_last().take(n - 1) =~= sizes.drop_last());
        }
    } else {
        sum_of_some(sizes.drop_last(), n);
        assert(sizes.drop_last().take(n) =~= sizes.take(n));
    }
}

/// The total of the sizes of the files, as far as they are known; at most the greatest number.
pub fn fetch_total_size(sizes: &Vec<Option<u64>>) -> (total: u64)
    ensures
        total == (if sum(sizes@) <= u64::MAX {
            sum(sizes@)
        } else {
            u64::MAX as int
        }),
{
    let mut total: u64 = 0;
    let mut i: usize = 0;
    assert(sizes@.take(0) =~= Seq::<Option<u64>>::empty());
    while i < sizes.len()
        invariant
            i <= sizes@.len(),
            total == (if sum(sizes@.take(i as int)) <= u64::MAX {
                sum(sizes@.take(i as int))
            } else {
                u64::MAX as int
            }),
        decreases sizes@.len() - i,
    {
        proof {
            assert(sizes@.take(i + 1).drop_last() =~= sizes@.take(i as int));
            sum_of_some(sizes@, i as int);
        }
        if let Some(size) = sizes[i] {
            total = total.saturating_add(size);
        }
        i = i + 1;
    }
    assert(sizes@.take(i as int) =~= sizes@);
    total
}

/// What the command prints: the figure, on a line of its own. `moment` is the moment of the last
/// change in the words of the user's time zone; where there was none, nothing is printed.
pub fn execute(stat: Stats, total: u64, moment: Option<&str>) -> (output: String)
    ensures
        output@ == (match stat {
            Stats::Size { humanize: true } => human_size(total).push('\n'),
            Stats::Size { humanize: false } => text::decimal(total as nat).push('\n'),
            Stats::LastUpdate => match moment {
                Some(m) => m@.push('\n'),
                None => Seq::empty(),
            },
        }),
        stat == (Stats::Size { humanize: true }) && total < 1024 ==> output@ == (text::decimal(
            total as nat,
        ) + " B"@).push('\n'),
{
    let mut output = match stat {
        Stats::Size { humanize } => if humanize {
            humanized(total)
        } else {
            text::number(total)
        },
        Stats::LastUpdate => match moment {
            Some(m) => m.to_owned(),
            None => {
                let nothing = "".to_owned();
                proof {
                    reveal_strlit("");
                    assert(nothing@ =~= Seq::<char>::empty());
                }
                return nothing;
            },
        },
    };
    output.push('\n');
    output
}

} // verus!
