//! Exclusions, and how a scan changes them.
use vstd::prelude::*;

use crate::order::{Ordered, Rank};
use crate::path;
use crate::path::FilePath;
use crate::sort;
use crate::sorted_set;
use crate::sorted_set::SortedSet;

verus! {

/// A set of paths in their order.
pub type PathSet = SortedSet<FilePath>;

/// A copy of a set of paths.
pub fn copy_paths(paths: &PathSet) -> (copy: PathSet)
    ensures
        copy@ == paths@,
{
    proof {
        use_type_invariant(paths);
    }
    let mut items: Vec<FilePath> = Vec::new();
    let mut i: usize = 0;
    while i < paths.len()
        invariant
            i <= paths@.len(),
            items@.len() == i,
            forall|j: int| 0 <= j < i ==> (#[trigger] items@[j])@ == paths@[j],
        decreases paths@.len() - i,
    {
        items.push(paths.get(i).clone());
        i = i + 1;
    }
    assert(sorted_set::item_views(items@) =~= paths@);
    PathSet::from_increasing(items)
}

/// What an exclusion is made of.
pub struct ExclusionView {
    pub path: Seq<u8>,
    pub repository: Option<Seq<u8>>,
}

/// A path to leave out of the backups, and the repository whose scan reported it.
#[derive(Debug)]
pub struct Exclusion {
    path: FilePath,
    repository: Option<FilePath>,
}

impl View for Exclusion {
    type V = ExclusionView;

    closed spec fn view(&self) -> ExclusionView {
        ExclusionView {
            path: self.path@,
            repository: match self.repository {
                Some(r) => Some(r@),
                None => None,
            },
        }
    }
}

impl Exclusion {
    /// An exclusion that the scan of a repository reported.
    pub fn new(path: FilePath, repository: FilePath) -> (e: Exclusion)
        ensures
            e@ == (ExclusionView { path: path@, repository: Some(repository@) }),
    {
        Exclusion { path, repository: Some(repository) }
    }

    /// An exclusion of which no repository is known.
    pub fn orphan(path: FilePath) -> (e: Exclusion)
        ensures
            e@ == (ExclusionView { path: path@, repository: None }),
    {
        Exclusion { path, repository: None }
    }

    pub fn path(&self) -> (path: &FilePath)
        ensures
            path@ == self@.path,
    {
        &self.path
    }

    pub fn repository(&self) -> (repository: Option<&FilePath>)
        ensures
            match repository {
                Some(r) => self@.repository == Some(r@),
                None => self@.repository is None,
            },
    {
        match &self.repository {
            Some(r) => Some(r),
            None => None,
        }
    }
}

impl Clone for Exclusion {
    fn clone(&self) -> (copy: Exclusion)
        ensures
            copy@ == self@,
    {
        Exclusion {
            path: self.path.clone(),
            repository: match &self.repository {
                Some(r) => Some(r.clone()),
                None => None,
            },
        }
    }
}

/// The components of the repository, if there is one.
pub open spec fn repository_key(repository: Option<Seq<u8>>) -> Option<Seq<Seq<u8>>> {
    match repository {
        Some(r) => Some(path::components(r)),
        None => None,
    }
}

/// No repository comes before any repository.
pub open spec fn repository_before(a: Option<Seq<Seq<u8>>>, b: Option<Seq<Seq<u8>>>) -> bool {
    match (a, b) {
        (None, Some(_)) => true,
        (Some(x), Some(y)) => path::components_before(x, y),
        (_, None) => false,
    }
}

impl Ordered for Exclusion {
    type Key = (Seq<Seq<u8>>, Option<Seq<Seq<u8>>>);

    open spec fn key(v: ExclusionView) -> (Seq<Seq<u8>>, Option<Seq<Seq<u8>>>) {
        (path::components(v.path), repository_key(v.repository))
    }

    /// By path, then by repository.
    open spec fn before(
        a: (Seq<Seq<u8>>, Option<Seq<Seq<u8>>>),
        b: (Seq<Seq<u8>>, Option<Seq<Seq<u8>>>),
    ) -> bool {
        ||| path::components_before(a.0, b.0)
        ||| a.0 == b.0 && repository_before(a.1, b.1)
    }

    proof fn before_is_irreflexive(a: (Seq<Seq<u8>>, Option<Seq<Seq<u8>>>)) {
        <FilePath as Ordered>::before_is_irreflexive(a.0);
        if let Some(r) = a.1 {
            <FilePath as Ordered>::before_is_irreflexive(r);
        }
    }

    proof fn before_is_transitive(
        a: (Seq<Seq<u8>>, Option<Seq<Seq<u8>>>),
        b: (Seq<Seq<u8>>, Option<Seq<Seq<u8>>>),
        c: (Seq<Seq<u8>>, Option<Seq<Seq<u8>>>),
    ) {
        if path::components_before(a.0, b.0) && path::components_before(b.0, c.0) {
            <FilePath as Ordered>::before_is_transitive(a.0, b.0, c.0);
        }
        if a.1 is Some && b.1 is Some && c.1 is Some && repository_before(a.1, b.1)
            && repository_before(b.1, c.1) {
            <FilePath as Ordered>::before_is_transitive(a.1->0, b.1->0, c.1->0);
        }
    }

    proof fn before_is_total(
        a: (Seq<Seq<u8>>, Option<Seq<Seq<u8>>>),
        b: (Seq<Seq<u8>>, Option<Seq<Seq<u8>>>),
    ) {
        <FilePath as Ordered>::before_is_total(a.0, b.0);
        if a.1 is Some && b.1 is Some {
            <FilePath as Ordered>::before_is_total(a.1->0, b.1->0);
        }
    }

    fn compare(&self, other: &Exclusion) -> (rank: Rank) {
        match self.path.compare(&other.path) {
            Rank::Less => Rank::Less,
            Rank::Greater => Rank::Greater,
            Rank::Equal => match (&self.repository, &other.repository) {
                (None, None) => Rank::Equal,
                (None, Some(_)) => Rank::Less,
                (Some(_), None) => Rank::Greater,
                (Some(a), Some(b)) => a.compare(b),
            },
        }
    }
}

impl PartialEq for Exclusion {
    fn eq(&self, other: &Exclusion) -> (res: bool) {
        proof {
            <Exclusion as Ordered>::before_is_irreflexive(<Exclusion as Ordered>::key(self@));
        }
        match self.compare(other) {
            Rank::Equal => true,
            Rank::Less => false,
            Rank::Greater => false,
        }
    }
}

impl vstd::std_specs::cmp::PartialEqSpecImpl for Exclusion {
    open spec fn obeys_eq_spec() -> bool {
        true
    }

    open spec fn eq_spec(&self, other: &Exclusion) -> bool {
        <Exclusion as Ordered>::key(self@) == <Exclusion as Ordered>::key(other@)
    }
}

/// The paths of some exclusions.
pub open spec fn exclusion_paths(s: Seq<ExclusionView>) -> Seq<Seq<u8>> {
    s.map_values(|e: ExclusionView| e.path)
}

/// A path with these components is in `s`.
pub open spec fn lists(s: Seq<Seq<u8>>, k: Seq<Seq<u8>>) -> bool {
    sorted_set::has_key::<FilePath>(s, k)
}

/// One more path lists its components too.
pub proof fn lists_after_push(s: Seq<Seq<u8>>, p: Seq<u8>, k: Seq<Seq<u8>>)
    ensures
        lists(s.push(p), k) <==> lists(s, k) || path::components(p) == k,
{
    let all = s.push(p);
    if lists(all, k) {
        let i = choose|i: int| 0 <= i < all.len() && path::components(#[trigger] all[i]) == k;
        if i < s.len() {
            assert(path::components(s[i]) == k);
        }
    }
    if lists(s, k) {
        let i = choose|i: int| 0 <= i < s.len() && path::components(#[trigger] s[i]) == k;
        assert(path::components(all[i]) == k);
    }
    if path::components(p) == k {
        assert(path::components(all[s.len() as int]) == k);
    }
}

/// The paths of `s` that `t` does not list.
pub open spec fn unlisted(s: Seq<Seq<u8>>, t: Seq<Seq<u8>>) -> Seq<Seq<u8>>
    decreases s.len(),
{
    if s.len() == 0 {
        s
    } else {
        let init = unlisted(s.drop_last(), t);
        if lists(t, path::components(s.last())) {
            init
        } else {
            init.push(s.last())
        }
    }
}

/// The set of the paths of `s` that `t` does not list.
pub open spec fn paths_only_in(s: Seq<Seq<u8>>, t: Seq<Seq<u8>>) -> Seq<Seq<u8>> {
    sorted_set::extended::<FilePath>(Seq::empty(), unlisted(s, t))
}

/// The paths of `s` that `t` does not list are those.
pub proof fn unlisted_keys(s: Seq<Seq<u8>>, t: Seq<Seq<u8>>)
    ensures
        forall|k: Seq<Seq<u8>>| #[trigger]
            lists(unlisted(s, t), k) <==> lists(s, k) && !lists(t, k),
    decreases s.len(),
{
    if s.len() > 0 {
        let init = s.drop_last();
        let some = unlisted(init, t);
        let all = unlisted(s, t);
        unlisted_keys(init, t);
        assert forall|k: Seq<Seq<u8>>| #[trigger] lists(all, k) <==> lists(s, k) && !lists(
            t,
            k,
        ) by {
            assert(lists(some, k) <==> lists(init, k) && !lists(t, k));
            if lists(s, k) {
                let i = choose|i: int| 0 <= i < s.len() && path::components(#[trigger] s[i]) == k;
                if i < init.len() {
                    assert(init[i] == s[i]);
                } else if !lists(t, k) {
                    assert(all[all.len() - 1] == s[i]);
                }
            }
            if lists(init, k) {
                let i = choose|i: int|
                    0 <= i < init.len() && path::components(#[trigger] init[i]) == k;
                assert(s[i] == init[i]);
            }
            if lists(some, k) {
                let i = choose|i: int|
                    0 <= i < some.len() && path::components(#[trigger] some[i]) == k;
                assert(all[i] == some[i]);
            }
            if lists(all, k) {
                let i = choose|i: int|
                    0 <= i < all.len() && path::components(#[trigger] all[i]) == k;
                if i < some.len() {
                    assert(some[i] == all[i]);
                } else {
                    assert(s[s.len() - 1] == all[i]);
                }
            }
        }
    }
}

/// The set of the paths that only one of two lists has lists just those.
pub proof fn paths_only_in_laws(s: Seq<Seq<u8>>, t: Seq<Seq<u8>>)
    ensures
        sorted_set::increasing::<FilePath>(paths_only_in(s, t)),
        forall|k: Seq<Seq<u8>>| #[trigger]
            lists(paths_only_in(s, t), k) <==> lists(s, k) && !lists(t, k),
{
    unlisted_keys(s, t);
    sorted_set::extended_laws::<FilePath>(Seq::empty(), unlisted(s, t));
    assert forall|k: Seq<Seq<u8>>| #[trigger]
        lists(paths_only_in(s, t), k) <==> lists(s, k) && !lists(t, k) by {
        assert(lists(unlisted(s, t), k) <==> lists(s, k) && !lists(t, k));
    }
}

/// Applied to the previous list, a difference gives the current one: what is not removed and
/// what is added is just what is there now, and nothing is both removed and added.
pub proof fn difference_reconciles(
    current: Seq<Seq<u8>>,
    previous: Seq<Seq<u8>>,
    k: Seq<Seq<u8>>,
)
    ensures
        lists(current, k) <==> (lists(previous, k) && !lists(paths_only_in(previous, current), k))
            || lists(paths_only_in(current, previous), k),
        !(lists(paths_only_in(previous, current), k) && lists(
            paths_only_in(current, previous),
            k,
        )),
{
    paths_only_in_laws(current, previous);
    paths_only_in_laws(previous, current);
}

/// `d` is a set with the paths of `s` that `t` does not list, each as `s` spells it.
pub open spec fn is_difference(d: Seq<Seq<u8>>, s: Seq<Seq<u8>>, t: Seq<Seq<u8>>) -> bool {
    &&& sorted_set::increasing::<FilePath>(d)
    &&& forall|k: Seq<Seq<u8>>| #[trigger] lists(d, k) <==> lists(s, k) && !lists(t, k)
    &&& forall|p: Seq<u8>| #[trigger] d.contains(p) ==> s.contains(p)
}

/// The paths of `s` that `t` does not list are paths of `s`.
pub proof fn unlisted_contains(s: Seq<Seq<u8>>, t: Seq<Seq<u8>>)
    ensures
        forall|p: Seq<u8>| #[trigger] unlisted(s, t).contains(p) ==> s.contains(p),
    decreases s.len(),
{
    if s.len() > 0 {
        let init = s.drop_last();
        unlisted_contains(init, t);
        assert(s =~= init.push(s.last()));
        assert forall|p: Seq<u8>| #[trigger] unlisted(s, t).contains(p) implies s.contains(p) by {
            vstd::seq_lib::lemma_seq_contains_after_push(init, s.last(), p);
            vstd::seq_lib::lemma_seq_contains_after_push(unlisted(init, t), s.last(), p);
        }
    }
}

proof fn unlisted_by_listing(s: Seq<Seq<u8>>, t: Seq<Seq<u8>>, u: Seq<Seq<u8>>)
    requires
        forall|k: Seq<Seq<u8>>| #[trigger] lists(t, k) <==> lists(u, k),
    ensures
        unlisted(s, t) == unlisted(s, u),
    decreases s.len(),
{
    if s.len() > 0 {
        unlisted_by_listing(s.drop_last(), t, u);
        assert(lists(t, path::components(s.last())) <==> lists(u, path::components(s.last())));
    }
}

/// Paths that are the same but for their order list the same.
pub proof fn lists_in_any_order(s: Seq<Seq<u8>>, t: Seq<Seq<u8>>)
    requires
        s.to_multiset() == t.to_multiset(),
    ensures
        forall|p: Seq<u8>| #[trigger] s.contains(p) <==> t.contains(p),
        forall|k: Seq<Seq<u8>>| #[trigger] lists(s, k) <==> lists(t, k),
{
    assert forall|p: Seq<u8>| #[trigger] s.contains(p) <==> t.contains(p) by {
        s.to_multiset_ensures();
        t.to_multiset_ensures();
        assert(s.contains(p) <==> s.to_multiset().count(p) > 0);
        assert(t.contains(p) <==> t.to_multiset().count(p) > 0);
    }
    assert forall|k: Seq<Seq<u8>>| #[trigger] lists(s, k) <==> lists(t, k) by {
        if lists(s, k) {
            let i = choose|i: int| 0 <= i < s.len() && path::components(#[trigger] s[i]) == k;
            assert(s.contains(s[i]));
            assert(t.contains(s[i]));
            let j = choose|j: int| 0 <= j < t.len() && t[j] == s[i];
            assert(path::components(t[j]) == k);
        }
        if lists(t, k) {
            let i = choose|i: int| 0 <= i < t.len() && path::components(#[trigger] t[i]) == k;
            assert(t.contains(t[i]));
            assert(s.contains(t[i]));
            let j = choose|j: int| 0 <= j < s.len() && s[j] == t[i];
            assert(path::components(s[j]) == k);
        }
    }
}

/// Other lists that list the same have the same difference.
pub proof fn differences_by_listing(
    s: Seq<Seq<u8>>,
    same_s: Seq<Seq<u8>>,
    t: Seq<Seq<u8>>,
    same_t: Seq<Seq<u8>>,
)
    requires
        forall|k: Seq<Seq<u8>>| #[trigger] lists(s, k) <==> lists(same_s, k),
        forall|k: Seq<Seq<u8>>| #[trigger] lists(t, k) <==> lists(same_t, k),
        forall|p: Seq<u8>| #[trigger] s.contains(p) ==> same_s.contains(p),
    ensures
        is_difference(paths_only_in(s, t), same_s, same_t),
{
    paths_only_in_laws(s, t);
    unlisted_contains(s, t);
    sorted_set::extended_laws::<FilePath>(Seq::empty(), unlisted(s, t));
    let d = paths_only_in(s, t);
    assert forall|p: Seq<u8>| #[trigger] d.contains(p) implies same_s.contains(p) by {
        assert(unlisted(s, t).contains(p));
        assert(s.contains(p));
    }
    assert forall|k: Seq<Seq<u8>>| #[trigger] lists(d, k) <==> lists(same_s, k) && !lists(
        same_t,
        k,
    ) by {
        assert(lists(s, k) <==> lists(same_s, k));
        assert(lists(t, k) <==> lists(same_t, k));
    }
}

/// Sorting the previous paths changes no difference but for the spelling of what is removed.
pub proof fn differences_with_sorted(
    current: Seq<Seq<u8>>,
    previous: Seq<Seq<u8>>,
    sorted: Seq<Seq<u8>>,
)
    requires
        sorted.to_multiset() == previous.to_multiset(),
    ensures
        paths_only_in(current, sorted) == paths_only_in(current, previous),
        is_difference(paths_only_in(sorted, current), previous, current),
{
    lists_in_any_order(sorted, previous);
    unlisted_by_listing(current, sorted, previous);
    paths_only_in_laws(sorted, current);
    unlisted_contains(sorted, current);
    sorted_set::extended_laws::<FilePath>(Seq::empty(), unlisted(sorted, current));
    let d = paths_only_in(sorted, current);
    assert forall|p: Seq<u8>| #[trigger] d.contains(p) implies previous.contains(p) by {
        assert(unlisted(sorted, current).contains(p));
        assert(sorted.contains(p));
    }
    assert forall|k: Seq<Seq<u8>>| #[trigger] lists(d, k) <==> lists(previous, k) && !lists(
        current,
        k,
    ) by {
        assert(lists(sorted, k) <==> lists(previous, k));
    }
}

/// The paths to add to the exclusions and those to remove from them.
#[derive(Debug)]
pub struct Diff {
    pub added: PathSet,
    pub removed: PathSet,
}

/// The items are sorted by path.
pub open spec fn sorted_by_path(s: Seq<ExclusionView>) -> bool {
    sort::sorted::<FilePath>(exclusion_paths(s))
}

/// Something that stands at a path.
trait Placed: View {
    spec fn place(v: Self::V) -> Seq<u8>;

    fn placed_at(&self) -> (path: &FilePath)
        ensures
            path@ == Self::place(self@),
    ;
}

impl Placed for FilePath {
    spec fn place(v: Seq<u8>) -> Seq<u8> {
        v
    }

    fn placed_at(&self) -> (path: &FilePath) {
        self
    }
}

impl Placed for Exclusion {
    spec fn place(v: ExclusionView) -> Seq<u8> {
        v.path
    }

    fn placed_at(&self) -> (path: &FilePath) {
        self.path()
    }
}

/// The paths at which some items stand.
spec fn places<T: Placed>(items: Seq<T>) -> Seq<Seq<u8>> {
    items.map_values(|item: T| T::place(item@))
}

/// Whether one of the items, which are sorted by path, stands at this path.
fn has_item_at<T: Placed>(items: &[T], wanted: &FilePath) -> (res: bool)
    requires
        sort::sorted::<FilePath>(places(items@)),
    ensures
        res == lists(places(items@), path::components(wanted@)),
{
    let ghost s = places(items@);
    let ghost k = path::components(wanted@);
    let mut low: usize = 0;
    let mut high: usize = items.len();
    while low < high
        invariant
            sort::sorted::<FilePath>(s),
            s == places(items@),
            k == path::components(wanted@),
            0 <= low <= high <= items@.len(),
            forall|i: int| 0 <= i < low ==> path::components(#[trigger] s[i]) != k,
            forall|i: int| high <= i < s.len() ==> path::components(#[trigger] s[i]) != k,
        decreases high - low,
    {
        let mid: usize = low + (high - low) / 2;
        assert(s[mid as int] == T::place(items@[mid as int]@));
        match items[mid].placed_at().compare(wanted) {
            Rank::Less => {
                assert forall|i: int| 0 <= i < mid + 1 implies path::components(#[trigger] s[i])
                    != k by {
                    <FilePath as Ordered>::before_is_irreflexive(k);
                    assert(i < mid ==> s[i] == s[i] && s[mid as int] == s[mid as int]);
                }
                low = mid + 1;
            },
            Rank::Equal => {
                return true;
            },
            Rank::Greater => {
                assert forall|i: int| mid <= i < s.len() implies path::components(#[trigger] s[i])
                    != k by {
                    <FilePath as Ordered>::before_is_irreflexive(k);
                    assert(i > mid ==> s[i] == s[i] && s[mid as int] == s[mid as int]);
                }
                high = mid;
            },
        }
    }
    false
}

impl Diff {
    /// What leads from the paths of the last time to those of now, both sorted by path.
    pub fn from_sorted(current: &[Exclusion], previous: &[FilePath]) -> (diff: Diff)
        requires
            sorted_by_path(sorted_set::item_views(current@)),
            sort::sorted::<FilePath>(sorted_set::item_views(previous@)),
        ensures
            diff.added@ == paths_only_in(
                exclusion_paths(sorted_set::item_views(current@)),
                sorted_set::item_views(previous@),
            ),
            diff.removed@ == paths_only_in(
                sorted_set::item_views(previous@),
                exclusion_paths(sorted_set::item_views(current@)),
            ),
    {
        let ghost now = exclusion_paths(sorted_set::item_views(current@));
        let ghost then = sorted_set::item_views(previous@);
        assert(places(current@) =~= now);
        assert(places(previous@) =~= then);
        let mut added = PathSet::new();
        let mut i: usize = 0;
        assert(now.take(0) =~= Seq::<Seq<u8>>::empty());
        while i < current.len()
            invariant
                sort::sorted::<FilePath>(then),
                now == exclusion_paths(sorted_set::item_views(current@)),
                then == sorted_set::item_views(previous@),
                then == places(previous@),
                i <= current@.len(),
                added@ == paths_only_in(now.take(i as int), then),
            decreases current@.len() - i,
        {
            let path = current[i].path();
            proof {
                assert(path@ == now[i as int]);
                assert(now.take(i + 1).drop_last() =~= now.take(i as int));
                let all = unlisted(now.take(i + 1), then);
                let some = unlisted(now.take(i as int), then);
                if !lists(then, path::components(path@)) {
                    assert(all.drop_last() =~= some);
                }
            }
            if !has_item_at(previous, path) {
                added.insert(path.clone());
            }
            i = i + 1;
        }
        assert(now.take(i as int) =~= now);
        let mut removed = PathSet::new();
        let mut j: usize = 0;
        assert(then.take(0) =~= Seq::<Seq<u8>>::empty());
        while j < previous.len()
            invariant
                sort::sorted::<FilePath>(now),
                now == exclusion_paths(sorted_set::item_views(current@)),
                then == sorted_set::item_views(previous@),
                now == places(current@),
                j <= previous@.len(),
                removed@ == paths_only_in(then.take(j as int), now),
            decreases previous@.len() - j,
        {
            let path = &previous[j];
            proof {
                assert(path@ == then[j as int]);
                assert(then.take(j + 1).drop_last() =~= then.take(j as int));
                let all = unlisted(then.take(j + 1), now);
                let some = unlisted(then.take(j as int), now);
                if !lists(now, path::components(path@)) {
                    assert(all.drop_last() =~= some);
                }
            }
            if !has_item_at(current, path) {
                removed.insert(path.clone());
            }
            j = j + 1;
        }
        assert(then.take(j as int) =~= then);
        Diff { added, removed }
    }
}

/// `s` has the exclusions of `t` in their order, each once.
pub open spec fn is_sorted_set_of(s: Seq<ExclusionView>, t: Seq<ExclusionView>) -> bool {
    &&& sorted_set::increasing::<Exclusion>(s)
    &&& forall|k: (Seq<Seq<u8>>, Option<Seq<Seq<u8>>>)| #[trigger]
        sorted_set::has_key::<Exclusion>(s, k) <==> sorted_set::has_key::<Exclusion>(t, k)
    &&& forall|e: ExclusionView| #[trigger] s.contains(e) ==> t.contains(e)
}

/// Exclusions in their order are sorted by path.
pub proof fn increasing_is_sorted_by_path(s: Seq<ExclusionView>)
    requires
        sorted_set::increasing::<Exclusion>(s),
    ensures
        sorted_by_path(s),
{
    let paths = exclusion_paths(s);
    assert forall|i: int, j: int| 0 <= i < j < paths.len() implies !<FilePath as Ordered>::before(
        <FilePath as Ordered>::key(#[trigger] paths[j]),
        <FilePath as Ordered>::key(#[trigger] paths[i]),
    ) by {
        let a = path::components(s[i].path);
        let b = path::components(s[j].path);
        assert(<Exclusion as Ordered>::before(
            <Exclusion as Ordered>::key(s[i]),
            <Exclusion as Ordered>::key(s[j]),
        ));
        <FilePath as Ordered>::before_is_irreflexive(a);
        if path::components_before(b, a) && path::components_before(a, b) {
            <FilePath as Ordered>::before_is_transitive(a, b, a);
        }
    }
}

proof fn lists_of_exclusion(s: Seq<ExclusionView>, k: Seq<Seq<u8>>)
    ensures
        lists(exclusion_paths(s), k) <==> exists|i: int|
            0 <= i < s.len() && path::components((#[trigger] s[i]).path) == k,
{
    let paths = exclusion_paths(s);
    if lists(paths, k) {
        let i = choose|i: int| 0 <= i < paths.len() && path::components(#[trigger] paths[i]) == k;
        assert(path::components(s[i].path) == k);
    }
    if exists|i: int| 0 <= i < s.len() && path::components((#[trigger] s[i]).path) == k {
        let i = choose|i: int| 0 <= i < s.len() && path::components((#[trigger] s[i]).path) == k;
        assert(path::components(paths[i]) == k);
    }
}

/// Exclusions in order, each once, have the paths that they had before.
pub proof fn sorted_set_keeps_paths(s: Seq<ExclusionView>, t: Seq<ExclusionView>)
    requires
        is_sorted_set_of(s, t),
    ensures
        forall|k: Seq<Seq<u8>>| #[trigger]
            lists(exclusion_paths(s), k) <==> lists(exclusion_paths(t), k),
        forall|p: Seq<u8>| #[trigger]
            exclusion_paths(s).contains(p) ==> exclusion_paths(t).contains(p),
{
    assert forall|k: Seq<Seq<u8>>| #[trigger]
        lists(exclusion_paths(s), k) <==> lists(exclusion_paths(t), k) by {
        lists_of_exclusion(s, k);
        lists_of_exclusion(t, k);
        if lists(exclusion_paths(s), k) {
            let i = choose|i: int|
                0 <= i < s.len() && path::components((#[trigger] s[i]).path) == k;
            let whole = <Exclusion as Ordered>::key(s[i]);
            assert(sorted_set::has_key::<Exclusion>(s, whole));
            assert(sorted_set::has_key::<Exclusion>(t, whole));
            let j = choose|j: int|
                0 <= j < t.len() && <Exclusion as Ordered>::key(#[trigger] t[j]) == whole;
            assert(path::components(t[j].path) == k);
        }
        if lists(exclusion_paths(t), k) {
            let i = choose|i: int|
                0 <= i < t.len() && path::components((#[trigger] t[i]).path) == k;
            let whole = <Exclusion as Ordered>::key(t[i]);
            assert(sorted_set::has_key::<Exclusion>(t, whole));
            assert(sorted_set::has_key::<Exclusion>(s, whole));
            let j = choose|j: int|
                0 <= j < s.len() && <Exclusion as Ordered>::key(#[trigger] s[j]) == whole;
            assert(path::components(s[j].path) == k);
        }
    }
    assert forall|p: Seq<u8>| #[trigger] exclusion_paths(s).contains(p) implies exclusion_paths(
        t,
    ).contains(p) by {
        let i = choose|i: int| 0 <= i < exclusion_paths(s).len() && exclusion_paths(s)[i] == p;
        assert(s.contains(s[i]));
        assert(t.contains(s[i]));
        let j = choose|j: int| 0 <= j < t.len() && t[j] == s[i];
        assert(exclusion_paths(t)[j] == p);
    }
}

/// Sorts exclusions, and removes those that occur again.
pub fn sort_and_dedup(exclusions: Vec<Exclusion>) -> (all: Vec<Exclusion>)
    ensures
        is_sorted_set_of(
            sorted_set::item_views(all@),
            sorted_set::item_views(exclusions@),
        ),
        sorted_by_path(sorted_set::item_views(all@)),
{
    let ghost before = sorted_set::item_views(exclusions@);
    let sorted = sort::sort(exclusions);
    let ghost mid = sorted_set::item_views(sorted@);
    let all = sort::dedup(sorted);
    let ghost after = sorted_set::item_views(all@);
    proof {
        sort::deduped_laws::<Exclusion>(mid);
        assert forall|e: ExclusionView| #[trigger] mid.contains(e) <==> before.contains(e) by {
            mid.to_multiset_ensures();
            before.to_multiset_ensures();
            assert(mid.contains(e) <==> mid.to_multiset().count(e) > 0);
            assert(before.contains(e) <==> before.to_multiset().count(e) > 0);
        }
        assert forall|k: (Seq<Seq<u8>>, Option<Seq<Seq<u8>>>)| #[trigger]
            sorted_set::has_key::<Exclusion>(after, k) <==> sorted_set::has_key::<Exclusion>(
                before,
                k,
            ) by {
            assert(sorted_set::has_key::<Exclusion>(after, k) <==> sorted_set::has_key::<
                Exclusion,
            >(mid, k));
            if sorted_set::has_key::<Exclusion>(mid, k) {
                let i = choose|i: int|
                    0 <= i < mid.len() && <Exclusion as Ordered>::key(#[trigger] mid[i]) == k;
                assert(mid.contains(mid[i]));
                assert(before.contains(mid[i]));
                let j = choose|j: int| 0 <= j < before.len() && before[j] == mid[i];
                assert(<Exclusion as Ordered>::key(before[j]) == k);
            }
            if sorted_set::has_key::<Exclusion>(before, k) {
                let i = choose|i: int|
                    0 <= i < before.len() && <Exclusion as Ordered>::key(#[trigger] before[i])
                        == k;
                assert(before.contains(before[i]));
                assert(mid.contains(before[i]));
                let j = choose|j: int| 0 <= j < mid.len() && mid[j] == before[i];
                assert(<Exclusion as Ordered>::key(mid[j]) == k);
            }
        }
        increasing_is_sorted_by_path(after);
    }
    all
}

/// The set of some paths.
pub fn path_set(paths: &Vec<FilePath>) -> (all: PathSet)
    ensures
        all@ == sorted_set::extended::<FilePath>(
            Seq::empty(),
            sorted_set::item_views(paths@),
        ),
{
    let ghost views = sorted_set::item_views(paths@);
    let mut all = PathSet::new();
    let mut i: usize = 0;
    assert(views.take(0) =~= Seq::<Seq<u8>>::empty());
    while i < paths.len()
        invariant
            i <= paths@.len(),
            views == sorted_set::item_views(paths@),
            all@ == sorted_set::extended::<FilePath>(Seq::empty(), views.take(i as int)),
        decreases paths@.len() - i,
    {
        assert(views.take(i + 1).drop_last() =~= views.take(i as int));
        assert(views[i as int] == paths@[i as int]@);
        all.insert(paths[i].clone());
        i = i + 1;
    }
    assert(views.take(i as int) =~= views);
    all
}

/// The set of the paths that only the first of two sets has.
pub fn only_in(paths: &PathSet, others: &PathSet) -> (res: PathSet)
    ensures
        res@ == paths_only_in(paths@, others@),
{
    let ghost all = paths@;
    let mut res = PathSet::new();
    let mut i: usize = 0;
    assert(all.take(0) =~= Seq::<Seq<u8>>::empty());
    while i < paths.len()
        invariant
            i <= all.len(),
            all == paths@,
            res@ == paths_only_in(all.take(i as int), others@),
        decreases all.len() - i,
    {
        let path = paths.get(i);
        assert(all.take(i + 1).drop_last() =~= all.take(i as int));
        if !others.contains(path) {
            let ghost some = unlisted(all.take(i as int), others@);
            assert(some.push(path@).drop_last() =~= some);
            res.insert(path.clone());
        }
        i = i + 1;
    }
    assert(all.take(i as int) =~= all);
    res
}

/// Whether one of the paths is spelled like this one.
pub fn is_spelled(paths: &Vec<FilePath>, wanted: &FilePath) -> (res: bool)
    ensures
        res == sorted_set::item_views(paths@).contains(wanted@),
{
    let ghost all = sorted_set::item_views(paths@);
    let mut i: usize = 0;
    while i < paths.len()
        invariant
            i <= paths@.len(),
            all == sorted_set::item_views(paths@),
            forall|j: int| 0 <= j < i ==> all[j] != wanted@,
        decreases paths@.len() - i,
    {
        assert(all[i as int] == paths@[i as int]@);
        if paths[i].same_bytes(wanted) {
            return true;
        }
        i = i + 1;
    }
    false
}

} // verus!
