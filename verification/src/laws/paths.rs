//! Laws of paths.
use vstd::prelude::*;

use crate::order;
use crate::order::Ordered;
use crate::path;
use crate::path::FilePath;

verus! {

/// A name that can stand between two slashes: it is not empty, it has no slash, and it is no `.`.
pub open spec fn is_name(name: Seq<u8>) -> bool {
    name.len() > 0 && !name.contains(47u8) && name != seq![46u8]
}

proof fn scan_of_name(s: Seq<u8>, name: Seq<u8>)
    requires
        !name.contains(47u8),
    ensures
        path::scan(s + name) == path::scan(s),
    decreases name.len(),
{
    if name.len() > 0 {
        let init = name.drop_last();
        assert((s + name).drop_last() =~= s + init);
        assert((s + name).last() == name.last());
        assert(name.last() != 47u8) by {
            assert(name[name.len() - 1] == name.last());
            assert(name.contains(name.last()));
        }
        assert(!init.contains(47u8)) by {
            if init.contains(47u8) {
                let i = choose|i: int| 0 <= i < init.len() && init[i] == 47u8;
                assert(name[i] == 47u8);
            }
        }
        scan_of_name(s, init);
    } else {
        assert(s + name =~= s);
    }
}

proof fn spans_behind_slash(s: Seq<u8>, name: Seq<u8>)
    requires
        s.len() > 0,
        s.last() == 47u8,
        is_name(name),
    ensures
        path::spans(s + name) == path::scan(s).0.push((name, s.len() + name.len())),
        path::spans(s) == path::scan(s).0,
        path::scan(s).1 == s.len(),
{
    scan_of_name(s, name);
    let all = s + name;
    assert(all.subrange(s.len() as int, all.len() as int) =~= name);
    assert(s.subrange(s.len() as int, s.len() as int) =~= Seq::<u8>::empty());
    assert(path::spans(all) =~= path::scan(s).0.push((name, s.len() + name.len())));
    assert(path::spans(s) =~= path::scan(s).0);
}

/// A slash at the end of a path changes none of its components.
pub proof fn slash_at_the_end(s: Seq<u8>)
    requires
        s.len() > 0,
    ensures
        path::components(s.push(47u8)) == path::components(s),
{
    let t = s.push(47u8);
    assert(t.drop_last() =~= s);
    assert(t.subrange(t.len() as int, t.len() as int) =~= Seq::<u8>::empty());
    assert(path::spans(t) =~= path::spans(s));
    assert(path::components(t) =~= path::components(s));
}

/// The empty path has no component, and the root has one, which is the slash.
pub proof fn components_of_the_shortest_paths()
    ensures
        path::components(Seq::<u8>::empty()) == Seq::<Seq<u8>>::empty(),
        path::components(seq![47u8]) == seq![seq![47u8]],
        path::components(seq![46u8]) == seq![seq![46u8]],
{
    let none = Seq::<u8>::empty();
    assert(none.subrange(0, 0) =~= none);
    assert(path::components(none) =~= Seq::<Seq<u8>>::empty());
    let root = seq![47u8];
    assert(root.drop_last() =~= none);
    assert(root.subrange(1, 1) =~= none);
    assert(path::spans(root) =~= seq![(root, 1nat)]);
    assert(path::components(root) =~= seq![root]);
    let dot = seq![46u8];
    assert(dot.drop_last() =~= none);
    assert(dot.subrange(0, 1) =~= dot);
    assert(path::scan(none) == (Seq::<(Seq<u8>, nat)>::empty(), 0nat));
    assert(path::scan(dot) == path::scan(none));
    assert(path::spans(dot) =~= seq![(dot, 1nat)]);
    assert(path::components(dot) =~= seq![dot]);
}

/// A name that is joined to a path is its last component, and the others stay. Between them
/// stands a slash, unless one was there. A path from the root stands alone.
pub proof fn joined_name(s: Seq<u8>, name: Seq<u8>)
    requires
        is_name(name),
    ensures
        path::components(path::path_join(s, name)) == path::components(s).push(name),
        s.len() > 0 && s.last() != 47u8 ==> path::path_join(s, name) == s + seq![47u8] + name,
        s.len() == 0 || s.last() == 47u8 ==> path::path_join(s, name) == s + name,
        path::path_join(s, seq![47u8] + name) == seq![47u8] + name,
{
    assert(name[0] != 47u8) by {
        assert(name.contains(name[0]));
    }
    assert((seq![47u8] + name)[0] == 47u8);
    if s.len() == 0 {
        assert(s + name =~= name);
        assert(s =~= Seq::<u8>::empty());
        components_of_the_shortest_paths();
        scan_of_name(s, name);
        assert(name.subrange(0, name.len() as int) =~= name);
        assert(path::spans(name) =~= seq![(name, name.len())]);
        assert(path::components(name) =~= path::components(s).push(name));
    } else if s.last() == 47u8 {
        spans_behind_slash(s, name);
        assert(path::components(s + name) =~= path::components(s).push(name));
    } else {
        let t = s.push(47u8);
        assert(s + seq![47u8] + name =~= t + name);
        spans_behind_slash(t, name);
        slash_at_the_end(s);
        assert(path::components(t + name) =~= path::components(t).push(name));
    }
}

/// A `.` behind a slash, and a second slash, are no components.
pub proof fn dots_and_slashes_do_not_count(s: Seq<u8>)
    requires
        s.len() > 0,
    ensures
        path::components(s + seq![47u8, 46u8]) == path::components(s),
        path::components(s + seq![47u8, 47u8]) == path::components(s),
{
    slash_at_the_end(s);
    let t = s.push(47u8);
    slash_at_the_end(t);
    assert(s + seq![47u8, 47u8] =~= t.push(47u8));
    let u = t.push(46u8);
    assert(s + seq![47u8, 46u8] =~= u);
    assert(u.drop_last() =~= t);
    assert(t.drop_last() =~= s);
    assert(u.subrange(t.len() as int, u.len() as int) =~= seq![46u8]);
    assert(t.subrange(t.len() as int, t.len() as int) =~= Seq::<u8>::empty());
    assert(path::scan(u) == path::scan(t));
    assert(path::spans(u) =~= path::spans(t));
}

/// A path is below another one if and only if it has all its components and then more, or no more.
pub proof fn below(s: Seq<u8>, base: Seq<u8>)
    ensures
        path::path_starts_with(s, base) <==> exists|rest: Seq<Seq<u8>>|
            path::components(s) == #[trigger] (path::components(base) + rest),
{
    let a = path::components(s);
    let b = path::components(base);
    if path::path_starts_with(s, base) {
        assert(a =~= b + a.skip(b.len() as int));
    }
    if exists|rest: Seq<Seq<u8>>| a == #[trigger] (b + rest) {
        let rest = choose|rest: Seq<Seq<u8>>| a == #[trigger] (b + rest);
        assert(b =~= a.take(b.len() as int));
    }
}

/// A path ends with another one if and only if the components of that are its last ones.
pub proof fn ends_with(s: Seq<u8>, tail: Seq<u8>)
    ensures
        path::path_ends_with(s, tail) <==> exists|first: Seq<Seq<u8>>|
            path::components(s) == #[trigger] (first + path::components(tail)),
{
    let a = path::components(s);
    let b = path::components(tail);
    if path::path_ends_with(s, tail) {
        assert(a =~= a.take(a.len() - b.len()) + b);
    }
    if exists|first: Seq<Seq<u8>>| a == #[trigger] (first + b) {
        let first = choose|first: Seq<Seq<u8>>| a == #[trigger] (first + b);
        assert(b =~= a.skip(a.len() - b.len()));
    }
}

/// The path is spelled up to its last component: it ends neither with a slash nor with `/.`.
pub open spec fn is_plain(s: Seq<u8>) -> bool {
    &&& s.len() > 0
    &&& s.last() != 47u8
    &&& !(s.len() > 1 && s.last() == 46u8 && s[s.len() - 2] == 47u8)
}

proof fn last_span_of_plain(s: Seq<u8>)
    requires
        is_plain(s),
    ensures
        path::spans(s).len() > 0,
        path::spans(s).last().1 == s.len(),
        path::spans(s).last().0 != seq![47u8],
{
    plain_scan(s);
    let (done, start) = path::scan(s);
    let piece = s.subrange(start as int, s.len() as int);
    assert(piece[piece.len() - 1] == s.last());
    if piece == seq![46u8] && start != 0 {
        assert(piece.len() == 1);
        assert(s[s.len() - 2] == 47u8);
    }
    assert(path::piece_spans(piece, start) == seq![(piece, start + piece.len())]);
    assert(path::spans(s).last() == (piece, start + piece.len()));
    assert(piece == seq![47u8] ==> piece[0] == 47u8 && piece.len() == 1);
}

proof fn plain_scan(s: Seq<u8>)
    requires
        s.len() > 0,
    ensures
        path::scan(s).1 <= s.len(),
        s.last() != 47u8 ==> path::scan(s).1 < s.len(),
        path::scan(s).1 > 0 ==> s[path::scan(s).1 - 1] == 47u8,
    decreases s.len(),
{
    let t = s.drop_last();
    if t.len() > 0 {
        plain_scan(t);
        if s.last() != 47u8 && path::scan(t).1 > 0 {
            assert(s[path::scan(t).1 - 1] == t[path::scan(t).1 - 1]);
        }
    } else {
        assert(path::scan(t).1 == 0);
    }
}

/// A path that is not the root and not empty has a parent. The parent of a name in a directory is
/// that directory, spelled in the same way.
pub proof fn parent_of_a_name(s: Seq<u8>, name: Seq<u8>)
    requires
        is_plain(s),
        is_name(name),
    ensures
        path::path_parent(path::path_join(s, name)) == Some(s),
        path::path_parent(seq![47u8] + name) == Some(seq![47u8]),
        path::path_parent(name) == Some(Seq::<u8>::empty()),
        path::path_parent(seq![47u8]) is None,
        path::path_parent(Seq::<u8>::empty()) is None,
{
    joined_name(s, name);
    let t = s.push(47u8);
    let all = t + name;
    assert(s + seq![47u8] + name =~= all);
    spans_behind_slash(t, name);
    last_span_of_plain(s);
    assert(t.drop_last() =~= s);
    assert(path::scan(t).0 == path::spans(s));
    assert(name != seq![47u8]) by {
        assert(name.contains(name[0]));
    }
    let spans = path::spans(all);
    assert(spans.last() == (name, all.len()));
    assert(spans[spans.len() - 2] == path::spans(s).last());
    assert(all.take(s.len() as int) =~= s);
    let root = seq![47u8];
    components_of_the_shortest_paths();
    let none = Seq::<u8>::empty();
    assert(root.drop_last() =~= none);
    spans_behind_slash(root, name);
    assert(path::scan(root).0 == seq![(root, 1nat)]);
    assert((root + name).take(1) =~= root);
    scan_of_name(none, name);
    assert(none + name =~= name);
    assert(name.subrange(0, name.len() as int) =~= name);
    assert(path::spans(name) =~= seq![(name, name.len())]);
    assert(root.subrange(1, 1) =~= none);
    assert(path::spans(root) =~= seq![(root, 1nat)]);
    assert(none.subrange(0, 0) =~= none);
    assert(path::spans(none) =~= Seq::<(Seq<u8>, nat)>::empty());
}

/// The parent has all components but the last one, whatever the spelling, and there is none just
/// for the root and for a path without components.
pub proof fn parent_by_components(s: Seq<u8>)
    ensures
        match path::path_parent(s) {
            Some(up) => path::components(s).len() > 0 && path::components(up)
                == path::components(s).drop_last(),
            None => path::components(s).len() == 0 || path::components(s).last() == seq![47u8],
        },
{
    path::parent_drops_the_last_component(s);
    if path::path_parent(s) is None && path::spans(s).len() > 0 {
        assert(path::components(s).last() == path::spans(s).last().0);
    }
}

/// The file name of a name in a directory is that name.
pub proof fn file_name_of_a_name(s: Seq<u8>, name: Seq<u8>)
    requires
        is_name(name),
        name != seq![46u8, 46u8],
    ensures
        path::path_file_name(path::path_join(s, name)) == Some(name),
        path::path_file_name(seq![47u8]) is None,
{
    joined_name(s, name);
    components_of_the_shortest_paths();
    assert(name != seq![47u8]) by {
        assert(name.contains(name[0]));
    }
}

/// A file name is the last component.
pub proof fn file_name_is_the_last_component(s: Seq<u8>)
    ensures
        path::path_file_name(s) matches Some(name) ==> path::components(s).len() > 0
            && path::components(s).last() == name,
{
}

/// The directories from a name in a directory up are that path and those from the directory up.
pub proof fn ancestors_of_a_name(s: Seq<u8>, name: Seq<u8>)
    requires
        is_plain(s),
        is_name(name),
    ensures
        path::ancestors(path::path_join(s, name)) == seq![path::path_join(s, name)]
            + path::ancestors(s),
        path::ancestors(seq![47u8] + name) == seq![seq![47u8] + name, seq![47u8]],
{
    parent_of_a_name(s, name);
    let all = path::path_join(s, name);
    path::ancestors_start(all);
    path::ancestors_start(seq![47u8] + name);
    path::ancestors_start(seq![47u8]);
    assert(path::ancestors(all) =~= seq![all] + path::ancestors(s)) by {
        let up = path::ancestors(all);
        assert(up =~= seq![up[0]] + up.skip(1));
    }
    let short = path::ancestors(seq![47u8] + name);
    assert(short =~= seq![short[0]] + short.skip(1));
    assert(path::ancestors(seq![47u8]) =~= seq![seq![47u8]]);
    assert(short =~= seq![seq![47u8] + name, seq![47u8]]);
}

/// The root comes before `.`, that before `..`, and that before every name.
pub proof fn kinds_of_components_in_order(k: Seq<Seq<u8>>, name: Seq<u8>)
    requires
        is_name(name),
        name != seq![46u8, 46u8],
    ensures
        <FilePath as Ordered>::before(k.push(seq![47u8]), k.push(seq![46u8])),
        <FilePath as Ordered>::before(k.push(seq![46u8]), k.push(seq![46u8, 46u8])),
        <FilePath as Ordered>::before(k.push(seq![46u8, 46u8]), k.push(name)),
{
    let n = k.len() as int;
    let by_component = path::component_order();
    let root = seq![47u8];
    let dot = seq![46u8];
    let up = seq![46u8, 46u8];
    assert(name.contains(name[0]));
    assert(root[0] == 47u8 && dot[0] == 46u8 && up[0] == 46u8 && up.len() == 2 && dot.len() == 1);
    assert(path::component_rank(root) == 0 && path::component_rank(dot) == 1);
    assert(path::component_rank(up) == 2 && path::component_rank(name) == 3);
    assert(order::parts_at(by_component, k.push(root), k.push(dot), n));
    assert(order::parts_at(by_component, k.push(dot), k.push(up), n));
    assert(order::parts_at(by_component, k.push(up), k.push(name), n));
}

/// A directory comes before what is in it, and of two names in a directory, with all that is in
/// them, the one comes first that is less in the first byte in which they differ.
pub proof fn paths_in_order(
    k: Seq<Seq<u8>>,
    a: Seq<u8>,
    in_a: Seq<Seq<u8>>,
    b: Seq<u8>,
    in_b: Seq<Seq<u8>>,
    i: int,
)
    requires
        is_name(a),
        is_name(b),
        a != seq![46u8, 46u8],
        b != seq![46u8, 46u8],
        0 <= i < a.len(),
        i < b.len(),
        a.take(i) == b.take(i),
        a[i] < b[i],
    ensures
        <FilePath as Ordered>::before(k, k.push(a) + in_a),
        <FilePath as Ordered>::before(k.push(a) + in_a, k.push(b) + in_b),
        !<FilePath as Ordered>::before(k.push(b) + in_b, k.push(a) + in_a),
{
    let n = k.len() as int;
    let x = k.push(a) + in_a;
    let y = k.push(b) + in_b;
    let by_component = path::component_order();
    assert(a.contains(a[0]) && b.contains(b[0]));
    assert(a[0] != 47u8 && b[0] != 47u8);
    assert(path::component_rank(a) == 3 && path::component_rank(b) == 3);
    assert forall|j: int| 0 <= j < i implies #[trigger] a[j] == b[j] by {
        assert(a.take(i)[j] == a[j] && b.take(i)[j] == b[j]);
    }
    assert(order::parts_at(path::byte_order(), a, b, i));
    assert(path::component_before(a, b));
    assert(x[n] == a && y[n] == b);
    assert(order::parts_at(by_component, x, y, n));
    assert(order::parts_at(by_component, k, x, n));
    <FilePath as Ordered>::before_is_irreflexive(x);
    if <FilePath as Ordered>::before(y, x) {
        <FilePath as Ordered>::before_is_transitive(x, y, x);
    }
}

} // verus!
