//! Laws of the orders of things, and of sets that are kept in order.
use vstd::prelude::*;

use crate::commands::event::{Event, EventView};
use crate::commands::monitor;
use crate::commands::monitor::{MonitorView, OrderView};
use crate::diff::Exclusion;
use crate::order;
use crate::order::Ordered;
use crate::path;
use crate::path::FilePath;
use crate::sort;
use crate::sorted_set;
use crate::text;

verus! {

/// An item is in a set if and only if some place has one with its key; in a set no two places have
/// the same key, and what stands before comes before.
pub proof fn sets_are_in_order<T: Ordered>(s: Seq<T::V>, k: T::Key)
    ensures
        sorted_set::has_key::<T>(s, k) <==> exists|i: int|
            0 <= i < s.len() && T::key(#[trigger] s[i]) == k,
        sorted_set::increasing::<T>(s) ==> forall|i: int, j: int|
            0 <= i < j < s.len() ==> T::before(T::key(#[trigger] s[i]), T::key(#[trigger] s[j]))
                && T::key(s[i]) != T::key(s[j]),
        sort::sorted::<T>(s) ==> forall|i: int, j: int|
            0 <= i < j < s.len() ==> T::before(T::key(#[trigger] s[i]), T::key(#[trigger] s[j]))
                || T::key(s[i]) == T::key(s[j]),
{
    if sorted_set::increasing::<T>(s) {
        assert forall|i: int, j: int| 0 <= i < j < s.len() implies T::before(
            T::key(#[trigger] s[i]),
            T::key(#[trigger] s[j]),
        ) && T::key(s[i]) != T::key(s[j]) by {
            T::before_is_irreflexive(T::key(s[i]));
        }
    }
    if sort::sorted::<T>(s) {
        assert forall|i: int, j: int| 0 <= i < j < s.len() implies T::before(
            T::key(#[trigger] s[i]),
            T::key(#[trigger] s[j]),
        ) || T::key(s[i]) == T::key(s[j]) by {
            T::before_is_total(T::key(s[i]), T::key(s[j]));
        }
    }
}

/// Of several items with one key the first that came stays.
pub proof fn first_item_stays<T: Ordered>(s: Seq<T::V>, t: Seq<T::V>, v: T::V)
    requires
        sorted_set::increasing::<T>(s),
    ensures
        sorted_set::has_key::<T>(s, T::key(v)) ==> sorted_set::inserted::<T>(s, v) == s,
        !sorted_set::has_key::<T>(s, T::key(v)) ==> sorted_set::inserted::<T>(s, v).contains(v)
            && sorted_set::inserted::<T>(s, v).len() == s.len() + 1,
        sorted_set::extended::<T>(s, t.push(v)) == sorted_set::inserted::<T>(
            sorted_set::extended::<T>(s, t),
            v,
        ),
        sorted_set::extended::<T>(s, Seq::empty()) == s,
{
    sorted_set::inserted_laws::<T>(s, v);
    sorted_set::slot_parts::<T>(s, T::key(v));
    assert(t.push(v).drop_last() =~= t);
}

/// Texts are ordered by the first character in which they differ, and a text comes before what
/// begins with it.
pub proof fn texts_in_order(
    head: Seq<char>,
    a: char,
    b: char,
    behind_a: Seq<char>,
    behind_b: Seq<char>,
)
    requires
        (a as u32) < (b as u32),
    ensures
        <String as Ordered>::before(head, head.push(a) + behind_a),
        <String as Ordered>::before(head.push(a) + behind_a, head.push(b) + behind_b),
{
    let x = head.push(a) + behind_a;
    let y = head.push(b) + behind_b;
    let n = head.len() as int;
    assert(x[n] == a && y[n] == b);
    assert(order::parts_at(text::char_order(), x, y, n));
    assert(order::parts_at(text::char_order(), head, x, n));
}

/// Exclusions are ordered by their paths; of those for one path the one without a repository is
/// first, and the others are ordered by their repositories.
pub proof fn exclusions_in_order(
    a: Seq<Seq<u8>>,
    b: Seq<Seq<u8>>,
    r: Option<Seq<Seq<u8>>>,
    q: Option<Seq<Seq<u8>>>,
)
    requires
        <FilePath as Ordered>::before(a, b),
    ensures
        <Exclusion as Ordered>::before((a, r), (b, q)),
        <Exclusion as Ordered>::before((a, None), (a, Some(b))),
        <Exclusion as Ordered>::before((a, Some(a)), (a, Some(b))),
        !<Exclusion as Ordered>::before((a, Some(b)), (a, None)),
{
    <FilePath as Ordered>::before_is_irreflexive(a);
}

/// Two requests to scan paths are the same event if and only if they have the same paths; an event
/// of one kind is never one of another.
pub proof fn events_are_told_apart(x: Seq<Seq<u8>>, y: Seq<Seq<u8>>, e: EventView, f: EventView)
    ensures
        <Event as Ordered>::key(EventView::ScanPaths(x)) == <Event as Ordered>::key(
            EventView::ScanPaths(y),
        ) <==> x.len() == y.len() && forall|i: int|
            #![trigger x[i]]
            0 <= i < x.len() ==> path::components(x[i]) == path::components(y[i]),
        <Event as Ordered>::key(e) == <Event as Ordered>::key(f) && !(e is ScanPaths) ==> e == f,
{
    let a = x.map_values(|p: Seq<u8>| path::components(p));
    let b = y.map_values(|p: Seq<u8>| path::components(p));
    let k = <Event as Ordered>::key(EventView::ScanPaths(x));
    let m = <Event as Ordered>::key(EventView::ScanPaths(y));
    assert(k.1 =~= a && m.1 =~= b);
    if k == m {
        assert(a == b);
        assert(a.len() == x.len() && b.len() == y.len());
        assert forall|i: int| #![trigger x[i]] 0 <= i < x.len() implies path::components(x[i])
            == path::components(y[i]) by {
            assert(a[i] == path::components(x[i]) && b[i] == path::components(y[i]));
        }
    }
    if x.len() == y.len() && forall|i: int|
        #![trigger x[i]]
        0 <= i < x.len() ==> path::components(x[i]) == path::components(y[i]) {
        assert(a =~= b);
    }
}

/// An order to the threads comes behind those that were given before, and an event that the monitor
/// gives itself is added to those that are pending.
pub proof fn orders_are_given_in_turn(
    before: MonitorView,
    order: OrderView,
    e: EventView,
)
    requires
        sorted_set::increasing::<Event>(before.pending_events),
    ensures
        monitor::with_order(before, order).orders == before.orders.push(order),
        monitor::with_order(before, order).pending_events == before.pending_events,
        monitor::with_event(before, e).orders == before.orders,
        sorted_set::has_key::<Event>(
            monitor::with_event(before, e).pending_events,
            <Event as Ordered>::key(e),
        ),
        forall|f: EventView|
            before.pending_events.contains(f) ==> #[trigger] monitor::with_event(
                before,
                e,
            ).pending_events.contains(f),
{
    sorted_set::inserted_laws::<Event>(before.pending_events, e);
    assert(sorted_set::has_key::<Event>(
        monitor::with_event(before, e).pending_events,
        <Event as Ordered>::key(e),
    ));
}

} // verus!
