//! Sorting.
use vstd::prelude::*;

use crate::order::{Ordered, Rank};
use crate::sorted_set;
use crate::sorted_set::reverse;

verus! {

/// No item comes before an earlier one.
pub open spec fn sorted<T: Ordered>(s: Seq<T::V>) -> bool {
    forall|i: int, j: int|
        0 <= i < j < s.len() ==> !T::before(T::key(#[trigger] s[j]), T::key(#[trigger] s[i]))
}

proof fn not_after_is_transitive<T: Ordered>(a: T::Key, b: T::Key, c: T::Key)
    requires
        !T::before(b, a),
        !T::before(c, b),
    ensures
        !T::before(c, a),
{
    if T::before(c, a) {
        T::before_is_total(a, b);
        T::before_is_total(b, c);
        if T::before(a, b) {
            T::before_is_transitive(c, a, b);
        }
    }
}

/// What stands in `low` may precede what stands in `high`.
spec fn all_below<T: Ordered>(low: Seq<T::V>, high: Seq<T::V>) -> bool {
    forall|i: int, j: int|
        0 <= i < low.len() && 0 <= j < high.len() ==> !T::before(
            T::key(#[trigger] high[j]),
            T::key(#[trigger] low[i]),
        )
}

proof fn last_tops<T: Ordered>(s: Seq<T::V>, k: T::Key)
    requires
        sorted::<T>(s),
        s.len() > 0,
        !T::before(k, T::key(s.last())),
    ensures
        forall|i: int| 0 <= i < s.len() ==> !T::before(k, T::key(#[trigger] s[i])),
{
    assert forall|i: int| 0 <= i < s.len() implies !T::before(k, T::key(#[trigger] s[i])) by {
        if i < s.len() - 1 {
            not_after_is_transitive::<T>(T::key(s[i]), T::key(s.last()), k);
        }
    }
}

/// Moves the last item of `from` to the end of `out`.
fn move_last<T: Ordered>(from: &mut Vec<T>, out: &mut Vec<T>)
    requires
        old(from)@.len() > 0,
        sorted::<T>(sorted_set::item_views(old(from)@)),
        all_below::<T>(sorted_set::item_views(old(from)@), sorted_set::item_views(old(out)@)),
        sorted::<T>(sorted_set::item_views(old(out)@).reverse()),
    ensures
        final(from)@.len() == old(from)@.len() - 1,
        sorted_set::item_views(final(from)@) == sorted_set::item_views(old(from)@).drop_last(),
        sorted_set::item_views(final(out)@) == sorted_set::item_views(old(out)@).push(
            sorted_set::item_views(old(from)@).last(),
        ),
        sorted::<T>(sorted_set::item_views(final(from)@)),
        all_below::<T>(sorted_set::item_views(final(from)@), sorted_set::item_views(final(out)@)),
        sorted::<T>(sorted_set::item_views(final(out)@).reverse()),
        sorted_set::item_views(final(from)@).to_multiset().add(sorted_set::item_views(final(out)@).to_multiset())
            == sorted_set::item_views(old(from)@).to_multiset().add(
            sorted_set::item_views(old(out)@).to_multiset(),
        ),
{
    let ghost a = sorted_set::item_views(from@);
    let ghost o = sorted_set::item_views(out@);
    match from.pop() {
        Some(item) => {
            out.push(item);
        },
        None => {},
    }
    proof {
        let a2 = sorted_set::item_views(from@);
        let o2 = sorted_set::item_views(out@);
        assert(a2 =~= a.drop_last());
        assert(o2 =~= o.push(a.last()));
        assert(a =~= a2.push(a.last()));
        broadcast use vstd::seq_lib::group_to_multiset_ensures;

        assert(a.to_multiset() =~= a2.to_multiset().insert(a.last()));
        assert(o2.to_multiset() =~= o.to_multiset().insert(a.last()));
        assert(a2.to_multiset().add(o2.to_multiset()) =~= a.to_multiset().add(o.to_multiset()));
        let r = o.reverse();
        let r2 = o2.reverse();
        assert(r2 =~= seq![a.last()] + r);
        assert forall|i: int, j: int| 0 <= i < j < r2.len() implies !T::before(
            T::key(#[trigger] r2[j]),
            T::key(#[trigger] r2[i]),
        ) by {
            if i == 0 {
                assert(r2[j] == o[o.len() - j]);
                assert(a[a.len() - 1] == r2[0]);
            } else {
                assert(r2[j] == r[j - 1]);
                assert(r2[i] == r[i - 1]);
            }
        }
        assert forall|i: int, j: int| 0 <= i < a2.len() && 0 <= j < o2.len() implies !T::before(
            T::key(#[trigger] o2[j]),
            T::key(#[trigger] a2[i]),
        ) by {
            assert(a2[i] == a[i]);
            if j < o.len() {
                assert(o2[j] == o[j]);
            } else {
                assert(o2[j] == a[a.len() - 1]);
            }
        }
    }
}

fn merge<T: Ordered>(left: Vec<T>, right: Vec<T>) -> (all: Vec<T>)
    requires
        sorted::<T>(sorted_set::item_views(left@)),
        sorted::<T>(sorted_set::item_views(right@)),
    ensures
        sorted::<T>(sorted_set::item_views(all@)),
        sorted_set::item_views(all@).to_multiset() == sorted_set::item_views(left@).to_multiset().add(
            sorted_set::item_views(right@).to_multiset(),
        ),
{
    let mut a = left;
    let mut b = right;
    let mut out: Vec<T> = Vec::new();
    let ghost total = sorted_set::item_views(left@).to_multiset().add(
        sorted_set::item_views(right@).to_multiset(),
    );
    proof {
        broadcast use vstd::seq_lib::group_to_multiset_ensures;

        assert(sorted_set::item_views(out@) =~= Seq::<T::V>::empty());
        assert(total.add(Seq::<T::V>::empty().to_multiset()) =~= total);
    }
    while a.len() > 0 || b.len() > 0
        invariant
            sorted::<T>(sorted_set::item_views(a@)),
            sorted::<T>(sorted_set::item_views(b@)),
            sorted::<T>(sorted_set::item_views(out@).reverse()),
            all_below::<T>(sorted_set::item_views(a@), sorted_set::item_views(out@)),
            all_below::<T>(sorted_set::item_views(b@), sorted_set::item_views(out@)),
            sorted_set::item_views(a@).to_multiset().add(sorted_set::item_views(b@).to_multiset()).add(
                sorted_set::item_views(out@).to_multiset(),
            ) == total,
        decreases a@.len() + b@.len(),
    {
        let ghost va = sorted_set::item_views(a@);
        let ghost vb = sorted_set::item_views(b@);
        let ghost vo = sorted_set::item_views(out@);
        let from_left = if a.len() == 0 {
            false
        } else if b.len() == 0 {
            true
        } else {
            match a[a.len() - 1].compare(&b[b.len() - 1]) {
                Rank::Greater => {
                    proof {
                        T::before_is_irreflexive(T::key(vb.last()));
                        if T::before(T::key(va.last()), T::key(vb.last())) {
                            T::before_is_transitive(
                                T::key(vb.last()),
                                T::key(va.last()),
                                T::key(vb.last()),
                            );
                        }
                        last_tops::<T>(vb, T::key(va.last()));
                    }
                    true
                },
                Rank::Less => {
                    proof {
                        T::before_is_irreflexive(T::key(vb.last()));
                        if T::before(T::key(vb.last()), T::key(va.last())) {
                            T::before_is_transitive(
                                T::key(vb.last()),
                                T::key(va.last()),
                                T::key(vb.last()),
                            );
                        }
                        last_tops::<T>(va, T::key(vb.last()));
                    }
                    false
                },
                Rank::Equal => {
                    proof {
                        T::before_is_irreflexive(T::key(vb.last()));
                        last_tops::<T>(va, T::key(vb.last()));
                    }
                    false
                },
            }
        };
        if from_left {
            move_last(&mut a, &mut out);
            proof {
                let vo2 = sorted_set::item_views(out@);
                assert forall|i: int, j: int| 0 <= i < vb.len() && 0 <= j < vo2.len() implies
                    !T::before(T::key(#[trigger] vo2[j]), T::key(#[trigger] vb[i])) by {
                    if j < vo.len() {
                        assert(vo2[j] == vo[j]);
                    }
                }
                assert(sorted_set::item_views(a@).to_multiset().add(vb.to_multiset()).add(
                    vo2.to_multiset(),
                ) =~= va.to_multiset().add(vo.to_multiset()).add(vb.to_multiset()));
                assert(va.to_multiset().add(vo.to_multiset()).add(vb.to_multiset()) =~= total);
            }
        } else {
            move_last(&mut b, &mut out);
            proof {
                let vo2 = sorted_set::item_views(out@);
                assert forall|i: int, j: int| 0 <= i < va.len() && 0 <= j < vo2.len() implies
                    !T::before(T::key(#[trigger] vo2[j]), T::key(#[trigger] va[i])) by {
                    if j < vo.len() {
                        assert(vo2[j] == vo[j]);
                    }
                }
                assert(va.to_multiset().add(sorted_set::item_views(b@).to_multiset()).add(
                    vo2.to_multiset(),
                ) =~= vb.to_multiset().add(vo.to_multiset()).add(va.to_multiset()));
                assert(vb.to_multiset().add(vo.to_multiset()).add(va.to_multiset()) =~= total);
            }
        }
    }
    let ghost down = sorted_set::item_views(out@);
    reverse(&mut out);
    proof {
        broadcast use vstd::seq_lib::group_to_multiset_ensures;

        assert(sorted_set::item_views(a@) =~= Seq::<T::V>::empty());
        assert(sorted_set::item_views(b@) =~= Seq::<T::V>::empty());
        assert(down.to_multiset() =~= total);
        assert(sorted_set::item_views(out@) =~= down.reverse());
        reverse_keeps(down);
    }
    out
}

proof fn reverse_keeps<A>(s: Seq<A>)
    ensures
        s.reverse().to_multiset() == s.to_multiset(),
    decreases s.len(),
{
    broadcast use vstd::seq_lib::group_to_multiset_ensures;

    if s.len() == 0 {
        assert(s.reverse() =~= s);
    } else {
        let t = s.drop_last();
        reverse_keeps(t);
        assert(s =~= t.push(s.last()));
        assert(s.reverse() =~= seq![s.last()] + t.reverse());
        vstd::seq_lib::lemma_multiset_commutative(seq![s.last()], t.reverse());
        assert(seq![s.last()] =~= Seq::<A>::empty().push(s.last()));
        assert(s.reverse().to_multiset() =~= t.to_multiset().insert(s.last()));
    }
}

/// Puts items in their order.
pub fn sort<T: Ordered>(items: Vec<T>) -> (all: Vec<T>)
    ensures
        sorted::<T>(sorted_set::item_views(all@)),
        sorted_set::item_views(all@).to_multiset() == sorted_set::item_views(items@).to_multiset(),
    decreases items@.len(),
{
    let n: usize = items.len();
    if n <= 1 {
        return items;
    }
    let mut left = items;
    let half: usize = n / 2;
    let right = left.split_off(half);
    proof {
        let v = sorted_set::item_views(items@);
        assert(v =~= sorted_set::item_views(left@) + sorted_set::item_views(right@));
        vstd::seq_lib::lemma_multiset_commutative(
            sorted_set::item_views(left@),
            sorted_set::item_views(right@),
        );
    }
    let a = sort(left);
    let b = sort(right);
    merge(a, b)
}

/// The items without those that follow one with the same key.
pub open spec fn deduped<T: Ordered>(s: Seq<T::V>) -> Seq<T::V>
    decreases s.len(),
{
    if s.len() == 0 {
        s
    } else {
        let kept = deduped::<T>(s.drop_last());
        if kept.len() > 0 && T::key(kept.last()) == T::key(s.last()) {
            kept
        } else {
            kept.push(s.last())
        }
    }
}

/// Removing the repeated items of a sorted sequence leaves each key once.
pub proof fn deduped_laws<T: Ordered>(s: Seq<T::V>)
    requires
        sorted::<T>(s),
    ensures
        sorted_set::increasing::<T>(deduped::<T>(s)),
        forall|k: T::Key| #[trigger]
            sorted_set::has_key::<T>(deduped::<T>(s), k) <==> sorted_set::has_key::<T>(s, k),
        forall|x: T::V| #[trigger] deduped::<T>(s).contains(x) ==> s.contains(x),
        s.len() > 0 ==> deduped::<T>(s).len() > 0 && T::key(deduped::<T>(s).last()) == T::key(
            s.last(),
        ),
    decreases s.len(),
{
    if s.len() > 0 {
        let init = s.drop_last();
        let kept = deduped::<T>(init);
        let all = deduped::<T>(s);
        assert(sorted::<T>(init)) by {
            assert forall|i: int, j: int| 0 <= i < j < init.len() implies !T::before(
                T::key(#[trigger] init[j]),
                T::key(#[trigger] init[i]),
            ) by {
                assert(init[i] == s[i] && init[j] == s[j]);
            }
        }
        deduped_laws::<T>(init);
        if kept.len() > 0 && T::key(kept.last()) == T::key(s.last()) {
        } else {
            assert forall|i: int, j: int| 0 <= i < j < all.len() implies T::before(
                T::key(#[trigger] all[i]),
                T::key(#[trigger] all[j]),
            ) by {
                if j == kept.len() {
                    assert(all[i] == kept[i]);
                    assert(s[s.len() - 2] == init.last());
                    assert(s[s.len() - 1] == s.last());
                    T::before_is_total(T::key(kept.last()), T::key(s.last()));
                    if i < kept.len() - 1 {
                        T::before_is_transitive(
                            T::key(kept[i]),
                            T::key(kept.last()),
                            T::key(s.last()),
                        );
                    }
                } else {
                    assert(all[i] == kept[i]);
                    assert(all[j] == kept[j]);
                }
            }
            assert(all[kept.len() as int] == s.last());
        }
        assert forall|k: T::Key| #[trigger]
            sorted_set::has_key::<T>(all, k) <==> sorted_set::has_key::<T>(s, k) by {
            assert(sorted_set::has_key::<T>(kept, k) <==> sorted_set::has_key::<T>(init, k));
            if sorted_set::has_key::<T>(s, k) {
                let i = choose|i: int| 0 <= i < s.len() && T::key(#[trigger] s[i]) == k;
                if i < init.len() {
                    assert(init[i] == s[i]);
                    let j = choose|j: int| 0 <= j < kept.len() && T::key(#[trigger] kept[j]) == k;
                    assert(all[j] == kept[j]);
                } else {
                    assert(all[all.len() - 1] == all.last());
                }
            }
            if sorted_set::has_key::<T>(all, k) {
                let i = choose|i: int| 0 <= i < all.len() && T::key(#[trigger] all[i]) == k;
                if i < kept.len() {
                    assert(kept[i] == all[i]);
                    let j = choose|j: int| 0 <= j < init.len() && T::key(#[trigger] init[j]) == k;
                    assert(s[j] == init[j]);
                } else {
                    assert(s[s.len() - 1] == all[i]);
                }
            }
        }
        assert forall|x: T::V| #[trigger] all.contains(x) implies s.contains(x) by {
            let i = choose|i: int| 0 <= i < all.len() && all[i] == x;
            if i < kept.len() {
                assert(kept[i] == x);
                assert(kept.contains(x));
                let j = choose|j: int| 0 <= j < init.len() && init[j] == x;
                assert(s[j] == x);
            } else {
                assert(s[s.len() - 1] == x);
            }
        }
    }
}

/// Removes the items that follow one with the same key.
pub fn dedup<T: Ordered>(items: Vec<T>) -> (kept: Vec<T>)
    ensures
        sorted_set::item_views(kept@) == deduped::<T>(sorted_set::item_views(items@)),
{
    let ghost all = sorted_set::item_views(items@);
    let mut rest = items;
    reverse(&mut rest);
    let mut kept: Vec<T> = Vec::new();
    let ghost mut n: int = 0;
    assert(all.take(0) =~= Seq::<T::V>::empty());
    assert(sorted_set::item_views(kept@) =~= Seq::<T::V>::empty());
    while rest.len() > 0
        invariant
            0 <= n,
            n + rest@.len() == all.len(),
            forall|j: int| 0 <= j < rest@.len() ==> (#[trigger] rest@[j])@ == all[all.len() - 1
                - j],
            sorted_set::item_views(kept@) == deduped::<T>(all.take(n)),
        decreases rest@.len(),
    {
        match rest.pop() {
            Some(item) => {
                let ghost v = item@;
                let ghost before = sorted_set::item_views(kept@);
                let repeated = if kept.len() == 0 {
                    false
                } else {
                    assert(before.last() == kept@[kept@.len() - 1]@);
                    match kept[kept.len() - 1].compare(&item) {
                        Rank::Equal => true,
                        Rank::Less => {
                            proof {
                                T::before_is_irreflexive(T::key(v));
                            }
                            false
                        },
                        Rank::Greater => {
                            proof {
                                T::before_is_irreflexive(T::key(v));
                            }
                            false
                        },
                    }
                };
                if !repeated {
                    kept.push(item);
                    assert(sorted_set::item_views(kept@) =~= before.push(v));
                }
                proof {
                    assert(all.take(n + 1).drop_last() =~= all.take(n));
                    assert(all.take(n + 1).last() == v);
                    n = n + 1;
                }
            },
            None => {},
        }
    }
    assert(all.take(n) =~= all);
    kept
}

} // verus!
