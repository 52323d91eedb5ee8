//! Sets that are kept in the order of their items.
use vstd::prelude::*;

use crate::order::{Ordered, Rank};

verus! {

/// An item with this key is in `s`.
pub open spec fn has_key<T: Ordered>(s: Seq<T::V>, k: T::Key) -> bool {
    exists|i: int| 0 <= i < s.len() && T::key(#[trigger] s[i]) == k
}

/// Every item comes before the next, so no two have the same key.
pub open spec fn increasing<T: Ordered>(s: Seq<T::V>) -> bool {
    forall|i: int, j: int|
        0 <= i < j < s.len() ==> T::before(T::key(#[trigger] s[i]), T::key(#[trigger] s[j]))
}

/// How many items at the start of `s` come before the key.
pub open spec fn slot<T: Ordered>(s: Seq<T::V>, k: T::Key) -> int
    decreases s.len(),
{
    if s.len() == 0 || !T::before(T::key(s[0]), k) {
        0
    } else {
        1 + slot::<T>(s.drop_first(), k)
    }
}

/// `s` with `v` at its place, unless an item with the same key is there.
pub open spec fn inserted<T: Ordered>(s: Seq<T::V>, v: T::V) -> Seq<T::V> {
    if has_key::<T>(s, T::key(v)) {
        s
    } else {
        s.insert(slot::<T>(s, T::key(v)), v)
    }
}

/// `s` with the items of `t` inserted, one after the other.
pub open spec fn extended<T: Ordered>(s: Seq<T::V>, t: Seq<T::V>) -> Seq<T::V>
    decreases t.len(),
{
    if t.len() == 0 {
        s
    } else {
        inserted::<T>(extended::<T>(s, t.drop_last()), t.last())
    }
}

/// In an increasing sequence the place of a key parts the smaller items from the others.
pub proof fn slot_parts<T: Ordered>(s: Seq<T::V>, k: T::Key)
    requires
        increasing::<T>(s),
    ensures
        0 <= slot::<T>(s, k) <= s.len(),
        forall|i: int| 0 <= i < slot::<T>(s, k) ==> T::before(T::key(#[trigger] s[i]), k),
        forall|i: int| slot::<T>(s, k) <= i < s.len() ==> !T::before(T::key(#[trigger] s[i]), k),
    decreases s.len(),
{
    if s.len() > 0 {
        let rest = s.drop_first();
        assert(increasing::<T>(rest)) by {
            assert forall|i: int, j: int| 0 <= i < j < rest.len() implies T::before(
                T::key(#[trigger] rest[i]),
                T::key(#[trigger] rest[j]),
            ) by {
                assert(rest[i] == s[i + 1]);
                assert(rest[j] == s[j + 1]);
            }
        }
        slot_parts::<T>(rest, k);
        if T::before(T::key(s[0]), k) {
            assert forall|i: int| 0 <= i < slot::<T>(s, k) implies T::before(
                T::key(#[trigger] s[i]),
                k,
            ) by {
                if i > 0 {
                    assert(rest[i - 1] == s[i]);
                }
            }
            assert forall|i: int| slot::<T>(s, k) <= i < s.len() implies !T::before(
                T::key(#[trigger] s[i]),
                k,
            ) by {
                assert(rest[i - 1] == s[i]);
            }
        } else {
            assert forall|i: int| 0 <= i < s.len() implies !T::before(T::key(#[trigger] s[i]), k) by {
                if i > 0 && T::before(T::key(s[i]), k) {
                    T::before_is_transitive(T::key(s[0]), T::key(s[i]), k);
                }
            }
        }
    }
}

/// A place that parts the smaller items from the others is the place of the key.
proof fn slot_is<T: Ordered>(s: Seq<T::V>, k: T::Key, at: int)
    requires
        0 <= at <= s.len(),
        forall|i: int| 0 <= i < at ==> T::before(T::key(#[trigger] s[i]), k),
        at < s.len() ==> !T::before(T::key(s[at]), k),
    ensures
        slot::<T>(s, k) == at,
    decreases s.len(),
{
    if at > 0 {
        let rest = s.drop_first();
        assert(T::before(T::key(s[0]), k));
        assert forall|i: int| 0 <= i < at - 1 implies T::before(T::key(#[trigger] rest[i]), k) by {
            assert(rest[i] == s[i + 1]);
        }
        slot_is::<T>(rest, k, at - 1);
    }
}

/// Inserting keeps the order, adds just the key of the item, and keeps what was there.
pub proof fn inserted_laws<T: Ordered>(s: Seq<T::V>, v: T::V)
    requires
        increasing::<T>(s),
    ensures
        increasing::<T>(inserted::<T>(s, v)),
        forall|k: T::Key| #[trigger]
            has_key::<T>(inserted::<T>(s, v), k) <==> has_key::<T>(s, k) || k == T::key(v),
        forall|x: T::V| #[trigger]
            inserted::<T>(s, v).contains(x) <==> s.contains(x) || (x == v && !has_key::<T>(
                s,
                T::key(v),
            )),
{
    let k = T::key(v);
    slot_parts::<T>(s, k);
    let at = slot::<T>(s, k);
    let new = inserted::<T>(s, v);
    if !has_key::<T>(s, k) {
        assert forall|i: int, j: int| 0 <= i < j < new.len() implies T::before(
            T::key(#[trigger] new[i]),
            T::key(#[trigger] new[j]),
        ) by {
            if i == at {
                assert(new[j] == s[j - 1]);
                T::before_is_total(T::key(s[j - 1]), k);
            } else if j == at {
                assert(new[i] == s[i]);
            } else {
                let a = if i < at {
                    i
                } else {
                    i - 1
                };
                let b = if j < at {
                    j
                } else {
                    j - 1
                };
                assert(new[i] == s[a]);
                assert(new[j] == s[b]);
            }
        }
        assert(new[at] == v);
        assert forall|q: T::Key| #[trigger] has_key::<T>(new, q) <==> has_key::<T>(s, q) || q
            == k by {
            if has_key::<T>(new, q) {
                let i = choose|i: int| 0 <= i < new.len() && T::key(#[trigger] new[i]) == q;
                if i < at {
                    assert(new[i] == s[i]);
                } else if i > at {
                    assert(new[i] == s[i - 1]);
                }
            }
            if has_key::<T>(s, q) {
                let i = choose|i: int| 0 <= i < s.len() && T::key(#[trigger] s[i]) == q;
                if i < at {
                    assert(new[i] == s[i]);
                } else {
                    assert(new[i + 1] == s[i]);
                }
            }
            if q == k {
                assert(T::key(new[at]) == q);
            }
        }
        assert forall|x: T::V| #[trigger] new.contains(x) <==> s.contains(x) || x == v by {
            if new.contains(x) {
                let i = choose|i: int| 0 <= i < new.len() && new[i] == x;
                if i < at {
                    assert(new[i] == s[i]);
                } else if i > at {
                    assert(new[i] == s[i - 1]);
                }
            }
            if s.contains(x) {
                let i = choose|i: int| 0 <= i < s.len() && s[i] == x;
                if i < at {
                    assert(new[i] == s[i]);
                } else {
                    assert(new[i + 1] == s[i]);
                }
            }
            if x == v {
                assert(new[at] == x);
            }
        }
    }
}

/// Extending keeps the order, and the keys are those of both.
pub proof fn extended_laws<T: Ordered>(s: Seq<T::V>, t: Seq<T::V>)
    requires
        increasing::<T>(s),
    ensures
        increasing::<T>(extended::<T>(s, t)),
        forall|k: T::Key| #[trigger]
            has_key::<T>(extended::<T>(s, t), k) <==> has_key::<T>(s, k) || has_key::<T>(t, k),
        forall|x: T::V| s.contains(x) ==> #[trigger] extended::<T>(s, t).contains(x),
        forall|x: T::V| #[trigger]
            extended::<T>(s, t).contains(x) ==> s.contains(x) || t.contains(x),
    decreases t.len(),
{
    if t.len() > 0 {
        let init = t.drop_last();
        let mid = extended::<T>(s, init);
        extended_laws::<T>(s, init);
        inserted_laws::<T>(mid, t.last());
        assert forall|k: T::Key| #[trigger] has_key::<T>(extended::<T>(s, t), k) <==> has_key::<T>(
            s,
            k,
        ) || has_key::<T>(t, k) by {
            assert(has_key::<T>(mid, k) <==> has_key::<T>(s, k) || has_key::<T>(init, k));
            if has_key::<T>(t, k) {
                let i = choose|i: int| 0 <= i < t.len() && T::key(#[trigger] t[i]) == k;
                if i < init.len() {
                    assert(init[i] == t[i]);
                }
            }
            if has_key::<T>(init, k) {
                let i = choose|i: int| 0 <= i < init.len() && T::key(#[trigger] init[i]) == k;
                assert(t[i] == init[i]);
            }
            if k == T::key(t.last()) {
                assert(T::key(t[t.len() - 1]) == k);
            }
        }
        assert forall|x: T::V| s.contains(x) implies #[trigger] extended::<T>(s, t).contains(x) by {
            assert(mid.contains(x));
        }
        assert forall|x: T::V| #[trigger] extended::<T>(s, t).contains(x) implies s.contains(x)
            || t.contains(x) by {
            if mid.contains(x) {
                if init.contains(x) {
                    let i = choose|i: int| 0 <= i < init.len() && init[i] == x;
                    assert(t[i] == x);
                }
            } else {
                assert(t[t.len() - 1] == x);
            }
        }
    }
}

/// A set whose items stand in their order.
#[derive(Debug)]
pub struct SortedSet<T: Ordered> {
    items: Vec<T>,
}

/// The views of some items.
pub open spec fn item_views<T: View>(items: Seq<T>) -> Seq<T::V> {
    items.map_values(|t: T| t@)
}

impl<T: Ordered> View for SortedSet<T> {
    type V = Seq<T::V>;

    closed spec fn view(&self) -> Seq<T::V> {
        item_views(self.items@)
    }
}

impl<T: Ordered> SortedSet<T> {
    #[verifier::type_invariant]
    pub open spec fn is_sorted(self) -> bool {
        increasing::<T>(self@)
    }

    /// The set without items.
    pub fn new() -> (set: SortedSet<T>)
        ensures
            set@ == Seq::<T::V>::empty(),
    {
        let items: Vec<T> = Vec::new();
        assert(item_views(items@) =~= Seq::<T::V>::empty());
        SortedSet { items }
    }

    /// The set of items that are in their order, each once.
    pub fn from_increasing(items: Vec<T>) -> (set: SortedSet<T>)
        requires
            increasing::<T>(item_views(items@)),
        ensures
            set@ == item_views(items@),
    {
        SortedSet { items }
    }

    pub fn len(&self) -> (n: usize)
        ensures
            n == self@.len(),
    {
        self.items.len()
    }

    pub fn is_empty(&self) -> (res: bool)
        ensures
            res == (self@.len() == 0),
    {
        self.items.len() == 0
    }

    /// The item at this place in the order.
    pub fn get(&self, i: usize) -> (item: &T)
        requires
            i < self@.len(),
        ensures
            item@ == self@[i as int],
    {
        &self.items[i]
    }

    /// The items, in their order.
    pub fn items(&self) -> (items: &Vec<T>)
        ensures
            item_views(items@) == self@,
    {
        &self.items
    }

    /// The items, in their order.
    pub fn into_items(self) -> (items: Vec<T>)
        ensures
            item_views(items@) == self@,
    {
        self.items
    }

    /// Where an item is, or where it would stand.
    fn place(&self, item: &T) -> (res: (bool, usize))
        ensures
            res.0 == has_key::<T>(self@, T::key(item@)),
            res.0 ==> res.1 < self@.len() && T::key(self@[res.1 as int]) == T::key(item@),
            !res.0 ==> res.1 == slot::<T>(self@, T::key(item@)),
    {
        proof {
            use_type_invariant(self);
        }
        let ghost k = T::key(item@);
        let mut low: usize = 0;
        let mut high: usize = self.items.len();
        while low < high
            invariant
                increasing::<T>(self@),
                k == T::key(item@),
                0 <= low <= high <= self.items@.len(),
                self@ == item_views(self.items@),
                forall|i: int| 0 <= i < low ==> T::before(T::key(#[trigger] self@[i]), k),
                forall|i: int|
                    high <= i < self@.len() ==> T::before(k, T::key(#[trigger] self@[i])),
            decreases high - low,
        {
            let mid: usize = low + (high - low) / 2;
            assert(self@[mid as int] == self.items@[mid as int]@);
            match self.items[mid].compare(item) {
                Rank::Less => {
                    assert forall|i: int| 0 <= i < mid + 1 implies T::before(
                        T::key(#[trigger] self@[i]),
                        k,
                    ) by {
                        if i < mid {
                            T::before_is_transitive(
                                T::key(self@[i]),
                                T::key(self@[mid as int]),
                                k,
                            );
                        }
                    }
                    low = mid + 1;
                },
                Rank::Equal => {
                    return (true, mid);
                },
                Rank::Greater => {
                    assert forall|i: int| mid <= i < self@.len() implies T::before(
                        k,
                        T::key(#[trigger] self@[i]),
                    ) by {
                        if i > mid {
                            T::before_is_transitive(
                                k,
                                T::key(self@[mid as int]),
                                T::key(self@[i]),
                            );
                        }
                    }
                    high = mid;
                },
            }
        }
        proof {
            T::before_is_irreflexive(k);
            if low < self@.len() && T::before(T::key(self@[low as int]), k) {
                T::before_is_transitive(k, T::key(self@[low as int]), k);
            }
            slot_is::<T>(self@, k, low as int);
        }
        (false, low)
    }

    /// Whether an item with the same key is in the set.
    pub fn contains(&self, item: &T) -> (res: bool)
        ensures
            res == has_key::<T>(self@, T::key(item@)),
    {
        self.place(item).0
    }

    /// Adds an item, unless one with the same key is there.
    pub fn insert(&mut self, item: T) -> (added: bool)
        ensures
            final(self)@ == inserted::<T>(old(self)@, item@),
            added == !has_key::<T>(old(self)@, T::key(item@)),
    {
        let (found, at) = self.place(&item);
        if found {
            return false;
        }
        proof {
            use_type_invariant(&*self);
            inserted_laws::<T>(self@, item@);
            slot_parts::<T>(self@, T::key(item@));
        }
        let ghost before = self@;
        let ghost v = item@;
        let mut items: Vec<T> = Vec::new();
        assert(item_views(items@) =~= Seq::<T::V>::empty());
        std::mem::swap(&mut items, &mut self.items);
        items.insert(at, item);
        assert(item_views(items@) =~= before.insert(at as int, v));
        self.items = items;
        true
    }

    /// Adds these items, each unless one with the same key is there.
    pub fn extend(&mut self, more: SortedSet<T>)
        ensures
            final(self)@ == extended::<T>(old(self)@, more@),
    {
        let mut rest = more.into_items();
        reverse(&mut rest);
        let ghost all = more@;
        let ghost start = self@;
        let ghost mut n: int = 0;
        assert(all.take(0) =~= Seq::<T::V>::empty());
        while rest.len() > 0
            invariant
                0 <= n,
                n + rest@.len() == all.len(),
                forall|j: int| 0 <= j < rest@.len() ==> (#[trigger] rest@[j])@ == all[all.len() - 1
                    - j],
                self@ == extended::<T>(start, all.take(n)),
            decreases rest@.len(),
        {
            match rest.pop() {
                Some(item) => {
                    assert(item@ == all[n]);
                    self.insert(item);
                    proof {
                        n = n + 1;
                        assert(all.take(n).drop_last() =~= all.take(n - 1));
                    }
                },
                None => {},
            }
        }
        assert(all.take(n) =~= all);
    }

    /// Takes the first item out.
    pub fn pop_first(&mut self) -> (first: Option<T>)
        ensures
            match first {
                Some(item) => old(self)@.len() > 0 && item@ == old(self)@[0] && final(self)@ == old(
                    self,
                )@.drop_first(),
                None => old(self)@.len() == 0 && final(self)@ == old(self)@,
            },
    {
        if self.items.len() == 0 {
            return None;
        }
        proof {
            use_type_invariant(&*self);
        }
        let ghost before = self@;
        let mut items: Vec<T> = Vec::new();
        assert(item_views(items@) =~= Seq::<T::V>::empty());
        std::mem::swap(&mut items, &mut self.items);
        let first = items.remove(0);
        assert(item_views(items@) =~= before.drop_first());
        self.items = items;
        Some(first)
    }

    /// Takes all items out.
    pub fn take(&mut self) -> (all: SortedSet<T>)
        ensures
            all@ == old(self)@,
            final(self)@ == Seq::<T::V>::empty(),
    {
        let mut all = SortedSet::<T>::new();
        std::mem::swap(&mut all, self);
        all
    }
}

/// Turns a vector round.
pub fn reverse<T>(items: &mut Vec<T>)
    ensures
        final(items)@ == old(items)@.reverse(),
{
    let mut from: Vec<T> = Vec::new();
    std::mem::swap(&mut from, items);
    let ghost all = from@;
    while from.len() > 0
        invariant
            items@ + from@.reverse() == all.reverse(),
        decreases from@.len(),
    {
        let ghost before = from@;
        match from.pop() {
            Some(item) => {
                items.push(item);
                assert(before.reverse() =~= seq![item] + from@.reverse());
                assert(items@ + from@.reverse() =~= all.reverse());
            },
            None => {},
        }
    }
    assert(from@.reverse() =~= Seq::<T>::empty());
    assert(items@ =~= all.reverse());
}

} // verus!
