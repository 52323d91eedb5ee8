//! Strict total orders, and the lexicographic order they give on sequences.
use vstd::prelude::*;

verus! {

/// How one value stands to another in an order.
#[derive(Clone, Copy, Debug, PartialEq, Eq, Structural)]
pub enum Rank {
    Less,
    Equal,
    Greater,
}

/// A type whose values are ordered by a key, which is a function of their view.
///
/// Two values with the same key are the same item for a sorted set.
pub trait Ordered: View + Sized {
    type Key;

    /// What the order looks at.
    spec fn key(v: Self::V) -> Self::Key;

    /// The strict order of the keys.
    spec fn before(a: Self::Key, b: Self::Key) -> bool;

    proof fn before_is_irreflexive(a: Self::Key)
        ensures
            !Self::before(a, a),
    ;

    proof fn before_is_transitive(a: Self::Key, b: Self::Key, c: Self::Key)
        requires
            Self::before(a, b),
            Self::before(b, c),
        ensures
            Self::before(a, c),
    ;

    proof fn before_is_total(a: Self::Key, b: Self::Key)
        ensures
            Self::before(a, b) || a == b || Self::before(b, a),
    ;

    fn compare(&self, other: &Self) -> (rank: Rank)
        ensures
            match rank {
                Rank::Less => Self::before(Self::key(self@), Self::key(other@)),
                Rank::Equal => Self::key(self@) == Self::key(other@),
                Rank::Greater => Self::before(Self::key(other@), Self::key(self@)),
            },
    ;
}

/// `k` is the first place where `a` and `b` part, and `a` is the smaller one there.
pub open spec fn parts_at<A>(before: spec_fn(A, A) -> bool, a: Seq<A>, b: Seq<A>, k: int) -> bool {
    &&& 0 <= k <= a.len()
    &&& k < b.len()
    &&& forall|j: int| 0 <= j < k ==> #[trigger] a[j] == b[j]
    &&& k == a.len() || before(a[k], b[k])
}

/// The lexicographic order: a proper prefix comes first, else the first difference decides.
pub open spec fn lex_before<A>(before: spec_fn(A, A) -> bool, a: Seq<A>, b: Seq<A>) -> bool {
    exists|k: int| #[trigger] parts_at(before, a, b, k)
}

/// `before` is a strict total order.
pub open spec fn strict_total<A>(before: spec_fn(A, A) -> bool) -> bool {
    &&& forall|x: A| !#[trigger] before(x, x)
    &&& forall|x: A, y: A, z: A| #[trigger] before(x, y) && #[trigger] before(y, z) ==> before(x, z)
    &&& forall|x: A, y: A| #[trigger] before(x, y) || x == y || before(y, x)
}

/// The lexicographic order of a strict total order is irreflexive.
pub proof fn lex_irreflexive<A>(before: spec_fn(A, A) -> bool, a: Seq<A>)
    requires
        strict_total(before),
    ensures
        !lex_before(before, a, a),
{
    if lex_before(before, a, a) {
        let k = choose|k: int| #[trigger] parts_at(before, a, a, k);
        assert(before(a[k], a[k]));
    }
}

/// The lexicographic order of a strict total order is transitive.
pub proof fn lex_transitive<A>(
    before: spec_fn(A, A) -> bool,
    a: Seq<A>,
    b: Seq<A>,
    c: Seq<A>,
)
    requires
        strict_total(before),
        lex_before(before, a, b),
        lex_before(before, b, c),
    ensures
        lex_before(before, a, c),
{
    let k = choose|k: int| #[trigger] parts_at(before, a, b, k);
    let m = choose|m: int| #[trigger] parts_at(before, b, c, m);
    let n = if k <= m {
        k
    } else {
        m
    };
    assert forall|j: int| 0 <= j < n implies #[trigger] a[j] == c[j] by {
        assert(a[j] == b[j]);
        assert(b[j] == c[j]);
    }
    if k == m && k < a.len() {
        assert(before(a[k], b[k]));
        assert(before(b[k], c[k]));
    } else if k < m {
        assert(b[k] == c[k]);
    } else if m < k {
        assert(a[m] == b[m]);
    }
    assert(parts_at(before, a, c, n));
}

/// Any two different sequences are ordered by the lexicographic order of a strict total order.
pub proof fn lex_total<A>(before: spec_fn(A, A) -> bool, a: Seq<A>, b: Seq<A>)
    requires
        strict_total(before),
    ensures
        lex_before(before, a, b) || a == b || lex_before(before, b, a),
{
    let k = common_prefix(a, b);
    common_prefix_is_longest(a, b);
    if k < a.len() && k < b.len() {
        assert(before(a[k], b[k]) || a[k] == b[k] || before(b[k], a[k]));
        if before(a[k], b[k]) {
            assert(parts_at(before, a, b, k));
        } else {
            assert forall|j: int| 0 <= j < k implies #[trigger] b[j] == a[j] by {
                assert(a[j] == b[j]);
            }
            assert(parts_at(before, b, a, k));
        }
    } else if k < b.len() {
        assert(parts_at(before, a, b, k));
    } else if k < a.len() {
        assert forall|j: int| 0 <= j < k implies #[trigger] b[j] == a[j] by {
            assert(a[j] == b[j]);
        }
        assert(parts_at(before, b, a, k));
    } else {
        assert(a =~= b);
    }
}

/// The length of the longest common prefix.
spec fn common_prefix<A>(a: Seq<A>, b: Seq<A>) -> int
    decreases a.len(),
{
    if a.len() == 0 || b.len() == 0 || a[0] != b[0] {
        0
    } else {
        1 + common_prefix(a.drop_first(), b.drop_first())
    }
}

proof fn common_prefix_is_longest<A>(a: Seq<A>, b: Seq<A>)
    ensures
        0 <= common_prefix(a, b) <= a.len(),
        common_prefix(a, b) <= b.len(),
        forall|j: int| 0 <= j < common_prefix(a, b) ==> #[trigger] a[j] == b[j],
        common_prefix(a, b) < a.len() && common_prefix(a, b) < b.len() ==> a[common_prefix(a, b)]
            != b[common_prefix(a, b)],
    decreases a.len(),
{
    if a.len() == 0 || b.len() == 0 || a[0] != b[0] {
    } else {
        let x = a.drop_first();
        let y = b.drop_first();
        common_prefix_is_longest(x, y);
        assert forall|j: int| 0 <= j < common_prefix(a, b) implies #[trigger] a[j] == b[j] by {
            if j > 0 {
                assert(x[j - 1] == y[j - 1]);
            }
        }
    }
}

} // verus!
