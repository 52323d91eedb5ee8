//! File paths as sequences of bytes, read by their components.
//!
//! A path is split at its slashes. Empty pieces do not count, nor does a `.` unless it is the
//! first piece of a relative path; so `a//b`, `a/./b` and `a/b/` have the same components.
use vstd::prelude::*;

use crate::order;
use crate::order::{Ordered, Rank};
use crate::text;
use vstd::utf8;

verus! {

pub const SLASH: u8 = 47;

pub const DOT: u8 = 46;

/// The component that a piece between two slashes stands for, with the offset just behind it.
pub open spec fn piece_spans(piece: Seq<u8>, start: nat) -> Seq<(Seq<u8>, nat)> {
    if piece.len() == 0 {
        Seq::empty()
    } else if piece == seq![DOT] && start != 0 {
        Seq::empty()
    } else {
        seq![(piece, start + piece.len())]
    }
}

/// The components that a slash in `s` has ended, and where the piece behind the last slash starts.
pub open spec fn scan(s: Seq<u8>) -> (Seq<(Seq<u8>, nat)>, nat)
    decreases s.len(),
{
    if s.len() == 0 {
        (Seq::empty(), 0)
    } else {
        let t = s.drop_last();
        let (done, start) = scan(t);
        if s.last() != SLASH {
            (done, start)
        } else if t.len() == 0 {
            (seq![(seq![SLASH], 1nat)], 1)
        } else {
            (done + piece_spans(t.subrange(start as int, t.len() as int), start), s.len())
        }
    }
}

/// The components of a path, each with the offset just behind it.
///
/// The root is the component `/`.
pub open spec fn spans(s: Seq<u8>) -> Seq<(Seq<u8>, nat)> {
    let (done, start) = scan(s);
    done + piece_spans(s.subrange(start as int, s.len() as int), start)
}

/// The components of a path.
pub open spec fn components(s: Seq<u8>) -> Seq<Seq<u8>> {
    spans(s).map_values(|x: (Seq<u8>, nat)| x.0)
}

/// Where a component stands among the kinds: the root, `.`, `..`, then the names.
pub open spec fn component_rank(c: Seq<u8>) -> int {
    if c == seq![SLASH] {
        0
    } else if c == seq![DOT] {
        1
    } else if c == seq![DOT, DOT] {
        2
    } else {
        3
    }
}

/// Bytes are ordered as numbers.
pub open spec fn byte_order() -> spec_fn(u8, u8) -> bool {
    |x: u8, y: u8| x < y
}

/// Components are ordered by kind, and names by their bytes.
pub open spec fn component_before(a: Seq<u8>, b: Seq<u8>) -> bool {
    ||| component_rank(a) < component_rank(b)
    ||| component_rank(a) == component_rank(b) && order::lex_before(byte_order(), a, b)
}

/// The order of components.
pub open spec fn component_order() -> spec_fn(Seq<u8>, Seq<u8>) -> bool {
    |x: Seq<u8>, y: Seq<u8>| component_before(x, y)
}

/// Paths are ordered component by component.
pub open spec fn components_before(a: Seq<Seq<u8>>, b: Seq<Seq<u8>>) -> bool {
    order::lex_before(component_order(), a, b)
}

/// `s` is below `base`, or is the same path.
pub open spec fn path_starts_with(s: Seq<u8>, base: Seq<u8>) -> bool {
    components(base).is_prefix_of(components(s))
}

/// The last components of `s` are those of `tail`.
pub open spec fn path_ends_with(s: Seq<u8>, tail: Seq<u8>) -> bool {
    components(tail).is_suffix_of(components(s))
}

/// `tail` taken relative to `s`; an absolute `tail` stands alone.
pub open spec fn path_join(s: Seq<u8>, tail: Seq<u8>) -> Seq<u8> {
    if tail.len() > 0 && tail[0] == SLASH {
        tail
    } else if s.len() == 0 || s.last() == SLASH {
        s + tail
    } else {
        s.push(SLASH) + tail
    }
}

/// The path cut behind its last component but one; none for the root and the empty path.
pub open spec fn path_parent(s: Seq<u8>) -> Option<Seq<u8>> {
    let all = spans(s);
    if all.len() == 0 || all.last().0 == seq![SLASH] {
        None
    } else if all.len() == 1 {
        Some(Seq::empty())
    } else {
        Some(s.take(all[all.len() - 2].1 as int))
    }
}

/// The last component, if it is a name.
pub open spec fn path_file_name(s: Seq<u8>) -> Option<Seq<u8>> {
    let all = components(s);
    if all.len() > 0 && component_rank(all.last()) == 3 {
        Some(all.last())
    } else {
        None
    }
}

/// A path and those above it, from the nearest to the farthest.
pub open spec fn ancestors(s: Seq<u8>) -> Seq<Seq<u8>>
    decreases s.len(),
{
    match path_parent(s) {
        None => seq![s],
        Some(up) => {
            proof {
                parent_is_shorter(s);
            }
            seq![s] + ancestors(up)
        },
    }
}

/// Cutting a path behind one of the components that a slash has ended leaves those up to it.
proof fn scan_cut(s: Seq<u8>, k: int)
    requires
        0 <= k < scan(s).0.len(),
    ensures
        0 < scan(s).0[k].1 <= s.len(),
        spans(s.take(scan(s).0[k].1 as int)) == scan(s).0.take(k + 1),
        k > 0 ==> scan(s).0[k - 1].1 < scan(s).0[k].1,
        scan(s).0[k].1 <= scan(s).1,
    decreases s.len(),
{
    let t = s.drop_last();
    let (done, start) = scan(t);
    scan_start(t);
    if s.last() != SLASH {
        scan_cut(t, k);
        assert(s.take(scan(s).0[k].1 as int) =~= t.take(scan(s).0[k].1 as int));
    } else if t.len() == 0 {
        assert(s.take(1) =~= s);
        assert(s.subrange(1, 1) =~= Seq::<u8>::empty());
        assert(spans(s) =~= scan(s).0.take(1));
    } else {
        let piece = t.subrange(start as int, t.len() as int);
        if k < done.len() {
            scan_cut(t, k);
            assert(s.take(done[k].1 as int) =~= t.take(done[k].1 as int));
            assert(scan(s).0.take(k + 1) =~= done.take(k + 1));
        } else {
            assert(scan(s).0[k].1 == t.len());
            assert(s.take(t.len() as int) =~= t);
            assert(scan(s).0.take(k + 1) =~= scan(s).0);
            if k > 0 {
                scan_cut(t, k - 1);
            }
        }
    }
}

/// The piece behind the last slash starts within the path.
proof fn scan_start(s: Seq<u8>)
    ensures
        scan(s).1 <= s.len(),
        s.len() > 0 && s[0] == SLASH ==> scan(s).1 > 0,
    decreases s.len(),
{
    if s.len() > 0 {
        scan_start(s.drop_last());
    }
}

/// Cutting a path behind one of its components leaves the components up to it.
pub proof fn spans_cut(s: Seq<u8>, k: int)
    requires
        0 <= k < spans(s).len(),
    ensures
        0 < spans(s)[k].1 <= s.len(),
        spans(s.take(spans(s)[k].1 as int)) == spans(s).take(k + 1),
        k > 0 ==> spans(s)[k - 1].1 < spans(s)[k].1,
{
    let (done, start) = scan(s);
    scan_start(s);
    if k < done.len() {
        scan_cut(s, k);
        assert(spans(s).take(k + 1) =~= done.take(k + 1));
    } else {
        assert(spans(s)[k].1 == s.len());
        assert(s.take(s.len() as int) =~= s);
        assert(spans(s).take(k + 1) =~= spans(s));
        if k > 0 {
            scan_cut(s, k - 1);
        }
    }
}

/// A parent is shorter than the path.
pub proof fn parent_is_shorter(s: Seq<u8>)
    ensures
        path_parent(s) matches Some(up) ==> up.len() < s.len(),
{
    let all = spans(s);
    if all.len() > 0 {
        spans_cut(s, all.len() - 1);
    }
    if all.len() > 1 {
        spans_cut(s, all.len() - 2);
    }
}

/// The parent of a path has all its components but the last one.
pub proof fn parent_drops_the_last_component(s: Seq<u8>)
    ensures
        path_parent(s) matches Some(up) ==> {
            &&& components(s).len() > 0
            &&& components(up) == components(s).drop_last()
        },
{
    let all = spans(s);
    if path_parent(s) is Some {
        if all.len() == 1 {
            assert(Seq::<u8>::empty().subrange(0, 0) =~= Seq::<u8>::empty());
            assert(components(Seq::<u8>::empty()) =~= components(s).drop_last());
        } else {
            spans_cut(s, all.len() - 2);
            assert(components(path_parent(s)->0) =~= components(s).drop_last());
        }
    }
}

/// The paths above a path are its parent and those above that.
pub proof fn ancestors_start(s: Seq<u8>)
    ensures
        ancestors(s).len() > 0,
        ancestors(s)[0] == s,
        path_parent(s) is None ==> ancestors(s).len() == 1,
        path_parent(s) is Some ==> ancestors(s).skip(1) == ancestors(path_parent(s)->0),
{
    if let Some(up) = path_parent(s) {
        parent_is_shorter(s);
        assert(ancestors(s).skip(1) =~= ancestors(up));
    }
}

/// Every path is below its parent, and below all those above it.
pub proof fn ancestors_are_above(s: Seq<u8>, k: int)
    requires
        0 <= k < ancestors(s).len(),
    ensures
        path_starts_with(s, ancestors(s)[k]),
    decreases s.len(),
{
    if let Some(up) = path_parent(s) {
        parent_is_shorter(s);
        parent_drops_the_last_component(s);
        if k > 0 {
            ancestors_are_above(up, k - 1);
            let a = components(ancestors(s)[k]);
            assert(a == components(s).drop_last().take(a.len() as int));
            assert(a =~= components(s).take(a.len() as int));
        } else {
            assert(components(s) =~= components(s).take(components(s).len() as int));
        }
    } else {
        assert(components(s) =~= components(s).take(components(s).len() as int));
    }
}

proof fn bytes_are_ordered()
    ensures
        order::strict_total(byte_order()),
{
}

/// The order of components is a strict total order.
pub proof fn components_are_ordered()
    ensures
        order::strict_total(component_order()),
{
    let by_byte = byte_order();
    let by_component = component_order();
    bytes_are_ordered();
    assert forall|x: Seq<u8>| !#[trigger] by_component(x, x) by {
        order::lex_irreflexive(by_byte, x);
    }
    assert forall|x: Seq<u8>, y: Seq<u8>, z: Seq<u8>| #[trigger]
        by_component(x, y) && #[trigger] by_component(y, z) implies by_component(x, z) by {
        if component_rank(x) == component_rank(y) && component_rank(y) == component_rank(z) {
            order::lex_transitive(by_byte, x, y, z);
        }
    }
    assert forall|x: Seq<u8>, y: Seq<u8>| #[trigger]
        by_component(x, y) || x == y || by_component(y, x) by {
        order::lex_total(by_byte, x, y);
    }
}

/// A component of a path: its text, and the offset just behind it.
#[derive(Debug)]
struct Part {
    text: Vec<u8>,
    end: usize,
}

impl View for Part {
    type V = (Seq<u8>, nat);

    closed spec fn view(&self) -> (Seq<u8>, nat) {
        (self.text@, self.end as nat)
    }
}

/// A file path.
#[derive(Debug)]
pub struct FilePath {
    bytes: Vec<u8>,
    parts: Vec<Part>,
}

impl View for FilePath {
    type V = Seq<u8>;

    closed spec fn view(&self) -> Seq<u8> {
        self.bytes@
    }
}

pub(crate) fn copy_bytes(bytes: &Vec<u8>, from: usize, to: usize) -> (res: Vec<u8>)
    requires
        from <= to <= bytes@.len(),
    ensures
        res@ == bytes@.subrange(from as int, to as int),
{
    let mut res: Vec<u8> = Vec::new();
    let mut i: usize = from;
    while i < to
        invariant
            from <= i <= to <= bytes@.len(),
            res@ == bytes@.subrange(from as int, i as int),
        decreases to - i,
    {
        res.push(bytes[i]);
        i = i + 1;
    }
    res
}

fn push_piece(bytes: &Vec<u8>, start: usize, end: usize, parts: &mut Vec<Part>)
    requires
        start <= end <= bytes@.len(),
    ensures
        views(final(parts)@) == views(old(parts)@) + piece_spans(
            bytes@.subrange(start as int, end as int),
            start as nat,
        ),
{
    let ghost piece = bytes@.subrange(start as int, end as int);
    if start == end {
        assert(views(parts@) =~= views(parts@) + piece_spans(piece, start as nat));
        return ;
    }
    if end - start == 1 && bytes[start] == DOT && start != 0 {
        assert(piece =~= seq![DOT]);
        assert(views(parts@) =~= views(parts@) + piece_spans(piece, start as nat));
        return ;
    }
    assert(piece == seq![DOT] ==> piece[0] == DOT && piece.len() == 1);
    let text = copy_bytes(bytes, start, end);
    parts.push(Part { text, end });
    assert(views(parts@) =~= views(old(parts)@) + piece_spans(piece, start as nat));
}

closed spec fn views(parts: Seq<Part>) -> Seq<(Seq<u8>, nat)> {
    parts.map_values(|p: Part| p@)
}

fn parse(bytes: &Vec<u8>) -> (parts: Vec<Part>)
    ensures
        views(parts@) == spans(bytes@),
{
    let mut parts: Vec<Part> = Vec::new();
    let mut start: usize = 0;
    let mut i: usize = 0;
    assert(views(parts@) =~= Seq::empty());
    while i < bytes.len()
        invariant
            0 <= start <= i <= bytes@.len(),
            scan(bytes@.take(i as int)) == (views(parts@), start as nat),
        decreases bytes@.len() - i,
    {
        let ghost t = bytes@.take(i as int);
        assert(bytes@.take(i + 1).drop_last() =~= t);
        if bytes[i] == SLASH {
            if i == 0 {
                let mut text: Vec<u8> = Vec::new();
                text.push(SLASH);
                parts = Vec::new();
                parts.push(Part { text, end: 1 });
                assert(text@ =~= seq![SLASH]);
                assert(views(parts@) =~= seq![(seq![SLASH], 1nat)]);
            } else {
                assert(t.subrange(start as int, i as int) =~= bytes@.subrange(
                    start as int,
                    i as int,
                ));
                push_piece(bytes, start, i, &mut parts);
            }
            start = i + 1;
        }
        i = i + 1;
    }
    assert(bytes@.take(i as int) =~= bytes@);
    push_piece(bytes, start, i, &mut parts);
    parts
}

fn order_bytes(a: &Vec<u8>, b: &Vec<u8>) -> (rank: Rank)
    ensures
        match rank {
            Rank::Less => order::lex_before(byte_order(), a@, b@),
            Rank::Equal => a@ == b@,
            Rank::Greater => order::lex_before(byte_order(), b@, a@),
        },
{
    let ghost by_byte = byte_order();
    let mut i: usize = 0;
    while i < a.len() && i < b.len()
        invariant
            i <= a@.len(),
            i <= b@.len(),
            by_byte == byte_order(),
            forall|j: int| 0 <= j < i ==> a@[j] == b@[j],
        decreases a@.len() - i,
    {
        if a[i] < b[i] {
            assert(order::parts_at(by_byte, a@, b@, i as int));
            return Rank::Less;
        }
        if b[i] < a[i] {
            assert(order::parts_at(by_byte, b@, a@, i as int));
            return Rank::Greater;
        }
        i = i + 1;
    }
    if i < b.len() {
        assert(order::parts_at(by_byte, a@, b@, i as int));
        Rank::Less
    } else if i < a.len() {
        assert(order::parts_at(by_byte, b@, a@, i as int));
        Rank::Greater
    } else {
        assert(a@ =~= b@);
        Rank::Equal
    }
}

fn rank_of(text: &Vec<u8>) -> (rank: u8)
    ensures
        rank == component_rank(text@),
{
    if text.len() == 1 && text[0] == SLASH {
        assert(text@ =~= seq![SLASH]);
        0
    } else if text.len() == 1 && text[0] == DOT {
        assert(text@ =~= seq![DOT]);
        assert(text@[0] == DOT);
        1
    } else if text.len() == 2 && text[0] == DOT && text[1] == DOT {
        assert(text@ =~= seq![DOT, DOT]);
        2
    } else {
        assert(text@ == seq![SLASH] ==> text@.len() == 1 && text@[0] == SLASH);
        assert(text@ == seq![DOT] ==> text@.len() == 1 && text@[0] == DOT);
        assert(text@ == seq![DOT, DOT] ==> text@.len() == 2 && text@[0] == DOT && text@[1] == DOT);
        3
    }
}

fn order_components(a: &Vec<u8>, b: &Vec<u8>) -> (rank: Rank)
    ensures
        match rank {
            Rank::Less => component_before(a@, b@),
            Rank::Equal => a@ == b@,
            Rank::Greater => component_before(b@, a@),
        },
{
    let x: u8 = rank_of(a);
    let y: u8 = rank_of(b);
    if x < y {
        Rank::Less
    } else if y < x {
        Rank::Greater
    } else {
        order_bytes(a, b)
    }
}

impl FilePath {
    #[verifier::type_invariant]
    closed spec fn parsed(self) -> bool {
        views(self.parts@) == spans(self.bytes@)
    }

    /// The path that consists of these bytes.
    pub fn from_bytes(bytes: Vec<u8>) -> (path: FilePath)
        ensures
            path@ == bytes@,
    {
        let parts = parse(&bytes);
        FilePath { bytes, parts }
    }

    /// The path that a text spells.
    pub fn new(text: &str) -> (path: FilePath)
        ensures
            path@ == utf8::encode_utf8(text@),
    {
        FilePath::from_bytes(text.as_bytes_vec())
    }

    /// The bytes of the path.
    pub fn as_bytes(&self) -> (bytes: &Vec<u8>)
        ensures
            bytes@ == self@,
    {
        &self.bytes
    }

    /// Whether both paths have the same bytes, and not only the same components.
    pub fn same_bytes(&self, other: &FilePath) -> (same: bool)
        ensures
            same == (self@ == other@),
    {
        same(&self.bytes, &other.bytes)
    }
}

impl FilePath {
    /// The path cut behind its last component but one.
    pub fn parent(&self) -> (up: Option<FilePath>)
        ensures
            match up {
                Some(p) => path_parent(self@) == Some(p@),
                None => path_parent(self@) is None,
            },
    {
        proof {
            use_type_invariant(self);
        }
        let n: usize = self.parts.len();
        if n == 0 {
            return None;
        }
        assert(views(self.parts@)[n - 1] == self.parts@[n - 1]@);
        if rank_of(&self.parts[n - 1].text) == 0 {
            return None;
        }
        if n == 1 {
            let none: Vec<u8> = Vec::new();
            return Some(FilePath::from_bytes(none));
        }
        assert(views(self.parts@)[n - 2] == self.parts@[n - 2]@);
        let end: usize = self.parts[n - 2].end;
        proof {
            spans_cut(self@, n - 2);
        }
        let cut = copy_bytes(&self.bytes, 0, end);
        assert(cut@ =~= self@.take(end as int));
        Some(FilePath::from_bytes(cut))
    }

    /// `tail` taken relative to this path.
    pub fn join(&self, tail: &FilePath) -> (joined: FilePath)
        ensures
            joined@ == path_join(self@, tail@),
    {
        if tail.bytes.len() > 0 && tail.bytes[0] == SLASH {
            return tail.clone();
        }
        let n: usize = self.bytes.len();
        let mut bytes = copy_bytes(&self.bytes, 0, n);
        assert(bytes@ =~= self@);
        if n > 0 && bytes[n - 1] != SLASH {
            bytes.push(SLASH);
        }
        let ghost head = bytes@;
        let mut i: usize = 0;
        while i < tail.bytes.len()
            invariant
                i <= tail@.len(),
                tail@ == tail.bytes@,
                bytes@ == head + tail@.take(i as int),
            decreases tail@.len() - i,
        {
            bytes.push(tail.bytes[i]);
            assert(bytes@ =~= head + tail@.take(i + 1));
            i = i + 1;
        }
        assert(bytes@ =~= path_join(self@, tail@));
        FilePath::from_bytes(bytes)
    }

    /// Whether this path is `base` or below it.
    pub fn starts_with(&self, base: &FilePath) -> (res: bool)
        ensures
            res == path_starts_with(self@, base@),
    {
        proof {
            use_type_invariant(self);
            use_type_invariant(base);
        }
        if base.parts.len() > self.parts.len() {
            return false;
        }
        let res = same_parts(&self.parts, 0, &base.parts);
        assert(res == path_starts_with(self@, base@)) by {
            let a = components(self@);
            let b = components(base@);
            if res {
                assert(b =~= a.take(b.len() as int));
            } else if b == a.take(b.len() as int) {
                assert forall|k: int| 0 <= k < base.parts@.len() implies views(base.parts@)[k].0
                    == views(self.parts@)[0 + k].0 by {
                    assert(b[k] == a.take(b.len() as int)[k]);
                }
            }
        }
        res
    }

    /// Whether the last components of this path are those of `tail`.
    pub fn ends_with(&self, tail: &FilePath) -> (res: bool)
        ensures
            res == path_ends_with(self@, tail@),
    {
        proof {
            use_type_invariant(self);
            use_type_invariant(tail);
        }
        if tail.parts.len() > self.parts.len() {
            return false;
        }
        let from: usize = self.parts.len() - tail.parts.len();
        let res = same_parts(&self.parts, from, &tail.parts);
        assert(res == path_ends_with(self@, tail@)) by {
            let a = components(self@);
            let b = components(tail@);
            let cut = a.skip(a.len() - b.len());
            if res {
                assert(b =~= cut);
            } else if b == cut {
                assert forall|k: int| 0 <= k < tail.parts@.len() implies views(tail.parts@)[k].0
                    == views(self.parts@)[from + k].0 by {
                    assert(b[k] == cut[k]);
                }
            }
        }
        res
    }

    /// Whether the last component is this name.
    pub fn has_file_name(&self, name: &Vec<u8>) -> (res: bool)
        ensures
            res == (path_file_name(self@) == Some(name@)),
    {
        proof {
            use_type_invariant(self);
        }
        let n: usize = self.parts.len();
        if n == 0 {
            return false;
        }
        assert(views(self.parts@)[n - 1] == self.parts@[n - 1]@);
        assert(components(self@).last() == self.parts@[n - 1].text@);
        rank_of(&self.parts[n - 1].text) == 3 && same(&self.parts[n - 1].text, name)
    }

    /// The path as a text, if it is one.
    pub fn to_str(&self) -> (text: Option<String>)
        ensures
            text is Some <==> utf8::valid_utf8(self@),
            text matches Some(t) ==> t@ == utf8::decode_utf8(self@),
    {
        let bytes = copy_bytes(&self.bytes, 0, self.bytes.len());
        assert(bytes@ =~= self@);
        text::decode(bytes)
    }

    /// The path as a text for the eye.
    pub fn display(&self) -> (text: String)
        ensures
            text@ == text::lossy_text(self@),
            utf8::valid_utf8(self@) ==> text@ == utf8::decode_utf8(self@),
    {
        text::decode_lossy(&self.bytes)
    }
}

fn same(a: &Vec<u8>, b: &Vec<u8>) -> (res: bool)
    ensures
        res == (a@ == b@),
{
    proof {
        bytes_are_ordered();
        order::lex_irreflexive(byte_order(), a@);
    }
    match order_bytes(a, b) {
        Rank::Equal => true,
        Rank::Less => false,
        Rank::Greater => false,
    }
}

/// Whether `b` stands in `a` at this place.
fn same_parts(a: &Vec<Part>, from: usize, b: &Vec<Part>) -> (res: bool)
    requires
        from + b@.len() <= a@.len(),
    ensures
        res == forall|k: int| 0 <= k < b@.len() ==> views(b@)[k].0 == views(a@)[from + k].0,
{
    let n: usize = a.len();
    let mut i: usize = 0;
    while i < b.len()
        invariant
            n == a@.len(),
            from + b@.len() <= n,
            i <= b@.len(),
            forall|k: int| 0 <= k < i ==> views(b@)[k].0 == views(a@)[from + k].0,
        decreases b@.len() - i,
    {
        assert(views(b@)[i as int] == b@[i as int]@);
        assert(views(a@)[from + i] == a@[from + i]@);
        if !same(&b[i].text, &a[from + i].text) {
            return false;
        }
        i = i + 1;
    }
    true
}

impl PartialEq for FilePath {
    fn eq(&self, other: &FilePath) -> (res: bool) {
        proof {
            <FilePath as Ordered>::before_is_irreflexive(components(self@));
        }
        match self.compare(other) {
            Rank::Equal => true,
            Rank::Less => false,
            Rank::Greater => false,
        }
    }
}

impl vstd::std_specs::cmp::PartialEqSpecImpl for FilePath {
    open spec fn obeys_eq_spec() -> bool {
        true
    }

    open spec fn eq_spec(&self, other: &FilePath) -> bool {
        components(self@) == components(other@)
    }
}

impl Clone for FilePath {
    fn clone(&self) -> (copy: FilePath)
        ensures
            copy@ == self@,
    {
        let bytes = copy_bytes(&self.bytes, 0, self.bytes.len());
        assert(bytes@ =~= self.bytes@);
        FilePath::from_bytes(bytes)
    }
}

impl Ordered for FilePath {
    type Key = Seq<Seq<u8>>;

    open spec fn key(v: Seq<u8>) -> Seq<Seq<u8>> {
        components(v)
    }

    open spec fn before(a: Seq<Seq<u8>>, b: Seq<Seq<u8>>) -> bool {
        components_before(a, b)
    }

    proof fn before_is_irreflexive(a: Seq<Seq<u8>>) {
        components_are_ordered();
        order::lex_irreflexive(component_order(), a);
        assert(!Self::before(a, a));
    }

    proof fn before_is_transitive(a: Seq<Seq<u8>>, b: Seq<Seq<u8>>, c: Seq<Seq<u8>>) {
        components_are_ordered();
        order::lex_transitive(component_order(), a, b, c);
    }

    proof fn before_is_total(a: Seq<Seq<u8>>, b: Seq<Seq<u8>>) {
        components_are_ordered();
        order::lex_total(component_order(), a, b);
    }

    fn compare(&self, other: &FilePath) -> (rank: Rank) {
        proof {
            use_type_invariant(self);
            use_type_invariant(other);
        }
        let ghost by_component = component_order();
        let ghost a = components(self@);
        let ghost b = components(other@);
        let mut i: usize = 0;
        while i < self.parts.len() && i < other.parts.len()
            invariant
                i <= self.parts@.len(),
                i <= other.parts@.len(),
                views(self.parts@) == spans(self@),
                views(other.parts@) == spans(other@),
                a == components(self@),
                b == components(other@),
                by_component == component_order(),
                forall|j: int| 0 <= j < i ==> a[j] == b[j],
            decreases self.parts@.len() - i,
        {
            assert(a[i as int] == spans(self@)[i as int].0);
            assert(b[i as int] == spans(other@)[i as int].0);
            assert(views(self.parts@)[i as int] == self.parts@[i as int]@);
            assert(views(other.parts@)[i as int] == other.parts@[i as int]@);
            match order_components(&self.parts[i].text, &other.parts[i].text) {
                Rank::Less => {
                    assert(order::parts_at(by_component, a, b, i as int));
                    return Rank::Less;
                },
                Rank::Greater => {
                    assert(order::parts_at(by_component, b, a, i as int));
                    return Rank::Greater;
                },
                Rank::Equal => {},
            }
            i = i + 1;
        }
        assert(a.len() == self.parts@.len());
        assert(b.len() == other.parts@.len());
        if i < other.parts.len() {
            assert(order::parts_at(by_component, a, b, i as int));
            Rank::Less
        } else if i < self.parts.len() {
            assert(order::parts_at(by_component, b, a, i as int));
            Rank::Greater
        } else {
            assert(a =~= b);
            Rank::Equal
        }
    }
}

} // verus!
