//! Laws of what was found in the file system.
use vstd::prelude::*;

use crate::facts;
use crate::facts::Kind;

verus! {

/// At a path stands what the first finding there says, and nothing where there is no finding.
pub proof fn first_finding_counts(
    before: Seq<(Seq<u8>, Kind)>,
    path: Seq<u8>,
    kind: Kind,
    behind: Seq<(Seq<u8>, Kind)>,
)
    requires
        forall|i: int| 0 <= i < before.len() ==> (#[trigger] before[i]).0 != path,
    ensures
        facts::kind_at(before, path) == Kind::Missing,
        facts::kind_at(before + seq![(path, kind)] + behind, path) == kind,
    decreases before.len(),
{
    let all = before + seq![(path, kind)] + behind;
    if before.len() > 0 {
        let rest = before.drop_first();
        assert(all[0] == before[0]);
        assert(all.drop_first() =~= rest + seq![(path, kind)] + behind);
        assert forall|i: int| 0 <= i < rest.len() implies (#[trigger] rest[i]).0 != path by {
            assert(rest[i] == before[i + 1]);
        }
        first_finding_counts(rest, path, kind, behind);
    } else {
        assert(all[0] == (path, kind));
    }
}

} // verus!
