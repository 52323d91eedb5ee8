//! What was found in the file system.
use vstd::prelude::*;

use crate::path::FilePath;
use crate::sorted_set;

verus! {

/// What stands at a path, symbolic links followed.
#[derive(Clone, Copy, PartialEq, Eq, Debug, Structural)]
pub enum Kind {
    File,
    Directory,
    Other,
    Missing,
}

/// What was found at one path.
#[derive(Debug)]
pub struct Finding {
    pub path: FilePath,
    pub kind: Kind,
}

/// What was found at some paths. Nothing stands at a path that is not listed.
#[derive(Debug)]
pub struct Findings {
    pub all: Vec<Finding>,
}

impl View for Finding {
    type V = (Seq<u8>, Kind);

    open spec fn view(&self) -> (Seq<u8>, Kind) {
        (self.path@, self.kind)
    }
}

impl View for Findings {
    type V = Seq<(Seq<u8>, Kind)>;

    open spec fn view(&self) -> Seq<(Seq<u8>, Kind)> {
        sorted_set::item_views(self.all@)
    }
}

/// What stands at the path.
pub open spec fn kind_at(found: Seq<(Seq<u8>, Kind)>, path: Seq<u8>) -> Kind
    decreases found.len(),
{
    if found.len() == 0 {
        Kind::Missing
    } else if found[0].0 == path {
        found[0].1
    } else {
        kind_at(found.drop_first(), path)
    }
}

impl Findings {
    pub fn new() -> (found: Findings)
        ensures
            found@ == Seq::<(Seq<u8>, Kind)>::empty(),
    {
        let all: Vec<Finding> = Vec::new();
        assert(sorted_set::item_views(all@) =~= Seq::<(Seq<u8>, Kind)>::empty());
        Findings { all }
    }

    /// Notes what stands at a path.
    pub fn add(&mut self, path: FilePath, kind: Kind)
        ensures
            final(self)@ == old(self)@.push((path@, kind)),
    {
        let ghost before = self@;
        self.all.push(Finding { path, kind });
        assert(self@ =~= before.push((path@, kind)));
    }

    pub fn kind(&self, path: &FilePath) -> (kind: Kind)
        ensures
            kind == kind_at(self@, path@),
    {
        let ghost all = self@;
        let mut i: usize = 0;
        assert(all.skip(0) =~= all);
        while i < self.all.len()
            invariant
                i <= self.all@.len(),
                all == self@,
                kind_at(all, path@) == kind_at(all.skip(i as int), path@),
            decreases self.all@.len() - i,
        {
            assert(all[i as int] == self.all@[i as int]@);
            assert(all.skip(i as int).drop_first() =~= all.skip(i + 1));
            if self.all[i].path.same_bytes(path) {
                return self.all[i].kind;
            }
            i = i + 1;
        }
        Kind::Missing
    }

    pub fn has(&self, path: &FilePath) -> (res: bool)
        ensures
            res == (kind_at(self@, path@) != Kind::Missing),
    {
        match self.kind(path) {
            Kind::Missing => false,
            _ => true,
        }
    }
}

} // verus!
