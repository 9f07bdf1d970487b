//! The record of decisions.

use vstd::prelude::*;
use crate::path::{FilePath, paths_view};

verus! {

/// What was decided of an item.
#[derive(Clone, Copy, Debug, PartialEq, Eq)]
pub enum Verdict {
    Keep,
    Discard,
}

/// The decisions made so far: the kept paths and the discarded paths, each in the
/// order in which they were decided. A decision, once recorded, stays.
pub struct DecisionLedger {
    kept: Vec<FilePath>,
    discarded: Vec<FilePath>,
}

impl DecisionLedger {
    /// The kept paths, in the order of their decisions.
    pub closed spec fn kept(&self) -> Seq<Seq<Seq<u8>>> {
        paths_view(self.kept@)
    }

    /// The discarded paths, in the order of their decisions.
    pub closed spec fn discarded(&self) -> Seq<Seq<Seq<u8>>> {
        paths_view(self.discarded@)
    }

    /// The ledger without decisions.
    pub fn new() -> (r: DecisionLedger)
        ensures
            r.kept() == Seq::<Seq<Seq<u8>>>::empty(),
            r.discarded() == Seq::<Seq<Seq<u8>>>::empty(),
    {
        DecisionLedger { kept: Vec::new(), discarded: Vec::new() }
    }

    /// Records the decision on `path`: it is added to the kept paths or to the
    /// discarded ones, and every earlier decision stays as it is.
    pub fn record(&mut self, path: FilePath, verdict: Verdict)
        ensures
            match verdict {
                Verdict::Keep => {
                    &&& final(self).kept() == old(self).kept().push(path@)
                    &&& final(self).discarded() == old(self).discarded()
                },
                Verdict::Discard => {
                    &&& final(self).kept() == old(self).kept()
                    &&& final(self).discarded() == old(self).discarded().push(path@)
                },
            },
    {
        match verdict {
            Verdict::Keep => {
                self.kept.push(path);
            },
            Verdict::Discard => {
                self.discarded.push(path);
            },
        }
    }

    /// The number of kept paths.
    pub fn kept_count(&self) -> (r: usize)
        ensures
            r == self.kept().len(),
    {
        self.kept.len()
    }

    /// The number of discarded paths.
    pub fn discarded_count(&self) -> (r: usize)
        ensures
            r == self.discarded().len(),
    {
        self.discarded.len()
    }

    /// The kept paths, in the order of their decisions.
    pub fn kept_paths(&self) -> (r: &Vec<FilePath>)
        ensures
            paths_view(r@) == self.kept(),
    {
        &self.kept
    }

    /// The discarded paths, in the order of their decisions.
    pub fn discarded_paths(&self) -> (r: &Vec<FilePath>)
        ensures
            paths_view(r@) == self.discarded(),
    {
        &self.discarded
    }
}

} // verus!
