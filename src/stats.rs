//! Directory and file counts, combined by pointwise addition.
use vstd::prelude::*;

verus! {

/// Counts of the directories and files that a walk rendered.
#[derive(Clone, Copy, Debug, PartialEq, Eq, Structural)]
pub struct Stats {
    pub directories: usize,
    pub files: usize,
}

impl Stats {
    /// The counts as a pair of mathematical integers.
    pub open spec fn view_pair(self) -> (int, int) {
        (self.directories as int, self.files as int)
    }

    /// Number of rendered entries the counts stand for.
    pub open spec fn total(self) -> int {
        self.directories + self.files
    }

    /// Counts of nothing.
    pub open spec fn zero_value() -> Stats {
        Stats { directories: 0, files: 0 }
    }

    /// The identity of `combine`: no directory, no file.
    pub fn zero() -> (r: Stats)
        ensures
            r == Stats::zero_value(),
    {
        Stats { directories: 0, files: 0 }
    }

    /// Pointwise sum of two counts.
    pub fn combine(&self, other: &Stats) -> (r: Stats)
        requires
            self.directories + other.directories <= usize::MAX,
            self.files + other.files <= usize::MAX,
        ensures
            r.directories == self.directories + other.directories,
            r.files == self.files + other.files,
    {
        Stats { directories: self.directories + other.directories, files: self.files + other.files }
    }
}

/// Combining counts is associative: merging a subtree's counts before or
/// after those of its siblings gives the same totals.
pub proof fn lemma_combine_associative(a: Stats, b: Stats, c: Stats)
    ensures
        (a.directories + b.directories) + c.directories == a.directories + (b.directories
            + c.directories),
        (a.files + b.files) + c.files == a.files + (b.files + c.files),
{
}

} // verus!
