//! The normalization levels, in the order in which they were introduced.
//!
//! A level applies its own rule and the rules of every level before it. The
//! order is part of the meaning of text saved at an earlier level: a new level
//! is added at the end.
use vstd::prelude::*;

verus! {

/// The number of levels.
pub const LEVELS: usize = 8;

#[derive(Clone, Copy, PartialEq, Eq, Debug)]
pub enum Normalization {
    Basic,
    StripCouldNotCompile,
    StripCouldNotCompile2,
    StripForMoreInformation,
    StripForMoreInformation2,
    DirBackslash,
    TrimEnd,
    RustLib,
}

impl Normalization {
    /// The position of the level in the order, from 0.
    pub open spec fn spec_rank(self) -> usize {
        match self {
            Normalization::Basic => 0,
            Normalization::StripCouldNotCompile => 1,
            Normalization::StripCouldNotCompile2 => 2,
            Normalization::StripForMoreInformation => 3,
            Normalization::StripForMoreInformation2 => 4,
            Normalization::DirBackslash => 5,
            Normalization::TrimEnd => 6,
            Normalization::RustLib => 7,
        }
    }

    /// The level at position `rank`; the last level for a position past the
    /// end.
    pub open spec fn at(rank: int) -> Normalization {
        if rank <= 0 {
            Normalization::Basic
        } else if rank == 1 {
            Normalization::StripCouldNotCompile
        } else if rank == 2 {
            Normalization::StripCouldNotCompile2
        } else if rank == 3 {
            Normalization::StripForMoreInformation
        } else if rank == 4 {
            Normalization::StripForMoreInformation2
        } else if rank == 5 {
            Normalization::DirBackslash
        } else if rank == 6 {
            Normalization::TrimEnd
        } else {
            Normalization::RustLib
        }
    }

    /// Whether the rules of `other` are among those that `self` applies.
    pub open spec fn spec_includes(self, other: Normalization) -> bool {
        self.spec_rank() >= other.spec_rank()
    }

    /// The position of the level in the order, from 0.
    #[verifier::when_used_as_spec(spec_rank)]
    pub fn rank(self) -> (r: usize)
        ensures
            r == self.spec_rank(),
            r < LEVELS,
    {
        match self {
            Normalization::Basic => 0,
            Normalization::StripCouldNotCompile => 1,
            Normalization::StripCouldNotCompile2 => 2,
            Normalization::StripForMoreInformation => 3,
            Normalization::StripForMoreInformation2 => 4,
            Normalization::DirBackslash => 5,
            Normalization::TrimEnd => 6,
            Normalization::RustLib => 7,
        }
    }

    /// The level at position `rank`, if there is one.
    pub fn from_rank(rank: usize) -> (level: Option<Normalization>)
        ensures
            rank < LEVELS ==> level == Some(Normalization::at(rank as int)),
            rank >= LEVELS ==> level is None,
    {
        match rank {
            0 => Some(Normalization::Basic),
            1 => Some(Normalization::StripCouldNotCompile),
            2 => Some(Normalization::StripCouldNotCompile2),
            3 => Some(Normalization::StripForMoreInformation),
            4 => Some(Normalization::StripForMoreInformation2),
            5 => Some(Normalization::DirBackslash),
            6 => Some(Normalization::TrimEnd),
            7 => Some(Normalization::RustLib),
            _ => None,
        }
    }

    /// Whether the rules of `other` are among those that `self` applies.
    #[verifier::when_used_as_spec(spec_includes)]
    pub fn includes(self, other: Normalization) -> (r: bool)
        ensures
            r == self.spec_includes(other),
    {
        self.rank() >= other.rank()
    }

    /// `at` and `rank` are inverse to each other on the positions below
    /// `LEVELS`, so the levels are exactly `at(0)` to `at(LEVELS - 1)`, in
    /// ascending order.
    pub proof fn lemma_rank_at(self, rank: int)
        ensures
            Normalization::at(self.rank() as int) == self,
            self.rank() < LEVELS,
            0 <= rank < LEVELS ==> Normalization::at(rank).rank() == rank,
    {
    }
}

} // verus!
