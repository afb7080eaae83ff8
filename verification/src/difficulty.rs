//! Difficulty tiers of the puzzle corpus.

use vstd::prelude::*;

verus! {

/// The tier a starting grid is drawn from.
#[derive(PartialEq, Eq, Clone, Copy, Debug, Structural)]
pub enum Difficulty {
    Easy,
    Medium,
    Hard,
    VeryHard,
}

impl Difficulty {
    /// Position of the tier on the scale, `Easy` being 0.
    pub open spec fn rank(self) -> int {
        match self {
            Difficulty::Easy => 0,
            Difficulty::Medium => 1,
            Difficulty::Hard => 2,
            Difficulty::VeryHard => 3,
        }
    }

    /// The display name of the tier.
    pub open spec fn name(self) -> Seq<char> {
        match self {
            Difficulty::Easy => "Easy"@,
            Difficulty::Medium => "Medium"@,
            Difficulty::Hard => "Hard"@,
            Difficulty::VeryHard => "Very Hard"@,
        }
    }

    /// The next tier up; `VeryHard` stays where it is.
    pub open spec fn harder_spec(&self) -> Difficulty {
        match self {
            Difficulty::Easy => Difficulty::Medium,
            Difficulty::Medium => Difficulty::Hard,
            Difficulty::Hard => Difficulty::VeryHard,
            Difficulty::VeryHard => Difficulty::VeryHard,
        }
    }

    /// The next tier down; `Easy` stays where it is.
    pub open spec fn easier_spec(&self) -> Difficulty {
        match self {
            Difficulty::Easy => Difficulty::Easy,
            Difficulty::Medium => Difficulty::Easy,
            Difficulty::Hard => Difficulty::Medium,
            Difficulty::VeryHard => Difficulty::Hard,
        }
    }

    pub fn to_string(&self) -> (s: &str)
        ensures
            s@ == self.name(),
    {
        match self {
            Difficulty::Easy => "Easy",
            Difficulty::Medium => "Medium",
            Difficulty::Hard => "Hard",
            Difficulty::VeryHard => "Very Hard",
        }
    }

    #[verifier::when_used_as_spec(harder_spec)]
    pub fn harder(&self) -> (next: Self)
        ensures
            next == self.harder_spec(),
            next.rank() == if self.rank() < 3 { self.rank() + 1 } else { 3 },
    {
        match self {
            Difficulty::Easy => Difficulty::Medium,
            Difficulty::Medium => Difficulty::Hard,
            Difficulty::Hard => Difficulty::VeryHard,
            Difficulty::VeryHard => Difficulty::VeryHard,
        }
    }

    #[verifier::when_used_as_spec(easier_spec)]
    pub fn easier(&self) -> (next: Self)
        ensures
            next == self.easier_spec(),
            next.rank() == if self.rank() > 0 { self.rank() - 1 } else { 0 },
    {
        match self {
            Difficulty::Easy => Difficulty::Easy,
            Difficulty::Medium => Difficulty::Easy,
            Difficulty::Hard => Difficulty::Medium,
            Difficulty::VeryHard => Difficulty::Hard,
        }
    }
}

} // verus!
