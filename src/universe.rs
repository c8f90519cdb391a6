use vstd::prelude::*;

verus! {

/// A "universe" defines the set of all terms (types, permissions, ...) in a program.
/// The root universe holds the terms the user wrote; further universes are created
/// synthetically to introduce free universal variables.
///
/// Universes are ordered: `U1 < U2` means that `U2` can contain strictly more terms
/// than `U1`, and `Universe::ROOT <= U` for every `U`.
#[derive(Clone, Copy, Debug, PartialEq, Eq, Structural, Hash)]
pub struct Universe {
    level: u32,
}

/// Level of the root universe.
pub const ROOT_LEVEL: u32 = 1;

impl Universe {
    pub closed spec fn spec_level(self) -> nat {
        self.level as nat
    }

    /// Every universe sits at level one or more.
    pub closed spec fn wf(self) -> bool {
        self.level >= 1
    }

    pub fn root() -> (r: Universe)
        ensures
            r.spec_level() == 1,
            r.wf(),
    {
        Universe { level: ROOT_LEVEL }
    }

    /// The level of this universe (the root is 1).
    pub fn level(self) -> (r: u32)
        ensures
            r as nat == self.spec_level(),
    {
        self.level
    }

    /// Create a universe one larger than the current universe.
    pub fn next(self) -> (r: Universe)
        requires
            self.spec_level() < u32::MAX,
        ensures
            r.spec_level() == self.spec_level() + 1,
            self.wf() ==> r.wf(),
    {
        Universe { level: self.level + 1 }
    }

    /// True if `self` can see every term of `other` (`other <= self`).
    pub fn contains(self, other: Universe) -> (r: bool)
        ensures
            r == (other.spec_level() <= self.spec_level()),
    {
        other.level <= self.level
    }
}

} // verus!
