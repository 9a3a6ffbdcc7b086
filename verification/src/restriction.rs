//! Which pairs of particles the direct sum leaves out.

use vstd::prelude::*;

verus! {

/// How two particles are connected through bonds.
#[derive(Clone, Copy, Debug, PartialEq, Eq, Structural)]
pub enum BondPath {
    /// The two particles are not in the same molecule.
    Disconnected,
    /// The two particles are one particle.
    SameParticle,
    /// The two particles are bonded to each other.
    OneBond,
    /// The two particles are two bonds apart.
    TwoBonds,
    /// The two particles are three bonds apart.
    ThreeBonds,
    /// The two particles are in the same molecule, more than three bonds
    /// apart.
    Far,
}

/// Policy for leaving pairs of particles out of the direct sum.
#[derive(Clone, Copy, Debug, PartialEq, Eq, Structural)]
pub enum PairRestriction {
    /// Every pair is taken.
    Unrestricted,
    /// Only pairs of particles of different molecules are taken.
    InterMolecular,
}

/// What a restriction says of one pair.
#[derive(Clone, Copy, Debug, PartialEq, Eq, Structural)]
pub struct RestrictionInfo {
    /// Whether the pair is left out.
    pub excluded: bool,
}

impl PairRestriction {
    /// Whether the restriction leaves out a pair of particles connected by
    /// `path`.
    pub open spec fn excludes(self, path: BondPath) -> bool {
        self == PairRestriction::InterMolecular && path != BondPath::Disconnected
    }

    /// What the restriction says of a pair of particles connected by `path`.
    pub fn information(&self, path: BondPath) -> (info: RestrictionInfo)
        ensures
            info.excluded == self.excludes(path),
    {
        match self {
            PairRestriction::Unrestricted => RestrictionInfo { excluded: false },
            PairRestriction::InterMolecular => RestrictionInfo { excluded: path != BondPath::Disconnected },
        }
    }
}

} // verus!
