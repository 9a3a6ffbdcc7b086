//! Particles: what a system is made of.

use vstd::prelude::*;
use crate::cell::RawVector;

verus! {

/// The kind of a particle that has not been given one yet.
pub const NO_KIND: u16 = 0xffff;

/// One particle of a system.
///
/// A particle has a name and a kind, a small number that stands for the name
/// inside one system. Mass, charge, position and velocity are carried as raw
/// bits, for the numerical code that owns their meaning.
#[derive(Clone, Debug)]
pub struct Particle {
    /// Name of the particle.
    pub name: String,
    /// Kind of the particle, or `NO_KIND`.
    pub kind: u16,
    /// Mass of the particle, as raw bits.
    pub mass: u64,
    /// Charge of the particle, as raw bits.
    pub charge: u64,
    /// Position of the particle, as raw bits.
    pub position: RawVector,
    /// Velocity of the particle, as raw bits.
    pub velocity: RawVector,
}

impl Particle {
    /// The name of the particle.
    pub open spec fn spec_name(&self) -> Seq<char> {
        self.name@
    }

    /// The kind of the particle.
    pub open spec fn spec_kind(&self) -> u16 {
        self.kind
    }

    /// The particle that differs from `self` in its kind only, which is
    /// `kind`.
    pub open spec fn with_kind(self, kind: u16) -> Particle {
        Particle { kind, ..self }
    }

    /// A particle called `name`, without a kind, with every other datum made
    /// of zero bits.
    pub fn new(name: &str) -> (particle: Particle)
        ensures
            particle.spec_name() == name@,
            particle.spec_kind() == NO_KIND,
            particle.mass == 0,
            particle.charge == 0,
            particle.position == (RawVector { x: 0, y: 0, z: 0 }),
            particle.velocity == (RawVector { x: 0, y: 0, z: 0 }),
    {
        let zero = RawVector { x: 0, y: 0, z: 0 };
        Particle {
            name: name.to_owned(),
            kind: NO_KIND,
            mass: 0,
            charge: 0,
            position: zero,
            velocity: zero,
        }
    }

    /// The name of the particle.
    pub fn name(&self) -> (name: &str)
        ensures
            name@ == self.spec_name(),
    {
        self.name.as_str()
    }

    /// The kind of the particle.
    #[verifier::when_used_as_spec(spec_kind)]
    pub fn kind(&self) -> (kind: u16)
        ensures
            kind == self.spec_kind(),
    {
        self.kind
    }

    /// Gives the particle the kind `kind`, and changes nothing else.
    pub fn set_kind(&mut self, kind: u16)
        ensures
            *final(self) == old(self).with_kind(kind),
    {
        self.kind = kind;
    }
}

} // verus!
