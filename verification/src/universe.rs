//! A system of particles: the cell that holds it, the particles, their kinds
//! and the interactions that are declared among kinds.

use vstd::prelude::*;
use std::collections::HashMap;
use core::slice::Iter;
use vstd::std_specs::iter::IteratorSpec;
use crate::cell::UnitCell;
use crate::particle::{Particle, NO_KIND};

verus! {

broadcast use vstd::std_specs::hash::group_hash_axioms;

/// Number of values that a kind can take.
pub const KINDS: u64 = 0x1_0000;

/// The kind that is given to the name in place `slot` of the list of names.
pub open spec fn kind_of_slot(slot: int) -> int {
    slot % 0x1_0000
}

/// The kind that a system with the numbered names `names` gives to `name`:
/// the kind of its number where it is numbered, and of the next free number
/// where it is not.
pub open spec fn kind_in(names: Seq<Seq<char>>, name: Seq<char>) -> int {
    if names.contains(name) {
        kind_of_slot(names.index_of(name))
    } else {
        kind_of_slot(names.len() as int)
    }
}

/// The numbered names of a system that had numbered `names` and was then
/// asked for the kind of `name`.
pub open spec fn names_with(names: Seq<Seq<char>>, name: Seq<char>) -> Seq<Seq<char>> {
    if names.contains(name) {
        names
    } else {
        names.push(name)
    }
}

/// Key under which the interactions of a pair of kinds are filed.
pub open spec fn pair_key(i: u16, j: u16) -> u64 {
    (i * 0x1_0000 + j) as u64
}

/// Key under which the interactions of three kinds are filed.
pub open spec fn angle_key(i: u16, j: u16, k: u16) -> u64 {
    ((i * 0x1_0000 + j) * 0x1_0000 + k) as u64
}

/// Key under which the interactions of four kinds are filed.
pub open spec fn dihedral_key(i: u16, j: u16, k: u16, m: u16) -> u64 {
    (((i * 0x1_0000 + j) * 0x1_0000 + k) * 0x1_0000 + m) as u64
}

/// The interactions filed under `key`, in the order in which they were added;
/// none where nothing was filed.
pub open spec fn filed(book: Map<u64, Vec<usize>>, key: u64) -> Seq<usize> {
    if book.contains_key(key) {
        book[key]@
    } else {
        Seq::empty()
    }
}

/// `after` is `before` with `potential` added at the end of what is filed
/// under `key`.
pub open spec fn filed_one_more(
    before: Map<u64, Vec<usize>>,
    after: Map<u64, Vec<usize>>,
    key: u64,
    potential: usize,
) -> bool {
    &&& after.contains_key(key)
    &&& after[key]@ == filed(before, key).push(potential)
    &&& forall|other: u64|
        other != key ==> (after.contains_key(other) <==> before.contains_key(other))
    &&& forall|other: u64| other != key && before.contains_key(other) ==> after[other] == before[other]
}

/// Files `potential` under `key`, after what is filed there already.
fn file(book: &mut HashMap<u64, Vec<usize>>, key: u64, potential: usize)
    ensures
        filed_one_more(old(book)@, final(book)@, key, potential),
{
    let mut list = match book.remove(&key) {
        Some(list) => list,
        None => Vec::new(),
    };
    list.push(potential);
    book.insert(key, list);
}

/// A system of particles.
///
/// The particles stand in the order in which they were added. Names of
/// particles are numbered in the order in which the system first met them;
/// the kind of a name is its number, cut to 16 bits. Interactions are known
/// to the system as numbers that the caller chose for them, filed under the
/// kinds of the particles that they bind.
pub struct Universe {
    cell: UnitCell,
    particles: Vec<Particle>,
    kinds: Vec<String>,
    pairs: HashMap<u64, Vec<usize>>,
    angles: HashMap<u64, Vec<usize>>,
    dihedrals: HashMap<u64, Vec<usize>>,
}

impl Universe {
    /// The names that the system has numbered are all different.
    pub closed spec fn wf(&self) -> bool {
        forall|i: int, j: int|
            0 <= i < j < self.kinds@.len() ==> (#[trigger] self.kinds@[i])@ != (
            #[trigger] self.kinds@[j])@
    }

    /// The cell of the system.
    pub closed spec fn spec_cell(&self) -> UnitCell {
        self.cell
    }

    /// The particles of the system, in order.
    pub closed spec fn spec_particles(&self) -> Seq<Particle> {
        self.particles@
    }

    /// The names that the system has numbered, in order.
    pub closed spec fn spec_kinds(&self) -> Seq<Seq<char>> {
        Seq::new(self.kinds@.len(), |i: int| self.kinds@[i]@)
    }

    /// The pair interactions filed under the kinds `i` and `j`.
    pub closed spec fn spec_pairs(&self, i: u16, j: u16) -> Seq<usize> {
        filed(self.pairs@, pair_key(i, j))
    }

    /// The angle interactions filed under the kinds `i`, `j` and `k`.
    pub closed spec fn spec_angles(&self, i: u16, j: u16, k: u16) -> Seq<usize> {
        filed(self.angles@, angle_key(i, j, k))
    }

    /// The dihedral interactions filed under the kinds `i`, `j`, `k` and `m`.
    pub closed spec fn spec_dihedrals(&self, i: u16, j: u16, k: u16, m: u16) -> Seq<usize> {
        filed(self.dihedrals@, dihedral_key(i, j, k, m))
    }

    /// Whether anything was ever filed under the kinds `i` and `j`.
    pub closed spec fn has_pairs(&self, i: u16, j: u16) -> bool {
        self.pairs@.contains_key(pair_key(i, j))
    }

    /// Whether anything was ever filed under the kinds `i`, `j` and `k`.
    pub closed spec fn has_angles(&self, i: u16, j: u16, k: u16) -> bool {
        self.angles@.contains_key(angle_key(i, j, k))
    }

    /// Whether anything was ever filed under the kinds `i`, `j`, `k` and `m`.
    pub closed spec fn has_dihedrals(&self, i: u16, j: u16, k: u16, m: u16) -> bool {
        self.dihedrals@.contains_key(dihedral_key(i, j, k, m))
    }

    /// The kind that the system gives to `name`.
    pub open spec fn kind_for(&self, name: Seq<char>) -> int {
        kind_in(self.spec_kinds(), name)
    }

    /// The names that the system has numbered once it has been asked for the
    /// kind of `name`.
    pub open spec fn kinds_with(&self, name: Seq<char>) -> Seq<Seq<char>> {
        names_with(self.spec_kinds(), name)
    }

    /// Whether `self` and `other` agree in everything but the particles and
    /// the numbered names.
    pub open spec fn same_setting(&self, other: &Universe) -> bool {
        &&& self.spec_cell() == other.spec_cell()
        &&& self.same_interactions(other)
    }

    /// Whether `self` and `other` hold the same interactions.
    pub open spec fn same_interactions(&self, other: &Universe) -> bool {
        &&& forall|i: u16, j: u16|
            self.has_pairs(i, j) == other.has_pairs(i, j) && self.spec_pairs(i, j)
                == other.spec_pairs(i, j)
        &&& forall|i: u16, j: u16, k: u16|
            self.has_angles(i, j, k) == other.has_angles(i, j, k) && self.spec_angles(i, j, k)
                == other.spec_angles(i, j, k)
        &&& forall|i: u16, j: u16, k: u16, m: u16|
            self.has_dihedrals(i, j, k, m) == other.has_dihedrals(i, j, k, m)
                && self.spec_dihedrals(i, j, k, m) == other.spec_dihedrals(i, j, k, m)
    }

    /// An empty system in a cell without boundaries.
    pub fn new() -> (universe: Universe)
        ensures
            universe.wf(),
            universe.spec_particles().len() == 0,
            universe.spec_kinds().len() == 0,
            universe.spec_cell() == UnitCell::new(),
            forall|i: u16, j: u16| !universe.has_pairs(i, j),
            forall|i: u16, j: u16, k: u16| !universe.has_angles(i, j, k),
            forall|i: u16, j: u16, k: u16, m: u16| !universe.has_dihedrals(i, j, k, m),
    {
        Universe {
            particles: Vec::new(),
            kinds: Vec::new(),
            pairs: HashMap::new(),
            angles: HashMap::new(),
            dihedrals: HashMap::new(),
            cell: UnitCell::new(),
        }
    }

    /// An empty system in the cell `cell`.
    pub fn from_cell(cell: UnitCell) -> (universe: Universe)
        ensures
            universe.wf(),
            universe.spec_particles().len() == 0,
            universe.spec_kinds().len() == 0,
            universe.spec_cell() == cell,
            forall|i: u16, j: u16| !universe.has_pairs(i, j),
            forall|i: u16, j: u16, k: u16| !universe.has_angles(i, j, k),
            forall|i: u16, j: u16, k: u16, m: u16| !universe.has_dihedrals(i, j, k, m),
    {
        let mut universe = Universe::new();
        universe.set_cell(cell);
        universe
    }

    /// The cell of the system.
    pub fn cell(&self) -> (cell: &UnitCell)
        ensures
            *cell == self.spec_cell(),
    {
        &self.cell
    }

    /// Puts the system in the cell `cell`.
    pub fn set_cell(&mut self, cell: UnitCell)
        requires
            old(self).wf(),
        ensures
            final(self).wf(),
            final(self).spec_cell() == cell,
            final(self).spec_particles() == old(self).spec_particles(),
            final(self).spec_kinds() == old(self).spec_kinds(),
            final(self).same_interactions(old(self)),
    {
        self.cell = cell;
    }

    /// Adds the particle `p` after the particles of the system. A particle
    /// without a kind is given the kind of its name.
    pub fn add_particle(&mut self, p: Particle)
        requires
            old(self).wf(),
        ensures
            final(self).wf(),
            final(self).same_setting(old(self)),
            p.spec_kind() != NO_KIND ==> final(self).spec_kinds() == old(self).spec_kinds()
                && final(self).spec_particles() == old(self).spec_particles().push(p),
            p.spec_kind() == NO_KIND ==> final(self).spec_kinds() == old(self).kinds_with(
                p.spec_name(),
            ) && final(self).spec_particles() == old(self).spec_particles().push(
                p.with_kind(old(self).kind_for(p.spec_name()) as u16),
            ),
    {
        let mut part = p;
        if part.kind() == NO_KIND {
            let kind = self.get_kind(part.name());
            part.set_kind(kind);
        }
        self.push_particle(part);
    }

    /// Adds `part` after the particles of the system, as it is.
    fn push_particle(&mut self, part: Particle)
        requires
            old(self).wf(),
        ensures
            final(self).wf(),
            final(self).same_setting(old(self)),
            final(self).spec_kinds() == old(self).spec_kinds(),
            final(self).spec_particles() == old(self).spec_particles().push(part),
    {
        self.particles.push(part);
    }

    /// The number of particles in the system.
    pub fn size(&self) -> (size: usize)
        ensures
            size == self.spec_particles().len(),
    {
        self.particles.len()
    }

    /// The kind of `name`. A name that the system meets for the first time
    /// is numbered on the way.
    pub fn get_kind(&mut self, name: &str) -> (kind: u16)
        requires
            old(self).wf(),
        ensures
            final(self).wf(),
            kind == old(self).kind_for(name@),
            final(self).spec_kinds() == old(self).kinds_with(name@),
            final(self).spec_particles() == old(self).spec_particles(),
            final(self).same_setting(old(self)),
    {
        let wanted = name.to_owned();
        let ghost names = self.spec_kinds();
        let mut slot: usize = 0;
        while slot < self.kinds.len()
            invariant
                slot <= self.kinds@.len(),
                wanted@ == name@,
                names == self.spec_kinds(),
                self.wf(),
                *self == *old(self),
                forall|i: int| 0 <= i < slot ==> names[i] != name@,
            decreases self.kinds@.len() - slot,
        {
            if self.kinds[slot] == wanted {
                proof {
                    assert(names[slot as int] == name@);
                    let found = names.index_of(name@);
                    assert(names.contains(name@));
                    assert(names[found] == name@);
                    if found != slot {
                        assert(self.kinds@[found]@ == name@);
                        assert(self.kinds@[slot as int]@ == name@);
                    }
                }
                return (slot % 0x1_0000) as u16;
            }
            slot = slot + 1;
        }
        proof {
            assert(!names.contains(name@));
        }
        let index = self.kinds.len();
        self.kinds.push(wanted);
        proof {
            assert(self.spec_kinds() =~= names.push(name@));
            assert forall|i: int, j: int| 0 <= i < j < self.kinds@.len() implies (
            #[trigger] self.kinds@[i])@ != (#[trigger] self.kinds@[j])@ by {
                if j == index {
                    assert(names[i] != name@);
                    assert(self.kinds@[i]@ == names[i]);
                } else {
                    assert(old(self).kinds@[i]@ != old(self).kinds@[j]@);
                }
            }
        }
        (index % 0x1_0000) as u16
    }

    /// The particles of the system, in order.
    pub fn iter(&self) -> (iter: Iter<'_, Particle>)
        ensures
            IteratorSpec::remaining(&iter) == self.spec_particles().as_ref(),
            IteratorSpec::decrease(&iter) is Some,
            IteratorSpec::initial_value_relation(&iter, &iter),
    {
        broadcast use vstd::std_specs::slice::axiom_spec_slice_iter;

        self.particles.as_slice().iter()
    }

    /// The particle in place `index`.
    pub fn index(&self, index: usize) -> (particle: &Particle)
        requires
            index < self.spec_particles().len(),
        ensures
            *particle == self.spec_particles()[index as int],
    {
        &self.particles[index]
    }

    /// The particle in place `index`, to be changed in place. Every other
    /// particle stays as it is.
    pub fn index_mut(&mut self, index: usize) -> (particle: &mut Particle)
        requires
            old(self).wf(),
            index < old(self).spec_particles().len(),
        ensures
            final(self).wf(),
            *particle == old(self).spec_particles()[index as int],
            final(self).spec_particles() == old(self).spec_particles().update(
                index as int,
                *final(particle),
            ),
            final(self).spec_kinds() == old(self).spec_kinds(),
            final(self).same_setting(old(self)),
    {
        &mut self.particles[index]
    }

    /// The pair interactions between the particles in places `i` and `j`,
    /// where any were declared for their kinds.
    pub fn try_pairs(&self, i: usize, j: usize) -> (found: Option<&Vec<usize>>)
        requires
            i < self.spec_particles().len(),
            j < self.spec_particles().len(),
        ensures
            found.is_some() == self.has_pairs(
                self.spec_particles()[i as int].kind,
                self.spec_particles()[j as int].kind,
            ),
            found.is_some() ==> found.unwrap()@ == self.spec_pairs(
                self.spec_particles()[i as int].kind,
                self.spec_particles()[j as int].kind,
            ),
    {
        let ikind = self.particles[i].kind();
        let jkind = self.particles[j].kind();
        let key: u64 = (ikind as u64) * KINDS + (jkind as u64);
        self.pairs.get(&key)
    }

    /// The pair interactions between the particles in places `i` and `j`.
    pub fn pairs(&self, i: usize, j: usize) -> (found: &Vec<usize>)
        requires
            i < self.spec_particles().len(),
            j < self.spec_particles().len(),
            self.has_pairs(
                self.spec_particles()[i as int].kind,
                self.spec_particles()[j as int].kind,
            ),
        ensures
            found@ == self.spec_pairs(
                self.spec_particles()[i as int].kind,
                self.spec_particles()[j as int].kind,
            ),
    {
        match self.try_pairs(i, j) {
            Some(found) => found,
            None => vstd::pervasive::unreached(),
        }
    }

    /// The angle interactions between the particles in places `i`, `j` and
    /// `k`, where any were declared for their kinds.
    pub fn try_angles(&self, i: usize, j: usize, k: usize) -> (found: Option<&Vec<usize>>)
        requires
            i < self.spec_particles().len(),
            j < self.spec_particles().len(),
            k < self.spec_particles().len(),
        ensures
            found.is_some() == self.has_angles(
                self.spec_particles()[i as int].kind,
                self.spec_particles()[j as int].kind,
                self.spec_particles()[k as int].kind,
            ),
            found.is_some() ==> found.unwrap()@ == self.spec_angles(
                self.spec_particles()[i as int].kind,
                self.spec_particles()[j as int].kind,
                self.spec_particles()[k as int].kind,
            ),
    {
        let ikind = self.particles[i].kind();
        let jkind = self.particles[j].kind();
        let kkind = self.particles[k].kind();
        let key: u64 = ((ikind as u64) * KINDS + (jkind as u64)) * KINDS + (kkind as u64);
        self.angles.get(&key)
    }

    /// The angle interactions between the particles in places `i`, `j` and
    /// `k`.
    pub fn angles(&self, i: usize, j: usize, k: usize) -> (found: &Vec<usize>)
        requires
            i < self.spec_particles().len(),
            j < self.spec_particles().len(),
            k < self.spec_particles().len(),
            self.has_angles(
                self.spec_particles()[i as int].kind,
                self.spec_particles()[j as int].kind,
                self.spec_particles()[k as int].kind,
            ),
        ensures
            found@ == self.spec_angles(
                self.spec_particles()[i as int].kind,
                self.spec_particles()[j as int].kind,
                self.spec_particles()[k as int].kind,
            ),
    {
        match self.try_angles(i, j, k) {
            Some(found) => found,
            None => vstd::pervasive::unreached(),
        }
    }

    /// The dihedral interactions between the particles in places `i`, `j`,
    /// `k` and `m`, where any were declared for their kinds.
    pub fn try_dihedrals(&self, i: usize, j: usize, k: usize, m: usize) -> (found: Option<
        &Vec<usize>,
    >)
        requires
            i < self.spec_particles().len(),
            j < self.spec_particles().len(),
            k < self.spec_particles().len(),
            m < self.spec_particles().len(),
        ensures
            found.is_some() == self.has_dihedrals(
                self.spec_particles()[i as int].kind,
                self.spec_particles()[j as int].kind,
                self.spec_particles()[k as int].kind,
                self.spec_particles()[m as int].kind,
            ),
            found.is_some() ==> found.unwrap()@ == self.spec_dihedrals(
                self.spec_particles()[i as int].kind,
                self.spec_particles()[j as int].kind,
                self.spec_particles()[k as int].kind,
                self.spec_particles()[m as int].kind,
            ),
    {
        let ikind = self.particles[i].kind();
        let jkind = self.particles[j].kind();
        let kkind = self.particles[k].kind();
        let mkind = self.particles[m].kind();
        let key: u64 = (((ikind as u64) * KINDS + (jkind as u64)) * KINDS + (kkind as u64))
            * KINDS + (mkind as u64);
        self.dihedrals.get(&key)
    }

    /// The dihedral interactions between the particles in places `i`, `j`,
    /// `k` and `m`.
    pub fn dihedrals(&self, i: usize, j: usize, k: usize, m: usize) -> (found: &Vec<usize>)
        requires
            i < self.spec_particles().len(),
            j < self.spec_particles().len(),
            k < self.spec_particles().len(),
            m < self.spec_particles().len(),
            self.has_dihedrals(
                self.spec_particles()[i as int].kind,
                self.spec_particles()[j as int].kind,
                self.spec_particles()[k as int].kind,
                self.spec_particles()[m as int].kind,
            ),
        ensures
            found@ == self.spec_dihedrals(
                self.spec_particles()[i as int].kind,
                self.spec_particles()[j as int].kind,
                self.spec_particles()[k as int].kind,
                self.spec_particles()[m as int].kind,
            ),
    {
        match self.try_dihedrals(i, j, k, m) {
            Some(found) => found,
            None => vstd::pervasive::unreached(),
        }
    }

    /// Declares the pair interaction `pot` between particles named `i` and
    /// `j`, after the ones declared for their kinds before. Names that the
    /// system meets for the first time are numbered on the way, `i` first.
    pub fn add_pair_interaction(&mut self, i: &str, j: &str, pot: usize)
        requires
            old(self).wf(),
        ensures
            final(self).wf(),
            final(self).spec_cell() == old(self).spec_cell(),
            final(self).spec_particles() == old(self).spec_particles(),
            final(self).spec_kinds() == names_with(names_with(old(self).spec_kinds(), i@), j@),
            ({
                let ikind = kind_in(old(self).spec_kinds(), i@) as u16;
                let jkind = kind_in(names_with(old(self).spec_kinds(), i@), j@) as u16;
                &&& final(self).has_pairs(ikind, jkind)
                &&& final(self).spec_pairs(ikind, jkind) == old(self).spec_pairs(ikind, jkind).push(
                    pot,
                )
                &&& forall|a: u16, b: u16|
                    (a, b) != (ikind, jkind) ==> final(self).has_pairs(a, b) == old(self).has_pairs(
                        a,
                        b,
                    ) && final(self).spec_pairs(a, b) == old(self).spec_pairs(a, b)
            }),
            forall|a: u16, b: u16, c: u16|
                final(self).has_angles(a, b, c) == old(self).has_angles(a, b, c)
                    && final(self).spec_angles(a, b, c) == old(self).spec_angles(a, b, c),
            forall|a: u16, b: u16, c: u16, d: u16|
                final(self).has_dihedrals(a, b, c, d) == old(self).has_dihedrals(a, b, c, d)
                    && final(self).spec_dihedrals(a, b, c, d) == old(self).spec_dihedrals(
                    a,
                    b,
                    c,
                    d,
                ),
    {
        let ikind = self.get_kind(i);
        let jkind = self.get_kind(j);
        let key: u64 = (ikind as u64) * KINDS + (jkind as u64);
        file(&mut self.pairs, key, pot);
    }

    /// Declares the angle interaction `pot` between particles named `i`, `j`
    /// and `k`, after the ones declared for their kinds before. Names that
    /// the system meets for the first time are numbered on the way, from the
    /// left.
    pub fn add_angle_interaction(&mut self, i: &str, j: &str, k: &str, pot: usize)
        requires
            old(self).wf(),
        ensures
            final(self).wf(),
            final(self).spec_cell() == old(self).spec_cell(),
            final(self).spec_particles() == old(self).spec_particles(),
            final(self).spec_kinds() == names_with(
                names_with(names_with(old(self).spec_kinds(), i@), j@),
                k@,
            ),
            ({
                let first = names_with(old(self).spec_kinds(), i@);
                let second = names_with(first, j@);
                let ikind = kind_in(old(self).spec_kinds(), i@) as u16;
                let jkind = kind_in(first, j@) as u16;
                let kkind = kind_in(second, k@) as u16;
                &&& final(self).has_angles(ikind, jkind, kkind)
                &&& final(self).spec_angles(ikind, jkind, kkind) == old(self).spec_angles(
                    ikind,
                    jkind,
                    kkind,
                ).push(pot)
                &&& forall|a: u16, b: u16, c: u16|
                    (a, b, c) != (ikind, jkind, kkind) ==> final(self).has_angles(a, b, c) == old(
                        self,
                    ).has_angles(a, b, c) && final(self).spec_angles(a, b, c) == old(
                        self,
                    ).spec_angles(a, b, c)
            }),
            forall|a: u16, b: u16|
                final(self).has_pairs(a, b) == old(self).has_pairs(a, b) && final(self).spec_pairs(
                    a,
                    b,
                ) == old(self).spec_pairs(a, b),
            forall|a: u16, b: u16, c: u16, d: u16|
                final(self).has_dihedrals(a, b, c, d) == old(self).has_dihedrals(a, b, c, d)
                    && final(self).spec_dihedrals(a, b, c, d) == old(self).spec_dihedrals(
                    a,
                    b,
                    c,
                    d,
                ),
    {
        let ikind = self.get_kind(i);
        let jkind = self.get_kind(j);
        let kkind = self.get_kind(k);
        let key: u64 = ((ikind as u64) * KINDS + (jkind as u64)) * KINDS + (kkind as u64);
        file(&mut self.angles, key, pot);
    }

    /// Declares the dihedral interaction `pot` between particles named `i`,
    /// `j`, `k` and `m`, after the ones declared for their kinds before.
    /// Names that the system meets for the first time are numbered on the
    /// way, from the left.
    pub fn add_dihedral_interaction(&mut self, i: &str, j: &str, k: &str, m: &str, pot: usize)
        requires
            old(self).wf(),
        ensures
            final(self).wf(),
            final(self).spec_cell() == old(self).spec_cell(),
            final(self).spec_particles() == old(self).spec_particles(),
            final(self).spec_kinds() == names_with(
                names_with(names_with(names_with(old(self).spec_kinds(), i@), j@), k@),
                m@,
            ),
            ({
                let first = names_with(old(self).spec_kinds(), i@);
                let second = names_with(first, j@);
                let third = names_with(second, k@);
                let ikind = kind_in(old(self).spec_kinds(), i@) as u16;
                let jkind = kind_in(first, j@) as u16;
                let kkind = kind_in(second, k@) as u16;
                let mkind = kind_in(third, m@) as u16;
                &&& final(self).has_dihedrals(ikind, jkind, kkind, mkind)
                &&& final(self).spec_dihedrals(ikind, jkind, kkind, mkind) == old(
                    self,
                ).spec_dihedrals(ikind, jkind, kkind, mkind).push(pot)
                &&& forall|a: u16, b: u16, c: u16, d: u16|
                    (a, b, c, d) != (ikind, jkind, kkind, mkind) ==> final(self).has_dihedrals(
                        a,
                        b,
                        c,
                        d,
                    ) == old(self).has_dihedrals(a, b, c, d) && final(self).spec_dihedrals(
                        a,
                        b,
                        c,
                        d,
                    ) == old(self).spec_dihedrals(a, b, c, d)
            }),
            forall|a: u16, b: u16|
                final(self).has_pairs(a, b) == old(self).has_pairs(a, b) && final(self).spec_pairs(
                    a,
                    b,
                ) == old(self).spec_pairs(a, b),
            forall|a: u16, b: u16, c: u16|
                final(self).has_angles(a, b, c) == old(self).has_angles(a, b, c)
                    && final(self).spec_angles(a, b, c) == old(self).spec_angles(a, b, c),
    {
        let ikind = self.get_kind(i);
        let jkind = self.get_kind(j);
        let kkind = self.get_kind(k);
        let mkind = self.get_kind(m);
        let key: u64 = (((ikind as u64) * KINDS + (jkind as u64)) * KINDS + (kkind as u64))
            * KINDS + (mkind as u64);
        file(&mut self.dihedrals, key, pot);
    }

    /// Kinds for which nothing was declared have no interactions.
    pub proof fn lemma_undeclared_is_empty(&self)
        ensures
            forall|i: u16, j: u16|
                !self.has_pairs(i, j) ==> #[trigger] self.spec_pairs(i, j) == Seq::<usize>::empty(),
            forall|i: u16, j: u16, k: u16|
                !self.has_angles(i, j, k) ==> #[trigger] self.spec_angles(i, j, k) == Seq::<
                    usize,
                >::empty(),
            forall|i: u16, j: u16, k: u16, m: u16|
                !self.has_dihedrals(i, j, k, m) ==> #[trigger] self.spec_dihedrals(i, j, k, m)
                    == Seq::<usize>::empty(),
    {
    }

    /// The names that a system has numbered are all different.
    pub proof fn lemma_kinds_distinct(&self)
        requires
            self.wf(),
        ensures
            forall|i: int, j: int|
                0 <= i < j < self.spec_kinds().len() ==> self.spec_kinds()[i]
                    != self.spec_kinds()[j],
    {
    }

    /// The particles of the system, in order, to be changed in place. The
    /// system has the same number of particles afterwards, and is otherwise
    /// as before.
    pub fn iter_mut(&mut self) -> (particles: &mut [Particle])
        requires
            old(self).wf(),
        ensures
            final(self).wf(),
            particles@ == old(self).spec_particles(),
            final(self).spec_particles() == final(particles)@,
            final(self).spec_kinds() == old(self).spec_kinds(),
            final(self).same_setting(old(self)),
    {
        self.particles.as_mut_slice()
    }
}

} // verus!
