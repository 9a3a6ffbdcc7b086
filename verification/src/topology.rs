//! Which particles are bonded, and which molecule each belongs to.
//!
//! Particles are numbered from zero in the order in which they are added,
//! and so are molecules. A new particle is a molecule of its own. A bond
//! between particles of two molecules makes one molecule of the two: it
//! takes the smaller of the two numbers, and the molecules after the larger
//! one move up by one place.

use vstd::prelude::*;
use crate::restriction::BondPath;

verus! {

/// The number that a molecule has after the molecules `into` and `gone`,
/// with `into < gone`, became one.
pub open spec fn merged(id: usize, into: usize, gone: usize) -> usize {
    if id == gone {
        into
    } else if id > gone {
        (id - 1) as usize
    } else {
        id
    }
}

/// The bonds and the molecules of a system of particles.
#[derive(Clone, Debug)]
pub struct Topology {
    neighbors: Vec<Vec<usize>>,
    molecule_of: Vec<usize>,
    count: usize,
}

impl Topology {
    /// Every particle has its list of bonded particles and its molecule;
    /// bonds join two different particles of one molecule, and are known to
    /// both; every molecule has a particle.
    pub closed spec fn wf(&self) -> bool {
        &&& self.neighbors@.len() == self.molecule_of@.len()
        &&& forall|i: int, n: int|
            0 <= i < self.neighbors@.len() && 0 <= n < self.neighbors@[i]@.len() ==> {
                let j = #[trigger] self.neighbors@[i]@[n];
                &&& j < self.neighbors@.len()
                &&& j != i
                &&& self.neighbors@[j as int]@.contains(i as usize)
                &&& self.molecule_of@[j as int] == self.molecule_of@[i]
            }
        &&& forall|i: int| 0 <= i < self.molecule_of@.len() ==> #[trigger] self.molecule_of@[i] < self.count
        &&& forall|m: usize| m < self.count ==> #[trigger] self.inhabited(m)
    }

    /// Whether the molecule `m` has a particle.
    pub closed spec fn inhabited(&self, m: usize) -> bool {
        exists|i: int| 0 <= i < self.molecule_of@.len() && #[trigger] self.molecule_of@[i] == m
    }

    /// The number of particles.
    pub open spec fn spec_size(&self) -> nat {
        self.spec_molecule_of().len()
    }

    /// The number of molecules.
    pub closed spec fn spec_count(&self) -> usize {
        self.count
    }

    /// The molecule of each particle.
    pub closed spec fn spec_molecule_of(&self) -> Seq<usize> {
        self.molecule_of@
    }

    /// Whether the particles `i` and `j` are bonded to each other.
    pub closed spec fn bonded(&self, i: usize, j: usize) -> bool {
        i < self.neighbors@.len() && self.neighbors@[i as int]@.contains(j)
    }

    /// How the particles `i` and `j` are connected through bonds: by the
    /// smallest number of bonds, up to three, that lead from one to the
    /// other inside their molecule.
    pub open spec fn path(&self, i: usize, j: usize) -> BondPath {
        if i == j {
            BondPath::SameParticle
        } else if self.spec_molecule_of()[i as int] != self.spec_molecule_of()[j as int] {
            BondPath::Disconnected
        } else if self.bonded(i, j) {
            BondPath::OneBond
        } else if exists|k: usize| #[trigger] self.bonded(i, k) && self.bonded(k, j) {
            BondPath::TwoBonds
        } else if exists|k: usize, m: usize|
            #[trigger] self.bonded(i, k) && #[trigger] self.bonded(k, m) && self.bonded(m, j) {
            BondPath::ThreeBonds
        } else {
            BondPath::Far
        }
    }

    /// A system without particles.
    pub fn new() -> (topology: Topology)
        ensures
            topology.wf(),
            topology.spec_size() == 0,
            topology.spec_count() == 0,
            forall|i: usize, j: usize| !topology.bonded(i, j),
    {
        Topology { neighbors: Vec::new(), molecule_of: Vec::new(), count: 0 }
    }

    /// The number of particles.
    pub fn size(&self) -> (size: usize)
        ensures
            size == self.spec_size(),
    {
        self.molecule_of.len()
    }

    /// The number of molecules.
    pub fn molecule_count(&self) -> (count: usize)
        ensures
            count == self.spec_count(),
    {
        self.count
    }

    /// The molecule of particle `i`.
    pub fn molecule_id(&self, i: usize) -> (id: usize)
        requires
            self.wf(),
            i < self.spec_size(),
        ensures
            id == self.spec_molecule_of()[i as int],
            id < self.spec_count(),
    {
        self.molecule_of[i]
    }

    /// Adds a particle, which is a molecule of its own and has no bond, and
    /// gives its number.
    pub fn add_particle(&mut self) -> (particle: usize)
        requires
            old(self).wf(),
            old(self).spec_count() < usize::MAX,
        ensures
            final(self).wf(),
            particle == old(self).spec_size(),
            final(self).spec_count() == old(self).spec_count() + 1,
            final(self).spec_molecule_of() == old(self).spec_molecule_of().push(
                old(self).spec_count(),
            ),
            forall|i: usize, j: usize| final(self).bonded(i, j) == old(self).bonded(i, j),
    {
        let particle = self.molecule_of.len();
        self.neighbors.push(Vec::new());
        self.molecule_of.push(self.count);
        self.count = self.count + 1;
        proof {
            assert forall|i: int, n: int|
                0 <= i < self.neighbors@.len() && 0 <= n < self.neighbors@[i]@.len() implies {
                let j = #[trigger] self.neighbors@[i]@[n];
                &&& j < self.neighbors@.len()
                &&& j != i
                &&& self.neighbors@[j as int]@.contains(i as usize)
                &&& self.molecule_of@[j as int] == self.molecule_of@[i]
            } by {
                assert(self.neighbors@[i] == old(self).neighbors@[i]);
                let j = old(self).neighbors@[i]@[n];
                assert(self.neighbors@[j as int] == old(self).neighbors@[j as int]);
            }
            assert forall|m: usize| m < self.count implies #[trigger] self.inhabited(m) by {
                if m < old(self).count {
                    assert(old(self).inhabited(m));
                    let i = choose|i: int|
                        0 <= i < old(self).molecule_of@.len() && #[trigger] old(self).molecule_of@[i]
                            == m;
                    assert(self.molecule_of@[i] == m);
                } else {
                    assert(self.molecule_of@[particle as int] == m);
                }
            }
            assert forall|i: usize, j: usize| self.bonded(i, j) == old(self).bonded(i, j) by {
                if i < old(self).neighbors@.len() {
                    assert(self.neighbors@[i as int] == old(self).neighbors@[i as int]);
                }
            }
        }
        particle
    }

    /// Adds `j` to the particles that `i` is bonded to.
    fn link(&mut self, i: usize, j: usize)
        requires
            i < old(self).neighbors@.len(),
        ensures
            final(self).molecule_of == old(self).molecule_of,
            final(self).count == old(self).count,
            final(self).neighbors@.len() == old(self).neighbors@.len(),
            final(self).neighbors@[i as int]@ == old(self).neighbors@[i as int]@.push(j),
            forall|a: int|
                0 <= a < old(self).neighbors@.len() && a != i ==> final(self).neighbors@[a] == old(
                    self,
                ).neighbors@[a],
    {
        let mut list: Vec<usize> = Vec::new();
        core::mem::swap(&mut list, &mut self.neighbors[i]);
        list.push(j);
        self.neighbors[i] = list;
    }

    /// Bonds the particles `i` and `j`, which makes one molecule of their
    /// molecules. A bond that is there already is not added again.
    pub fn add_bond(&mut self, i: usize, j: usize)
        requires
            old(self).wf(),
            i < old(self).spec_size(),
            j < old(self).spec_size(),
            i != j,
        ensures
            final(self).wf(),
            final(self).spec_size() == old(self).spec_size(),
            forall|a: usize, b: usize|
                final(self).bonded(a, b) == (old(self).bonded(a, b) || (a == i && b == j) || (a == j
                    && b == i)),
            old(self).spec_molecule_of()[i as int] == old(self).spec_molecule_of()[j as int] ==> {
                &&& final(self).spec_count() == old(self).spec_count()
                &&& final(self).spec_molecule_of() == old(self).spec_molecule_of()
            },
            old(self).spec_molecule_of()[i as int] != old(self).spec_molecule_of()[j as int] ==> {
                let first = old(self).spec_molecule_of()[i as int];
                let second = old(self).spec_molecule_of()[j as int];
                let into = if first < second { first } else { second };
                let gone = if first < second { second } else { first };
                &&& final(self).spec_count() == old(self).spec_count() - 1
                &&& forall|p: int|
                    0 <= p < old(self).spec_size() ==> #[trigger] final(self).spec_molecule_of()[p]
                        == merged(old(self).spec_molecule_of()[p], into, gone)
            },
    {
        if !self.are_bonded(i, j) {
            self.link(i, j);
            self.link(j, i);
            proof {
                assert forall|a: usize, b: usize|
                    self.bonded(a, b) == (old(self).bonded(a, b) || (a == i && b == j) || (a == j && b
                        == i)) by {
                    if a < old(self).neighbors@.len() {
                        let before = old(self).neighbors@[a as int]@;
                        let after = self.neighbors@[a as int]@;
                        if a == i {
                            assert(after == before.push(j));
                            assert(after[before.len() as int] == j);
                            if before.contains(b) {
                                let n = choose|n: int| 0 <= n < before.len() && before[n] == b;
                                assert(after[n] == b);
                            }
                        } else if a == j {
                            assert(after == before.push(i));
                            assert(after[before.len() as int] == i);
                            if before.contains(b) {
                                let n = choose|n: int| 0 <= n < before.len() && before[n] == b;
                                assert(after[n] == b);
                            }
                        } else {
                            assert(after == before);
                        }
                    }
                }
            }
        } else {
            proof {
                let n = choose|n: int|
                    0 <= n < self.neighbors@[i as int]@.len() && self.neighbors@[i as int]@[n] == j;
                assert(self.neighbors@[j as int]@.contains(i));
            }
        }
        let ghost linked = *self;
        proof {
            assert forall|a: int, n: int|
                0 <= a < linked.neighbors@.len() && 0 <= n < linked.neighbors@[a]@.len() implies {
                let b = #[trigger] linked.neighbors@[a]@[n];
                &&& b < linked.neighbors@.len()
                &&& b != a
                &&& linked.bonded(b, a as usize)
                &&& (old(self).molecule_of@[b as int] == old(self).molecule_of@[a] || (a == i && b
                    == j) || (a == j && b == i))
            } by {
                let b = linked.neighbors@[a]@[n];
                assert(linked.bonded(a as usize, b));
                if old(self).bonded(a as usize, b) {
                    let m = choose|m: int|
                        0 <= m < old(self).neighbors@[a]@.len() && old(self).neighbors@[a]@[m] == b;
                    assert(old(self).neighbors@[b as int]@.contains(a as usize));
                    assert(old(self).bonded(b, a as usize));
                }
            }
        }
        let first = self.molecule_of[i];
        let second = self.molecule_of[j];
        if first == second {
            proof {
                assert forall|a: int, n: int|
                    0 <= a < self.neighbors@.len() && 0 <= n < self.neighbors@[a]@.len() implies {
                    let b = #[trigger] self.neighbors@[a]@[n];
                    &&& b < self.neighbors@.len()
                    &&& b != a
                    &&& self.neighbors@[b as int]@.contains(a as usize)
                    &&& self.molecule_of@[b as int] == self.molecule_of@[a]
                } by {
                    let b = linked.neighbors@[a]@[n];
                    assert(linked.bonded(b, a as usize));
                }
                assert forall|m: usize| m < self.count implies #[trigger] self.inhabited(m) by {
                    assert(old(self).inhabited(m));
                    let q = choose|q: int|
                        0 <= q < old(self).molecule_of@.len() && #[trigger] old(self).molecule_of@[q]
                            == m;
                    assert(self.molecule_of@[q] == m);
                }
            }
            return ;
        }
        let into = if first < second { first } else { second };
        let gone = if first < second { second } else { first };
        let size = self.molecule_of.len();
        let mut p: usize = 0;
        while p < size
            invariant
                p <= size,
                size == linked.molecule_of@.len(),
                self.molecule_of@.len() == size,
                self.neighbors == linked.neighbors,
                self.count == linked.count,
                into < gone < linked.count,
                forall|q: int| 0 <= q < size ==> #[trigger] linked.molecule_of@[q] < linked.count,
                forall|q: int|
                    0 <= q < p ==> #[trigger] self.molecule_of@[q] == merged(
                        linked.molecule_of@[q],
                        into,
                        gone,
                    ),
                forall|q: int| p <= q < size ==> #[trigger] self.molecule_of@[q] == linked.molecule_of@[q],
            decreases size - p,
        {
            let id = self.molecule_of[p];
            if id == gone {
                self.molecule_of[p] = into;
            } else if id > gone {
                self.molecule_of[p] = id - 1;
            }
            p = p + 1;
        }
        self.count = self.count - 1;
        proof {
            assert forall|a: int, n: int|
                0 <= a < self.neighbors@.len() && 0 <= n < self.neighbors@[a]@.len() implies {
                let b = #[trigger] self.neighbors@[a]@[n];
                &&& b < self.neighbors@.len()
                &&& b != a
                &&& self.neighbors@[b as int]@.contains(a as usize)
                &&& self.molecule_of@[b as int] == self.molecule_of@[a]
            } by {
                let b = linked.neighbors@[a]@[n];
                assert(linked.bonded(b, a as usize));
            }
            assert forall|m: usize| m < self.count implies #[trigger] self.inhabited(m) by {
                if m < gone {
                    assert(old(self).inhabited(m));
                    let q = choose|q: int|
                        0 <= q < old(self).molecule_of@.len() && #[trigger] old(self).molecule_of@[q]
                            == m;
                    assert(self.molecule_of@[q] == m);
                } else {
                    assert(old(self).inhabited((m + 1) as usize));
                    let q = choose|q: int|
                        0 <= q < old(self).molecule_of@.len() && #[trigger] old(self).molecule_of@[q]
                            == m + 1;
                    assert(self.molecule_of@[q] == m);
                }
            }
        }
    }

    /// Whether the particles `i` and `j` are bonded to each other.
    pub fn are_bonded(&self, i: usize, j: usize) -> (bonded: bool)
        requires
            i < self.spec_size(),
            self.wf(),
        ensures
            bonded == self.bonded(i, j),
    {
        let list = &self.neighbors[i];
        let mut n: usize = 0;
        while n < list.len()
            invariant
                i < self.neighbors@.len(),
                list@ == self.neighbors@[i as int]@,
                n <= list@.len(),
                forall|m: int| 0 <= m < n ==> list@[m] != j,
            decreases list@.len() - n,
        {
            if list[n] == j {
                return true;
            }
            n = n + 1;
        }
        false
    }

    /// Whether a bond of `i` leads to a particle that is bonded to `j`.
    fn two_bonds(&self, i: usize, j: usize) -> (found: bool)
        requires
            self.wf(),
            i < self.spec_size(),
        ensures
            found == exists|k: usize| #[trigger] self.bonded(i, k) && self.bonded(k, j),
    {
        let list = &self.neighbors[i];
        let mut n: usize = 0;
        while n < list.len()
            invariant
                self.wf(),
                i < self.spec_size(),
                list@ == self.neighbors@[i as int]@,
                n <= list@.len(),
                forall|m: int| 0 <= m < n ==> !self.bonded(#[trigger] list@[m], j),
            decreases list@.len() - n,
        {
            let k = list[n];
            if self.are_bonded(k, j) {
                assert(self.bonded(i, k) && self.bonded(k, j));
                return true;
            }
            n = n + 1;
        }
        proof {
            if exists|k: usize| #[trigger] self.bonded(i, k) && self.bonded(k, j) {
                let k = choose|k: usize| #[trigger] self.bonded(i, k) && self.bonded(k, j);
                let m = choose|m: int| 0 <= m < list@.len() && list@[m] == k;
                assert(!self.bonded(list@[m], j));
            }
        }
        false
    }

    /// Whether a bond of `i` leads to a particle from which two bonds lead
    /// to `j`.
    fn three_bonds(&self, i: usize, j: usize) -> (found: bool)
        requires
            self.wf(),
            i < self.spec_size(),
        ensures
            found == exists|k: usize, m: usize|
                #[trigger] self.bonded(i, k) && #[trigger] self.bonded(k, m) && self.bonded(m, j),
    {
        let list = &self.neighbors[i];
        let mut n: usize = 0;
        while n < list.len()
            invariant
                self.wf(),
                i < self.spec_size(),
                list@ == self.neighbors@[i as int]@,
                n <= list@.len(),
                forall|a: int, m: usize|
                    0 <= a < n ==> !(#[trigger] self.bonded(list@[a], m) && self.bonded(m, j)),
            decreases list@.len() - n,
        {
            let k = list[n];
            if self.two_bonds(k, j) {
                let ghost m = choose|m: usize| #[trigger] self.bonded(k, m) && self.bonded(m, j);
                assert(self.bonded(i, k) && self.bonded(k, m) && self.bonded(m, j));
                return true;
            }
            n = n + 1;
        }
        proof {
            if exists|k: usize, m: usize|
                #[trigger] self.bonded(i, k) && #[trigger] self.bonded(k, m) && self.bonded(m, j) {
                let (k, m) = choose|k: usize, m: usize|
                    #[trigger] self.bonded(i, k) && #[trigger] self.bonded(k, m) && self.bonded(
                        m,
                        j,
                    );
                let a = choose|a: int| 0 <= a < list@.len() && list@[a] == k;
                assert(!(self.bonded(list@[a], m) && self.bonded(m, j)));
            }
        }
        false
    }

    /// How the particles `i` and `j` are connected through bonds.
    pub fn bond_path(&self, i: usize, j: usize) -> (path: BondPath)
        requires
            self.wf(),
            i < self.spec_size(),
            j < self.spec_size(),
        ensures
            path == self.path(i, j),
    {
        if i == j {
            BondPath::SameParticle
        } else if self.molecule_of[i] != self.molecule_of[j] {
            BondPath::Disconnected
        } else if self.are_bonded(i, j) {
            BondPath::OneBond
        } else if self.two_bonds(i, j) {
            BondPath::TwoBonds
        } else if self.three_bonds(i, j) {
            BondPath::ThreeBonds
        } else {
            BondPath::Far
        }
    }

    /// The particles of each molecule, in ascending order.
    pub fn molecules(&self) -> (molecules: Vec<Vec<usize>>)
        requires
            self.wf(),
        ensures
            molecules@.len() == self.spec_count(),
            forall|m: int, n: int|
                0 <= m < molecules@.len() && 0 <= n < molecules@[m]@.len() ==> {
                    let p = #[trigger] molecules@[m]@[n];
                    p < self.spec_size() && self.spec_molecule_of()[p as int] == m
                },
            forall|m: int, a: int, b: int|
                0 <= m < molecules@.len() && 0 <= a < b < molecules@[m]@.len() ==> molecules@[m]@[a]
                    < molecules@[m]@[b],
            forall|p: usize|
                p < self.spec_size() ==> molecules@[self.spec_molecule_of()[p as int] as int]@.contains(
                    p,
                ),
    {
        let mut molecules: Vec<Vec<usize>> = Vec::new();
        let mut m: usize = 0;
        while m < self.count
            invariant
                m <= self.count,
                molecules@.len() == m,
                forall|a: int| 0 <= a < m ==> (#[trigger] molecules@[a])@.len() == 0,
            decreases self.count - m,
        {
            molecules.push(Vec::new());
            m = m + 1;
        }
        let mut p: usize = 0;
        while p < self.molecule_of.len()
            invariant
                self.wf(),
                p <= self.molecule_of@.len(),
                molecules@.len() == self.count,
                forall|m: int, n: int|
                    0 <= m < molecules@.len() && 0 <= n < molecules@[m]@.len() ==> {
                        let q = #[trigger] molecules@[m]@[n];
                        q < p && self.molecule_of@[q as int] == m
                    },
                forall|m: int, a: int, b: int|
                    0 <= m < molecules@.len() && 0 <= a < b < molecules@[m]@.len()
                        ==> molecules@[m]@[a] < molecules@[m]@[b],
                forall|q: usize|
                    q < p ==> molecules@[self.molecule_of@[q as int] as int]@.contains(q),
            decreases self.molecule_of@.len() - p,
        {
            let id = self.molecule_of[p];
            let ghost before = molecules@;
            let mut list: Vec<usize> = Vec::new();
            core::mem::swap(&mut list, &mut molecules[id]);
            list.push(p);
            molecules[id] = list;
            proof {
                assert(molecules@[id as int]@ == before[id as int]@.push(p));
                assert forall|m: int, n: int|
                    0 <= m < molecules@.len() && 0 <= n < molecules@[m]@.len() implies {
                    let q = #[trigger] molecules@[m]@[n];
                    q < p + 1 && self.molecule_of@[q as int] == m
                } by {
                    if m == id {
                        if n < before[m]@.len() {
                            assert(molecules@[m]@[n] == before[m]@[n]);
                        }
                    } else {
                        assert(molecules@[m] == before[m]);
                    }
                }
                assert forall|m: int, a: int, b: int|
                    0 <= m < molecules@.len() && 0 <= a < b < molecules@[m]@.len() implies molecules@[m]@[a]
                    < molecules@[m]@[b] by {
                    if m == id {
                        assert(molecules@[m]@[a] == before[m]@[a]);
                        if b < before[m]@.len() {
                            assert(molecules@[m]@[b] == before[m]@[b]);
                        }
                    } else {
                        assert(molecules@[m] == before[m]);
                    }
                }
                assert forall|q: usize| q < p + 1 implies molecules@[self.molecule_of@[q as int] as int]@.contains(
                    q,
                ) by {
                    let mq = self.molecule_of@[q as int] as int;
                    if q == p {
                        assert(molecules@[mq]@[before[mq]@.len() as int] == p);
                    } else {
                        let n = choose|n: int| 0 <= n < before[mq]@.len() && before[mq]@[n] == q;
                        if mq == id {
                            assert(molecules@[mq]@[n] == q);
                        } else {
                            assert(molecules@[mq] == before[mq]);
                        }
                    }
                }
            }
            p = p + 1;
        }
        molecules
    }
}

} // verus!
