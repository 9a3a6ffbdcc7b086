//! Unit cells, as far as the solver has to tell them apart.

use vstd::prelude::*;

verus! {

/// How the three edges of a cell stand to one another.
#[derive(Clone, Copy, Debug, PartialEq, Eq, Structural)]
pub enum CellShape {
    /// No periodic boundary at all.
    Infinite,
    /// Three mutually orthogonal edges.
    Orthorhombic,
    /// Three edges in general position.
    Triclinic,
}

/// Three real components, each carried as the 64 bits of its binary
/// representation. Nothing here computes with them: they are stored, handed
/// back and compared bit for bit.
#[derive(Clone, Copy, Debug, PartialEq, Eq, Structural)]
pub struct RawVector {
    pub x: u64,
    pub y: u64,
    pub z: u64,
}

/// A simulation cell: its shape and its three edge vectors.
///
/// Two cells are the same cell exactly when shape and every component of
/// every edge agree bit for bit.
#[derive(Clone, Copy, Debug, PartialEq, Eq, Structural)]
pub struct UnitCell {
    shape: CellShape,
    a: RawVector,
    b: RawVector,
    c: RawVector,
}

impl UnitCell {
    /// The shape of the cell.
    pub closed spec fn spec_shape(&self) -> CellShape {
        self.shape
    }

    /// The three edges of the cell, in order.
    pub closed spec fn spec_edges(&self) -> (RawVector, RawVector, RawVector) {
        (self.a, self.b, self.c)
    }

    /// The cell without periodic boundaries whose edges are all zero bits.
    pub closed spec fn spec_new() -> UnitCell {
        let zero = RawVector { x: 0, y: 0, z: 0 };
        UnitCell { shape: CellShape::Infinite, a: zero, b: zero, c: zero }
    }

    /// A cell without periodic boundaries; its edges are all zero bits.
    #[verifier::when_used_as_spec(spec_new)]
    pub fn new() -> (cell: UnitCell)
        ensures
            cell == Self::spec_new(),
            cell.spec_shape() == CellShape::Infinite,
            cell.spec_edges() == (
                RawVector { x: 0, y: 0, z: 0 },
                RawVector { x: 0, y: 0, z: 0 },
                RawVector { x: 0, y: 0, z: 0 },
            ),
    {
        let zero = RawVector { x: 0, y: 0, z: 0 };
        UnitCell { shape: CellShape::Infinite, a: zero, b: zero, c: zero }
    }

    /// The cell of the given shape spanned by the edges `a`, `b` and `c`.
    pub fn with_edges(shape: CellShape, a: RawVector, b: RawVector, c: RawVector) -> (cell:
        UnitCell)
        ensures
            cell.spec_shape() == shape,
            cell.spec_edges() == (a, b, c),
    {
        UnitCell { shape, a, b, c }
    }

    /// The shape of the cell.
    #[verifier::when_used_as_spec(spec_shape)]
    pub fn shape(&self) -> (shape: CellShape)
        ensures
            shape == self.spec_shape(),
    {
        self.shape
    }

    /// The three edges of the cell, in order.
    #[verifier::when_used_as_spec(spec_edges)]
    pub fn edges(&self) -> (edges: (RawVector, RawVector, RawVector))
        ensures
            edges == self.spec_edges(),
    {
        (self.a, self.b, self.c)
    }

    /// Whether the cell has no periodic boundaries.
    pub fn is_infinite(&self) -> (infinite: bool)
        ensures
            infinite == (self.spec_shape() == CellShape::Infinite),
    {
        self.shape == CellShape::Infinite
    }

    /// Whether `self` and `other` are the same cell.
    pub fn same_as(&self, other: &UnitCell) -> (same: bool)
        ensures
            same == (*self == *other),
    {
        *self == *other
    }
}

/// A cell is determined by its shape and its edges.
pub proof fn lemma_cell_extensional(p: UnitCell, q: UnitCell)
    requires
        p.spec_shape() == q.spec_shape(),
        p.spec_edges() == q.spec_edges(),
    ensures
        p == q,
{
}

} // verus!
