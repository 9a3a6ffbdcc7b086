//! A three-dimensional table whose first index may be negative.
//!
//! The table is one dense block. Its first index runs over a range
//! `start..end` of signed integers, the other two start at zero; the entry
//! `(i, j, k)` is stored at place `((i - start) * width + j) * depth + k`.

use vstd::prelude::*;
use core::ops::Range;

verus! {

/// Place of the entry with the unsigned indexes `(a, j, k)` in a block whose
/// second and third axes have the lengths `width` and `depth`.
pub open spec fn place(width: int, depth: int, a: int, j: int, k: int) -> int {
    (a * width + j) * depth + k
}

/// Every entry of a block has a place inside the block.
pub proof fn lemma_place_inside(length: int, width: int, depth: int, a: int, j: int, k: int)
    requires
        0 <= a < length,
        0 <= j < width,
        0 <= k < depth,
    ensures
        0 <= a * width + j < length * width,
        0 <= place(width, depth, a, j, k) < length * width * depth,
{
    assert(0 <= a * width + j < length * width) by (nonlinear_arith)
        requires
            0 <= a < length,
            0 <= j < width,
    ;
    let row = a * width + j;
    let rows = length * width;
    assert(0 <= row * depth + k < rows * depth) by (nonlinear_arith)
        requires
            0 <= row < rows,
            0 <= k < depth,
    ;
}

/// Two entries with one place are one entry.
pub proof fn lemma_place_injective(
    width: int,
    depth: int,
    a1: int,
    j1: int,
    k1: int,
    a2: int,
    j2: int,
    k2: int,
)
    requires
        0 <= j1 < width,
        0 <= k1 < depth,
        0 <= j2 < width,
        0 <= k2 < depth,
        place(width, depth, a1, j1, k1) == place(width, depth, a2, j2, k2),
    ensures
        a1 == a2,
        j1 == j2,
        k1 == k2,
{
    let r1 = a1 * width + j1;
    let r2 = a2 * width + j2;
    assert(r1 == r2) by (nonlinear_arith)
        requires
            r1 * depth + k1 == r2 * depth + k2,
            0 <= k1 < depth,
            0 <= k2 < depth,
    ;
    assert(a1 == a2) by (nonlinear_arith)
        requires
            a1 * width + j1 == a2 * width + j2,
            0 <= j1 < width,
            0 <= j2 < width,
    ;
}

/// Three-dimensional table with a signed first index.
pub struct Ewald3DArray<T> {
    data: Vec<T>,
    start: isize,
    length: usize,
    width: usize,
    depth: usize,
}

impl<T> Ewald3DArray<T> {
    #[verifier::type_invariant]
    closed spec fn inv(self) -> bool {
        self.data@.len() == self.length * self.width * self.depth
    }
}

impl<T: Copy> Ewald3DArray<T> {
    /// First value of the first index.
    pub closed spec fn start(&self) -> int {
        self.start as int
    }

    /// Number of values of the first index.
    pub closed spec fn length(&self) -> int {
        self.length as int
    }

    /// Number of values of the second index.
    pub closed spec fn width(&self) -> int {
        self.width as int
    }

    /// Number of values of the third index.
    pub closed spec fn depth(&self) -> int {
        self.depth as int
    }

    /// Whether the table has an entry `(i, j, k)`.
    pub open spec fn has(&self, i: int, j: int, k: int) -> bool {
        &&& self.start() <= i < self.start() + self.length()
        &&& 0 <= j < self.width()
        &&& 0 <= k < self.depth()
    }

    /// The entry `(i, j, k)`.
    pub closed spec fn at(&self, i: int, j: int, k: int) -> T {
        self.data@[place(self.width as int, self.depth as int, i - self.start, j, k)]
    }

    /// Whether `self` and `other` have the same entries.
    pub open spec fn same_as(&self, other: &Self) -> bool {
        &&& self.start() == other.start()
        &&& self.length() == other.length()
        &&& self.width() == other.width()
        &&& self.depth() == other.depth()
        &&& forall|i: int, j: int, k: int|
            self.has(i, j, k) ==> self.at(i, j, k) == other.at(i, j, k)
    }

    /// A block of `length * width * depth` entries, each equal to `zero`.
    fn block(length: usize, width: usize, depth: usize, zero: T) -> (data: Vec<T>)
        requires
            length * width * depth <= usize::MAX,
        ensures
            data@.len() == length * width * depth,
            forall|n: int| 0 <= n < data@.len() ==> data@[n] == zero,
    {
        let ghost total = length * width * depth;
        let mut data: Vec<T> = Vec::new();
        let mut a: usize = 0;
        while a < length
            invariant
                a <= length,
                total == length * width * depth,
                total <= usize::MAX,
                data@.len() == a * width * depth,
                forall|n: int| 0 <= n < data@.len() ==> data@[n] == zero,
            decreases length - a,
        {
            let mut j: usize = 0;
            while j < width
                invariant
                    a < length,
                    j <= width,
                    total == length * width * depth,
                    total <= usize::MAX,
                    data@.len() == (a * width + j) * depth,
                    forall|n: int| 0 <= n < data@.len() ==> data@[n] == zero,
                decreases width - j,
            {
                let mut k: usize = 0;
                while k < depth
                    invariant
                        a < length,
                        j < width,
                        k <= depth,
                        data@.len() == (a * width + j) * depth + k,
                        forall|n: int| 0 <= n < data@.len() ==> data@[n] == zero,
                    decreases depth - k,
                {
                    data.push(zero);
                    k = k + 1;
                }
                assert((a * width + j) * depth + depth == (a * width + (j + 1)) * depth)
                    by (nonlinear_arith);
                j = j + 1;
            }
            assert((a * width + width) * depth == (a + 1) * width * depth) by (nonlinear_arith);
            a = a + 1;
        }
        data
    }

    /// A table without any entry, with the range `0..0` of the first index.
    pub fn new() -> (array: Self)
        ensures
            array.start() == 0,
            array.length() == 0,
            array.width() == 0,
            array.depth() == 0,
    {
        Ewald3DArray { data: Vec::new(), start: 0, length: 0, width: 0, depth: 0 }
    }

    /// A table with the same range, lengths and entries as `self`.
    pub fn duplicate(&self) -> (array: Self)
        ensures
            array.same_as(self),
    {
        proof {
            use_type_invariant(self);
        }
        let mut data: Vec<T> = Vec::new();
        let mut n: usize = 0;
        while n < self.data.len()
            invariant
                n <= self.data@.len(),
                data@ == self.data@.subrange(0, n as int),
            decreases self.data@.len() - n,
        {
            data.push(self.data[n]);
            assert(data@ =~= self.data@.subrange(0, n + 1));
            n = n + 1;
        }
        assert(data@ =~= self.data@);
        Ewald3DArray {
            data,
            start: self.start,
            length: self.length,
            width: self.width,
            depth: self.depth,
        }
    }

    /// A table with the given range of the first index and the given lengths
    /// of the other two, every entry equal to `zero`.
    pub fn zeros(shape: (Range<isize>, usize, usize), zero: T) -> (array: Self)
        requires
            shape.0.start <= shape.0.end,
            (shape.0.end - shape.0.start) * shape.1 * shape.2 <= usize::MAX,
        ensures
            array.start() == shape.0.start,
            array.length() == shape.0.end - shape.0.start,
            array.width() == shape.1,
            array.depth() == shape.2,
            forall|i: int, j: int, k: int| array.has(i, j, k) ==> array.at(i, j, k) == zero,
    {
        let (range, width, depth) = shape;
        let length = span(range.start, range.end);
        let data = Self::block(length, width, depth, zero);
        let array = Ewald3DArray { data, start: range.start, length, width, depth };
        assert forall|i: int, j: int, k: int| array.has(i, j, k) implies array.at(i, j, k)
            == zero by {
            lemma_place_inside(length as int, width as int, depth as int, i - range.start, j, k);
        }
        array
    }

    /// Gives the table the given range of the first index and the given
    /// lengths of the other two.
    ///
    /// Where the three lengths are the ones the table has, the entries stay
    /// in their places and only the numbering of the first axis moves to the
    /// new range. Otherwise every entry of the new table is `zero`.
    pub fn resize_if_different(&mut self, shape: (Range<isize>, usize, usize), zero: T)
        requires
            shape.0.start <= shape.0.end,
            (shape.0.end - shape.0.start) * shape.1 * shape.2 <= usize::MAX,
        ensures
            final(self).start() == shape.0.start,
            final(self).length() == shape.0.end - shape.0.start,
            final(self).width() == shape.1,
            final(self).depth() == shape.2,
            old(self).kept_by(shape) ==> forall|i: int, j: int, k: int|
                final(self).has(i, j, k) ==> final(self).at(i, j, k) == old(self).at(
                    i - shape.0.start + old(self).start(),
                    j,
                    k,
                ),
            !old(self).kept_by(shape) ==> forall|i: int, j: int, k: int|
                final(self).has(i, j, k) ==> final(self).at(i, j, k) == zero,
    {
        proof {
            use_type_invariant(&*self);
        }
        let (range, width, depth) = shape;
        let length = span(range.start, range.end);
        if self.length == length && self.width == width && self.depth == depth {
            self.start = range.start;
        } else {
            *self = Self::zeros((range, width, depth), zero);
        }
    }

    /// Whether a table keeps its entries when it is given `shape`.
    pub open spec fn kept_by(&self, shape: (Range<isize>, usize, usize)) -> bool {
        &&& self.length() == shape.0.end - shape.0.start
        &&& self.width() == shape.1
        &&& self.depth() == shape.2
    }

    /// Whether the table has an entry `(i, j, k)`.
    pub fn contains(&self, index: (isize, usize, usize)) -> (inside: bool)
        ensures
            inside == self.has(index.0 as int, index.1 as int, index.2 as int),
    {
        let (i, j, k) = index;
        i >= self.start && span(self.start, i) < self.length && j < self.width && k < self.depth
    }

    /// Place of the entry `(i, j, k)` in the block.
    fn locate(&self, i: isize, j: usize, k: usize) -> (n: usize)
        requires
            self.has(i as int, j as int, k as int),
        ensures
            n == place(self.width as int, self.depth as int, i - self.start, j as int, k as int),
            n < self.data@.len(),
    {
        let a = span(self.start, i);
        proof {
            use_type_invariant(self);
            lemma_place_inside(
                self.length as int,
                self.width as int,
                self.depth as int,
                a as int,
                j as int,
                k as int,
            );
            assert(self.length * self.width <= self.length * self.width * self.depth)
                by (nonlinear_arith)
                requires
                    self.depth >= 1,
            ;
            assert(0 <= a * self.width) by (nonlinear_arith)
                requires
                    a >= 0,
                    self.width >= 0,
            ;
            assert((a * self.width + j) * self.depth >= 0) by (nonlinear_arith)
                requires
                    a * self.width + j >= 0,
                    self.depth >= 0,
            ;
        }
        assert(self.data.len() == self.data@.len());
        (a * self.width + j) * self.depth + k
    }

    /// The entry `(i, j, k)`.
    pub fn index(&self, index: (isize, usize, usize)) -> (entry: &T)
        requires
            self.has(index.0 as int, index.1 as int, index.2 as int),
        ensures
            *entry == self.at(index.0 as int, index.1 as int, index.2 as int),
    {
        let n = self.locate(index.0, index.1, index.2);
        &self.data[n]
    }

    /// The entry `(i, j, k)`, to be written to. Every other entry stays as it
    /// is.
    pub fn index_mut(&mut self, index: (isize, usize, usize)) -> (entry: &mut T)
        requires
            old(self).has(index.0 as int, index.1 as int, index.2 as int),
        ensures
            *entry == old(self).at(index.0 as int, index.1 as int, index.2 as int),
            final(self).start() == old(self).start(),
            final(self).length() == old(self).length(),
            final(self).width() == old(self).width(),
            final(self).depth() == old(self).depth(),
            final(self).at(index.0 as int, index.1 as int, index.2 as int) == *final(entry),
            forall|i: int, j: int, k: int|
                old(self).has(i, j, k) && (i, j, k) != (
                    index.0 as int,
                    index.1 as int,
                    index.2 as int,
                ) ==> final(self).at(i, j, k) == old(self).at(i, j, k),
    {
        proof {
            use_type_invariant(&*self);
        }
        let n = self.locate(index.0, index.1, index.2);
        proof {
            assert forall|i: int, j: int, k: int|
                old(self).has(i, j, k) && (i, j, k) != (
                    index.0 as int,
                    index.1 as int,
                    index.2 as int,
                ) implies place(self.width as int, self.depth as int, i - self.start, j, k) != n
                && 0 <= place(self.width as int, self.depth as int, i - self.start, j, k)
                < self.data@.len() by {
                lemma_place_inside(
                    self.length as int,
                    self.width as int,
                    self.depth as int,
                    i - self.start,
                    j,
                    k,
                );
                if place(self.width as int, self.depth as int, i - self.start, j, k) == n {
                    lemma_place_injective(
                        self.width as int,
                        self.depth as int,
                        i - self.start,
                        j,
                        k,
                        index.0 - self.start,
                        index.1 as int,
                        index.2 as int,
                    );
                }
            }
        }
        &mut self.data[n]
    }
}

/// The distance from `start` up to `end`.
fn span(start: isize, end: isize) -> (length: usize)
    requires
        start <= end,
    ensures
        length == end - start,
{
    if start >= 0 {
        (end - start) as usize
    } else if end < 0 {
        (end - start) as usize
    } else {
        let below: usize = (-(start + 1)) as usize + 1;
        let above: usize = end as usize;
        below + above
    }
}

} // verus!
