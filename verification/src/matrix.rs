//! The attraction matrix: an N x N table of fixed-point interaction
//! coefficients, one entry per ordered pair of particle types. Entry
//! `(a, b)` scales the force a particle of type `a` feels from a neighbour
//! of type `b`; the table need not be symmetric.

use vstd::prelude::*;

verus! {

/// The one structural error the core raises: a type index outside the
/// configured matrix.
#[derive(Clone, Copy, Debug, PartialEq, Eq, Structural)]
pub enum SimError {
    IndexOutOfRange,
}

/// Largest supported matrix side, so that `size * size` cells always fit.
pub const MAX_TYPES: usize = 46_340;

/// Interaction coefficients for `size` particle types, stored row-major.
#[derive(Debug)]
pub struct AttractionMatrix {
    size: usize,
    cells: Vec<i64>,
}

impl AttractionMatrix {
    /// Number of particle types the matrix is configured for.
    pub closed spec fn spec_size(self) -> int {
        self.size as int
    }

    /// The coefficient at row `a`, column `b`.
    pub closed spec fn spec_coef(self, a: int, b: int) -> int {
        self.cells@[a * self.size + b] as int
    }

    /// The matrix is square and within the supported side length.
    pub closed spec fn wf(self) -> bool {
        self.cells@.len() == self.size * self.size && self.size <= MAX_TYPES
    }

    /// All coefficients of a well-formed square matrix agree with `other`'s.
    pub open spec fn spec_same_coefs(self, other: AttractionMatrix) -> bool {
        self.spec_size() == other.spec_size() && forall|a: int, b: int|
            0 <= a < self.spec_size() && 0 <= b < self.spec_size() ==> self.spec_coef(a, b)
                == other.spec_coef(a, b)
    }

    /// A matrix of the given size with every coefficient zero: no
    /// interaction until explicitly configured.
    pub fn new(size: usize) -> (m: AttractionMatrix)
        requires
            size <= MAX_TYPES,
        ensures
            m.wf(),
            m.spec_size() == size,
            forall|a: int, b: int|
                0 <= a < size && 0 <= b < size ==> m.spec_coef(a, b) == 0,
    {
        proof {
            vstd::arithmetic::mul::lemma_mul_upper_bound(
                size as int,
                MAX_TYPES as int,
                size as int,
                MAX_TYPES as int,
            );
        }
        let total: usize = size * size;
        let mut cells: Vec<i64> = Vec::new();
        let mut i: usize = 0;
        while i < total
            invariant
                i == cells@.len(),
                i <= total,
                forall|k: int| 0 <= k < i ==> cells@[k] == 0,
            decreases total - i,
        {
            cells.push(0);
            i = i + 1;
        }
        let m = AttractionMatrix { size, cells };
        proof {
            assert forall|a: int, b: int|
                0 <= a < size && 0 <= b < size implies m.spec_coef(a, b) == 0 by {
                lemma_cell_index(size as int, a, b);
            }
        }
        m
    }

    /// Side length of the matrix.
    pub fn size(&self) -> (s: usize)
        ensures
            s == self.spec_size(),
    {
        self.size
    }

    /// Look a coefficient up without the run-time range check; the caller
    /// shows the indices are in range.
    pub fn coef_at(&self, a: usize, b: usize) -> (c: i64)
        requires
            self.wf(),
            a < self.spec_size(),
            b < self.spec_size(),
        ensures
            c as int == self.spec_coef(a as int, b as int),
    {
        proof {
            lemma_cell_index(self.size as int, a as int, b as int);
            vstd::arithmetic::mul::lemma_mul_upper_bound(
                self.size as int,
                MAX_TYPES as int,
                self.size as int,
                MAX_TYPES as int,
            );
        }
        self.cells[a * self.size + b]
    }

    /// Look a coefficient up; `IndexOutOfRange` exactly when either index
    /// is outside `[0, size)`.
    pub fn get(&self, a: usize, b: usize) -> (r: Result<i64, SimError>)
        requires
            self.wf(),
        ensures
            match r {
                Ok(c) => a < self.spec_size() && b < self.spec_size() && c as int
                    == self.spec_coef(a as int, b as int),
                Err(e) => e == SimError::IndexOutOfRange && (a >= self.spec_size() || b
                    >= self.spec_size()),
            },
    {
        if a < self.size && b < self.size {
            Ok(self.coef_at(a, b))
        } else {
            Err(SimError::IndexOutOfRange)
        }
    }

    /// Overwrite one coefficient; `IndexOutOfRange` exactly when either
    /// index is outside `[0, size)`, in which case nothing changes.
    pub fn set(&mut self, a: usize, b: usize, value: i64) -> (r: Result<(), SimError>)
        requires
            old(self).wf(),
        ensures
            final(self).wf(),
            final(self).spec_size() == old(self).spec_size(),
            match r {
                Ok(()) => a < old(self).spec_size() && b < old(self).spec_size()
                    && final(self).spec_coef(a as int, b as int) == value && forall|x: int, y: int|
                    0 <= x < old(self).spec_size() && 0 <= y < old(self).spec_size() && !(x == a
                        && y == b) ==> final(self).spec_coef(x, y) == old(self).spec_coef(x, y),
                Err(e) => e == SimError::IndexOutOfRange && (a >= old(self).spec_size() || b
                    >= old(self).spec_size()) && *final(self) == *old(self),
            },
    {
        if a < self.size && b < self.size {
            proof {
                lemma_cell_index(self.size as int, a as int, b as int);
                vstd::arithmetic::mul::lemma_mul_upper_bound(
                    self.size as int,
                    MAX_TYPES as int,
                    self.size as int,
                    MAX_TYPES as int,
                );
            }
            let idx: usize = a * self.size + b;
            self.cells.set(idx, value);
            proof {
                let size = self.size as int;
                assert forall|x: int, y: int|
                    0 <= x < size && 0 <= y < size && !(x == a && y == b) implies self.spec_coef(
                    x,
                    y,
                ) == old(self).spec_coef(x, y) by {
                    lemma_cell_index(size, x, y);
                    lemma_cell_index_distinct(size, a as int, b as int, x, y);
                }
            }
            Ok(())
        } else {
            Err(SimError::IndexOutOfRange)
        }
    }

    /// The configuration the `start` control signal loads: two types,
    /// with `[[-0.9, 0.9], [0.9, 0.0]]` as coefficients.
    pub fn start_preset() -> (m: AttractionMatrix)
        ensures
            m.wf(),
            m.spec_size() == 2,
            m.spec_coef(0, 0) == -900_000,
            m.spec_coef(0, 1) == 900_000,
            m.spec_coef(1, 0) == 900_000,
            m.spec_coef(1, 1) == 0,
    {
        let mut cells: Vec<i64> = Vec::new();
        cells.push(-900_000);
        cells.push(900_000);
        cells.push(900_000);
        cells.push(0);
        AttractionMatrix { size: 2, cells }
    }

    /// Replace the whole configuration with another square matrix.
    pub fn replace(&mut self, other: AttractionMatrix)
        requires
            other.wf(),
        ensures
            *final(self) == other,
    {
        *self = other;
    }
}

impl Default for AttractionMatrix {
    /// The default configuration: two types, no interactions.
    fn default() -> (m: Self)
        ensures
            m.wf(),
            m.spec_size() == 2,
            forall|a: int, b: int| 0 <= a < 2 && 0 <= b < 2 ==> m.spec_coef(a, b) == 0,
    {
        AttractionMatrix::new(2)
    }
}

/// A row-major cell index stays inside a square table.
proof fn lemma_cell_index(size: int, a: int, b: int)
    requires
        0 <= a < size,
        0 <= b < size,
    ensures
        0 <= a * size + b < size * size,
{
    assert(a * size + b < size * size) by (nonlinear_arith)
        requires
            0 <= a < size,
            0 <= b < size,
    ;
    assert(a * size >= 0) by (nonlinear_arith)
        requires
            a >= 0,
            size >= 0,
    ;
}

/// Distinct index pairs map to distinct cells.
proof fn lemma_cell_index_distinct(size: int, a: int, b: int, x: int, y: int)
    requires
        0 <= a < size,
        0 <= b < size,
        0 <= x < size,
        0 <= y < size,
        !(x == a && y == b),
    ensures
        x * size + y != a * size + b,
{
    assert(x * size + y != a * size + b) by (nonlinear_arith)
        requires
            0 <= a < size,
            0 <= b < size,
            0 <= x < size,
            0 <= y < size,
            !(x == a && y == b),
    ;
}

} // verus!
