//! Closest Vector Problem: given linearly independent integer basis
//! vectors and a target vector, find integer coefficients whose lattice
//! point is nearest to the target in squared Euclidean distance.
use vstd::prelude::*;
use crate::types::{ConstructionError, EvaluationError, Min};
use crate::sums::fits64;
use crate::big_elim::{independent, independent_rows, row_minor};
use crate::linalg::nonsingular;

verus! {

/// Coordinate `row` of `sum_{j < c} coeffs[j] * columns[j]`.
pub open spec fn lattice_coord(columns: Seq<Vec<i64>>, coeffs: Seq<i64>, row: int, c: nat) -> int
    decreases c,
{
    if c == 0 {
        0
    } else {
        lattice_coord(columns, coeffs, row, (c - 1) as nat) + coeffs[c - 1] * columns[c - 1]@[row]
    }
}

/// `sum_{r < rows} (coordinate r of the lattice point - target[r])^2`.
pub open spec fn squared_distance(columns: Seq<Vec<i64>>, coeffs: Seq<i64>, target: Seq<i64>, rows: nat) -> int
    decreases rows,
{
    if rows == 0 {
        0
    } else {
        let diff = lattice_coord(columns, coeffs, rows - 1, columns.len()) - target[rows - 1];
        squared_distance(columns, coeffs, target, (rows - 1) as nat) + diff * diff
    }
}

/// The coordinate computed with checked `i64` arithmetic, term by term:
/// `None` as soon as a product or a partial sum leaves `i64`.
pub open spec fn checked_coord(columns: Seq<Vec<i64>>, coeffs: Seq<i64>, row: int, c: nat) -> Option<int>
    decreases c,
{
    if c == 0 {
        Some(0)
    } else {
        match checked_coord(columns, coeffs, row, (c - 1) as nat) {
            Some(t) => {
                let p = coeffs[c - 1] * columns[c - 1]@[row];
                if fits64(p) && fits64(t + p) {
                    Some(t + p)
                } else {
                    None
                }
            },
            None => None,
        }
    }
}

/// The squared distance computed with checked `i64` arithmetic, row by
/// row: `None` as soon as a coordinate, a difference, a square or a
/// partial sum leaves `i64`.
pub open spec fn checked_distance(columns: Seq<Vec<i64>>, coeffs: Seq<i64>, target: Seq<i64>, rows: nat) -> Option<int>
    decreases rows,
{
    if rows == 0 {
        Some(0)
    } else {
        match checked_distance(columns, coeffs, target, (rows - 1) as nat) {
            Some(s) => match checked_coord(columns, coeffs, rows - 1, columns.len()) {
                Some(x) => {
                    let diff = x - target[rows - 1];
                    if fits64(diff) && fits64(diff * diff) && fits64(s + diff * diff) {
                        Some(s + diff * diff)
                    } else {
                        None
                    }
                },
                None => None,
            },
            None => None,
        }
    }
}

/// A checked coordinate that succeeds is the exact coordinate.
pub proof fn lemma_checked_coord(columns: Seq<Vec<i64>>, coeffs: Seq<i64>, row: int, c: nat)
    ensures
        checked_coord(columns, coeffs, row, c) matches Some(x) ==> x == lattice_coord(columns, coeffs, row, c),
    decreases c,
{
    if c > 0 {
        lemma_checked_coord(columns, coeffs, row, (c - 1) as nat);
    }
}

/// A checked distance that succeeds is the exact squared distance.
pub proof fn lemma_checked_distance(columns: Seq<Vec<i64>>, coeffs: Seq<i64>, target: Seq<i64>, rows: nat)
    ensures
        checked_distance(columns, coeffs, target, rows) matches Some(v) ==> v == squared_distance(
            columns,
            coeffs,
            target,
            rows,
        ),
    decreases rows,
{
    if rows > 0 {
        lemma_checked_distance(columns, coeffs, target, (rows - 1) as nat);
        lemma_checked_coord(columns, coeffs, rows - 1, columns.len());
    }
}

/// Once the checked coordinate overflows it stays overflowed.
proof fn lemma_coord_none_stays(columns: Seq<Vec<i64>>, coeffs: Seq<i64>, row: int, c: nat, c2: nat)
    requires
        c <= c2,
        checked_coord(columns, coeffs, row, c) is None,
    ensures
        checked_coord(columns, coeffs, row, c2) is None,
    decreases c2,
{
    if c2 > c {
        lemma_coord_none_stays(columns, coeffs, row, c, (c2 - 1) as nat);
    }
}

/// Once the checked distance overflows it stays overflowed.
proof fn lemma_distance_none_stays(columns: Seq<Vec<i64>>, coeffs: Seq<i64>, target: Seq<i64>, r: nat, r2: nat)
    requires
        r <= r2,
        checked_distance(columns, coeffs, target, r) is None,
    ensures
        checked_distance(columns, coeffs, target, r2) is None,
    decreases r2,
{
    if r2 > r {
        lemma_distance_none_stays(columns, coeffs, target, r, (r2 - 1) as nat);
    }
}

/// Every vector has `d` coordinates.
pub open spec fn all_of_len(columns: Seq<Vec<i64>>, d: nat) -> bool {
    forall|c: int| 0 <= c < columns.len() ==> (#[trigger] columns[c])@.len() == d
}

/// The Closest Vector Problem on an integer lattice.
#[derive(Debug, Clone)]
pub struct ClosestVectorProblem {
    basis: Vec<Vec<i64>>,
    target: Vec<i64>,
}

impl ClosestVectorProblem {
    /// The basis vectors.
    pub closed spec fn spec_basis(&self) -> Seq<Vec<i64>> {
        self.basis@
    }

    /// The target vector.
    pub closed spec fn spec_target(&self) -> Seq<i64> {
        self.target@
    }

    /// The basis vectors have the target's length and are linearly
    /// independent.
    pub open spec fn wf(&self) -> bool {
        &&& all_of_len(self.spec_basis(), self.spec_target().len())
        &&& self.spec_basis().len() <= self.spec_target().len()
        &&& independent(self.spec_basis(), self.spec_target().len())
    }

    /// Creates an instance: `LengthMismatch` when a basis vector's length
    /// differs from the target's, `InvalidValue` when the basis vectors are
    /// linearly dependent (in particular when there are more of them than
    /// coordinates).
    pub fn new(basis: Vec<Vec<i64>>, target: Vec<i64>) -> (r: Result<Self, ConstructionError>)
        ensures
            !all_of_len(basis@, target@.len()) ==> r == Err::<Self, ConstructionError>(ConstructionError::LengthMismatch),
            all_of_len(basis@, target@.len()) && !(basis@.len() <= target@.len() && independent(basis@, target@.len()))
                ==> r == Err::<Self, ConstructionError>(ConstructionError::InvalidValue),
            r is Ok <==> (all_of_len(basis@, target@.len()) && basis@.len() <= target@.len() && independent(
                basis@,
                target@.len(),
            )),
            r matches Ok(p) ==> p.wf() && p.spec_basis() == basis@ && p.spec_target() == target@,
    {
        let d = target.len();
        let mut c: usize = 0;
        while c < basis.len()
            invariant
                c <= basis.len(),
                d == target.len(),
                forall|q: int| 0 <= q < c ==> (#[trigger] basis@[q])@.len() == d,
            decreases basis.len() - c,
        {
            if basis[c].len() != d {
                return Err(ConstructionError::LengthMismatch);
            }
            c += 1;
        }
        match independent_rows(&basis, d) {
            None => Err(ConstructionError::InvalidValue),
            Some(_) => Ok(ClosestVectorProblem { basis, target }),
        }
    }

    /// Number of basis vectors.
    pub fn num_basis_vectors(&self) -> (r: usize)
        ensures
            r == self.spec_basis().len(),
    {
        self.basis.len()
    }

    /// Number of coordinates.
    pub fn ambient_dimension(&self) -> (r: usize)
        ensures
            r == self.spec_target().len(),
    {
        self.target.len()
    }

    /// The basis vectors.
    pub fn basis(&self) -> (r: &[Vec<i64>])
        ensures
            r@ == self.spec_basis(),
    {
        self.basis.as_slice()
    }

    /// The target vector.
    pub fn target(&self) -> (r: &[i64])
        ensures
            r@ == self.spec_target(),
    {
        self.target.as_slice()
    }

    /// The coordinates that an exact elimination pivots on, one per basis
    /// vector: distinct coordinates below the dimension on which the basis
    /// vectors, restricted to them, stay linearly independent.
    pub fn independent_rows(&self) -> (r: Result<Vec<usize>, ConstructionError>)
        requires
            self.wf(),
        ensures
            r matches Ok(rows) && rows.len() == self.spec_basis().len() && (forall|i: int|
                0 <= i < rows.len() ==> #[trigger] rows@[i] < self.spec_target().len()) && (forall|i: int, j: int|
                0 <= i < j < rows.len() ==> #[trigger] rows@[i] != #[trigger] rows@[j])
                && nonsingular(row_minor(self.spec_basis(), rows@), self.spec_basis().len() as nat),
    {
        match independent_rows(&self.basis, self.target.len()) {
            Some(rows) => Ok(rows),
            None => Err(ConstructionError::InvalidValue),
        }
    }

    /// The squared distance between the lattice point with the given
    /// coefficients and the target: `InvalidConfiguration` on a wrong
    /// number of coefficients, `IntegerOverflow` when the checked `i64`
    /// computation overflows.
    pub fn evaluate(&self, solution: &[i64]) -> (r: Result<Min<i64>, EvaluationError>)
        requires
            self.wf(),
        ensures
            solution@.len() != self.spec_basis().len() ==> r == Err::<Min<i64>, EvaluationError>(
                EvaluationError::InvalidConfiguration,
            ),
            solution@.len() == self.spec_basis().len() ==> r == (match checked_distance(
                self.spec_basis(),
                solution@,
                self.spec_target(),
                self.spec_target().len(),
            ) {
                Some(v) => Ok::<Min<i64>, EvaluationError>(Min(Some(v as i64))),
                None => Err(EvaluationError::IntegerOverflow),
            }),
            r matches Ok(Min(Some(v))) ==> v == squared_distance(
                self.spec_basis(),
                solution@,
                self.spec_target(),
                self.spec_target().len(),
            ),
    {
        proof {
            lemma_checked_distance(self.spec_basis(), solution@, self.spec_target(), self.spec_target().len());
        }
        let k = self.basis.len();
        if solution.len() != k {
            return Err(EvaluationError::InvalidConfiguration);
        }
        let d = self.target.len();
        let ghost cols = self.spec_basis();
        let ghost tg = self.spec_target();
        let mut squared: i64 = 0;
        let mut row: usize = 0;
        while row < d
            invariant
                row <= d,
                d == tg.len(),
                k == cols.len(),
                solution@.len() == k,
                cols == self.basis@,
                tg == self.target@,
                all_of_len(cols, d as nat),
                checked_distance(cols, solution@, tg, row as nat) == Some(squared as int),
            decreases d - row,
        {
            let mut coord: i64 = 0;
            let mut c: usize = 0;
            while c < k
                invariant
                    c <= k,
                    row < d,
                    k == cols.len(),
                    solution@.len() == k,
                    cols == self.basis@,
                    all_of_len(cols, d as nat),
                    checked_coord(cols, solution@, row as int, c as nat) == Some(coord as int),
                    d == tg.len(),
                    tg == self.target@,
                    checked_distance(cols, solution@, tg, row as nat) == Some(squared as int),
                decreases k - c,
            {
                assert(cols[c as int]@.len() == d);
                let p = match solution[c].checked_mul(self.basis[c][row]) {
                    Some(v) => v,
                    None => {
                        proof {
                            assert(self.basis@[c as int]@[row as int] == cols[c as int]@[row as int]);
                            assert(checked_coord(cols, solution@, row as int, (c + 1) as nat) is None);
                            lemma_coord_none_stays(cols, solution@, row as int, (c + 1) as nat, k as nat);
                            assert(checked_distance(cols, solution@, tg, (row + 1) as nat) is None);
                            lemma_distance_none_stays(cols, solution@, tg, (row + 1) as nat, d as nat);
                        }
                        return Err(EvaluationError::IntegerOverflow);
                    },
                };
                coord = match coord.checked_add(p) {
                    Some(v) => v,
                    None => {
                        proof {
                            assert(self.basis@[c as int]@[row as int] == cols[c as int]@[row as int]);
                            assert(checked_coord(cols, solution@, row as int, (c + 1) as nat) is None);
                            lemma_coord_none_stays(cols, solution@, row as int, (c + 1) as nat, k as nat);
                            assert(checked_distance(cols, solution@, tg, (row + 1) as nat) is None);
                            lemma_distance_none_stays(cols, solution@, tg, (row + 1) as nat, d as nat);
                        }
                        return Err(EvaluationError::IntegerOverflow);
                    },
                };
                c += 1;
            }
            let diff = match coord.checked_sub(self.target[row]) {
                Some(v) => v,
                None => {
                    proof {
                        lemma_distance_none_stays(cols, solution@, tg, (row + 1) as nat, d as nat);
                    }
                    return Err(EvaluationError::IntegerOverflow);
                },
            };
            let sq = match diff.checked_mul(diff) {
                Some(v) => v,
                None => {
                    proof {
                        lemma_distance_none_stays(cols, solution@, tg, (row + 1) as nat, d as nat);
                    }
                    return Err(EvaluationError::IntegerOverflow);
                },
            };
            squared = match squared.checked_add(sq) {
                Some(v) => v,
                None => {
                    proof {
                        lemma_distance_none_stays(cols, solution@, tg, (row + 1) as nat, d as nat);
                    }
                    return Err(EvaluationError::IntegerOverflow);
                },
            };
            row += 1;
        }
        Ok(Min(Some(squared)))
    }
}

} // verus!
