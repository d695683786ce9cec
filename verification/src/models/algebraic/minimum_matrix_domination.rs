//! Minimum Matrix Domination.
use vstd::prelude::*;
use crate::types::{Min, EvaluationError};
use crate::models::graph::props::{count_true, count_selected};

verus! {

/// All rows have `cols` entries.
pub open spec fn rectangular(matrix: Seq<Vec<bool>>, cols: nat) -> bool {
    forall|i: int| 0 <= i < matrix.len() ==> (#[trigger] matrix[i])@.len() == cols
}

/// Lexicographic order on positions.
pub open spec fn pos_less(a: (usize, usize), b: (usize, usize)) -> bool {
    a.0 < b.0 || (a.0 == b.0 && a.1 < b.1)
}

/// `ones` lists exactly the positions of the true entries, in row-major order.
pub open spec fn ones_of(matrix: Seq<Vec<bool>>, ones: Seq<(usize, usize)>) -> bool {
    &&& forall|k: int| 0 <= k < ones.len() ==> {
        let p = #[trigger] ones[k];
        &&& p.0 < matrix.len()
        &&& p.1 < matrix[p.0 as int]@.len()
        &&& matrix[p.0 as int]@[p.1 as int]
    }
    &&& forall|k: int, l: int| 0 <= k < l < ones.len() ==> pos_less(#[trigger] ones[k], #[trigger] ones[l])
    &&& forall|i: int, j: int| 0 <= i < matrix.len() && 0 <= j < matrix[i]@.len() && #[trigger] matrix[i]@[j]
        ==> ones.contains((i as usize, j as usize))
}

/// Every unselected 1-entry shares a row or a column with a selected one.
pub open spec fn dominates(ones: Seq<(usize, usize)>, sel: Seq<bool>) -> bool {
    forall|k: int| 0 <= k < ones.len() && !sel[k] ==> exists|s: int|
        0 <= s < ones.len() && sel[s] && (#[trigger] ones[s].0 == ones[k].0 || ones[s].1 == ones[k].1)
}

/// Given a 0/1 matrix, find a minimum set of 1-entries such that every other
/// 1-entry shares a row or a column with one of them.
#[derive(Debug, Clone)]
pub struct MinimumMatrixDomination {
    matrix: Vec<Vec<bool>>,
    ones: Vec<(usize, usize)>,
}

impl MinimumMatrixDomination {
    /// The matrix.
    pub closed spec fn spec_matrix(&self) -> Seq<Vec<bool>> {
        self.matrix@
    }

    /// The positions of its 1-entries.
    pub closed spec fn spec_ones(&self) -> Seq<(usize, usize)> {
        self.ones@
    }

    /// `ones` lists the 1-entries of the matrix.
    pub open spec fn wf(&self) -> bool {
        ones_of(self.spec_matrix(), self.spec_ones())
    }

    /// Creates an instance from a rectangular matrix; panics on rows of different lengths.
    pub fn new(matrix: Vec<Vec<bool>>) -> (r: Self)
        requires
            matrix@.len() > 0 ==> rectangular(matrix@, matrix@[0]@.len()),
        ensures
            r.wf(),
            r.spec_matrix() == matrix@,
    {
        let mut ones: Vec<(usize, usize)> = Vec::new();
        let mut i: usize = 0;
        while i < matrix.len()
            invariant
                i <= matrix@.len(),
                forall|k: int| 0 <= k < ones@.len() ==> {
                    let p = #[trigger] ones@[k];
                    &&& p.0 < i
                    &&& p.1 < matrix@[p.0 as int]@.len()
                    &&& matrix@[p.0 as int]@[p.1 as int]
                },
                forall|k: int, l: int| 0 <= k < l < ones@.len() ==> pos_less(#[trigger] ones@[k], #[trigger] ones@[l]),
                forall|a: int, b: int| 0 <= a < i && 0 <= b < matrix@[a]@.len() && #[trigger] matrix@[a]@[b]
                    ==> ones@.contains((a as usize, b as usize)),
            decreases matrix.len() - i,
        {
            let row = &matrix[i];
            let mut j: usize = 0;
            while j < row.len()
                invariant
                    i < matrix@.len(),
                    row@ == matrix@[i as int]@,
                    j <= row@.len(),
                    forall|k: int| 0 <= k < ones@.len() ==> {
                        let p = #[trigger] ones@[k];
                        &&& (p.0 < i || (p.0 == i && p.1 < j))
                        &&& p.1 < matrix@[p.0 as int]@.len()
                        &&& matrix@[p.0 as int]@[p.1 as int]
                    },
                    forall|k: int, l: int| 0 <= k < l < ones@.len() ==> pos_less(#[trigger] ones@[k], #[trigger] ones@[l]),
                    forall|a: int, b: int| ((0 <= a < i && 0 <= b < matrix@[a]@.len()) || (a == i && 0 <= b < j)) && #[trigger] matrix@[a]@[b]
                        ==> ones@.contains((a as usize, b as usize)),
                decreases row.len() - j,
            {
                if row[j] {
                    let ghost before = ones@;
                    ones.push((i, j));
                    assert(ones@[ones@.len() - 1] == (i, j));
                    assert forall|a: int, b: int| ((0 <= a < i && 0 <= b < matrix@[a]@.len()) || (a == i && 0 <= b < j + 1)) && #[trigger] matrix@[a]@[b]
                        implies ones@.contains((a as usize, b as usize)) by {
                        if a == i && b == j {
                        } else {
                            let k = choose|k: int| 0 <= k < before.len() && before[k] == (a as usize, b as usize);
                            assert(ones@[k] == before[k]);
                        }
                    }
                }
                j += 1;
            }
            i += 1;
        }
        MinimumMatrixDomination { matrix, ones }
    }

    /// The matrix.
    pub fn matrix(&self) -> (r: &[Vec<bool>])
        ensures
            r@ == self.spec_matrix(),
    {
        self.matrix.as_slice()
    }

    /// The positions of the 1-entries, in row-major order.
    pub fn ones(&self) -> (r: &[(usize, usize)])
        ensures
            r@ == self.spec_ones(),
    {
        self.ones.as_slice()
    }

    /// Number of rows.
    pub fn num_rows(&self) -> (r: usize)
        ensures
            r == self.spec_matrix().len(),
    {
        self.matrix.len()
    }

    /// Number of columns (0 for an empty matrix).
    pub fn num_cols(&self) -> (r: usize)
        ensures
            r == if self.spec_matrix().len() == 0 { 0 } else { self.spec_matrix()[0]@.len() },
    {
        if self.matrix.len() == 0 { 0 } else { self.matrix[0].len() }
    }

    /// Number of 1-entries.
    pub fn num_ones(&self) -> (r: usize)
        ensures
            r == self.spec_ones().len(),
    {
        self.ones.len()
    }

    /// Evaluates a selection of 1-entries: an error on a length mismatch, no
    /// value unless it dominates every other 1-entry, else its size (an
    /// overflow error beyond `i64`).
    pub fn evaluate(&self, config: &Vec<bool>) -> (r: Result<Min<i64>, EvaluationError>)
        requires
            self.wf(),
        ensures
            config@.len() != self.spec_ones().len() ==> r == Err::<Min<i64>, EvaluationError>(EvaluationError::InvalidConfiguration),
            config@.len() == self.spec_ones().len() && !dominates(self.spec_ones(), config@) ==> r == Ok::<Min<i64>, EvaluationError>(Min(None)),
            config@.len() == self.spec_ones().len() && dominates(self.spec_ones(), config@) ==> (
                if count_true(config@) <= i64::MAX { r == Ok::<Min<i64>, EvaluationError>(Min(Some(count_true(config@) as i64))) }
                else { r == Err::<Min<i64>, EvaluationError>(EvaluationError::IntegerOverflow) }),
    {
        if config.len() != self.ones.len() {
            return Err(EvaluationError::InvalidConfiguration);
        }
        let rows = self.matrix.len();
        let mut max_col: usize = 0;
        let mut i: usize = 0;
        while i < rows
            invariant
                rows == self.matrix@.len(),
                i <= rows,
                forall|q: int| 0 <= q < i ==> (#[trigger] self.matrix@[q])@.len() <= max_col,
            decreases rows - i,
        {
            if self.matrix[i].len() > max_col {
                max_col = self.matrix[i].len();
            }
            i += 1;
        }
        assert forall|q: int| 0 <= q < self.ones@.len() implies (#[trigger] self.ones@[q]).1 < max_col by {
            assert(self.matrix@[self.ones@[q].0 as int]@.len() <= max_col);
        }
        let mut covered_rows: Vec<bool> = Vec::new();
        let mut x: usize = 0;
        while x < rows
            invariant
                x <= rows,
                covered_rows@.len() == x,
                forall|v: int| 0 <= v < x ==> !#[trigger] covered_rows@[v],
            decreases rows - x,
        {
            covered_rows.push(false);
            x += 1;
        }
        let mut covered_cols: Vec<bool> = Vec::new();
        let mut y: usize = 0;
        while y < max_col
            invariant
                y <= max_col,
                covered_cols@.len() == y,
                forall|v: int| 0 <= v < y ==> !#[trigger] covered_cols@[v],
            decreases max_col - y,
        {
            covered_cols.push(false);
            y += 1;
        }
        let mut s: usize = 0;
        while s < self.ones.len()
            invariant
                self.wf(),
                rows == self.matrix@.len(),
                config@.len() == self.ones@.len(),
                covered_rows@.len() == rows,
                covered_cols@.len() == max_col,
                forall|q: int| 0 <= q < self.ones@.len() ==> (#[trigger] self.ones@[q]).1 < max_col,
                s <= self.ones@.len(),
                forall|r: int| 0 <= r < rows ==> (#[trigger] covered_rows@[r] <==> exists|q: int| 0 <= q < s && config@[q] && self.ones@[q].0 == r),
                forall|c: int| 0 <= c < max_col ==> (#[trigger] covered_cols@[c] <==> exists|q: int| 0 <= q < s && config@[q] && self.ones@[q].1 == c),
            decreases self.ones.len() - s,
        {
            if config[s] {
                let (r, c) = self.ones[s];
                assert(r < rows);
                assert(c < max_col);
                covered_rows.set(r, true);
                covered_cols.set(c, true);
            }
            s += 1;
        }
        let mut k2: usize = 0;
        while k2 < self.ones.len()
            invariant
                self.wf(),
                rows == self.matrix@.len(),
                config@.len() == self.ones@.len(),
                covered_rows@.len() == rows,
                covered_cols@.len() == max_col,
                forall|q: int| 0 <= q < self.ones@.len() ==> (#[trigger] self.ones@[q]).1 < max_col,
                k2 <= self.ones@.len(),
                forall|r: int| 0 <= r < rows ==> (#[trigger] covered_rows@[r] <==> exists|q: int| 0 <= q < self.ones@.len() && config@[q] && self.ones@[q].0 == r),
                forall|c: int| 0 <= c < max_col ==> (#[trigger] covered_cols@[c] <==> exists|q: int| 0 <= q < self.ones@.len() && config@[q] && self.ones@[q].1 == c),
                forall|k: int| 0 <= k < k2 && !config@[k] ==> exists|s: int|
                    0 <= s < self.ones@.len() && config@[s] && (#[trigger] self.ones@[s].0 == self.ones@[k].0 || self.ones@[s].1 == self.ones@[k].1),
            decreases self.ones.len() - k2,
        {
            if !config[k2] {
                let (r, c) = self.ones[k2];
                assert(r < rows);
                assert(c < max_col);
                if !covered_rows[r] && !covered_cols[c] {
                    assert(!dominates(self.ones@, config@)) by {
                        if dominates(self.ones@, config@) {
                            let s = choose|s: int| 0 <= s < self.ones@.len() && config@[s]
                                && (#[trigger] self.ones@[s].0 == self.ones@[k2 as int].0 || self.ones@[s].1 == self.ones@[k2 as int].1);
                            if self.ones@[s].0 == r {
                                assert(covered_rows@[r as int]);
                            } else {
                                assert(covered_cols@[c as int]);
                            }
                        }
                    }
                    return Ok(Min(None));
                }
                proof {
                    if covered_rows@[r as int] {
                        let q = choose|q: int| 0 <= q < self.ones@.len() && config@[q] && self.ones@[q].0 == r;
                        assert(self.ones@[q].0 == self.ones@[k2 as int].0);
                    } else {
                        let q = choose|q: int| 0 <= q < self.ones@.len() && config@[q] && self.ones@[q].1 == c;
                        assert(self.ones@[q].1 == self.ones@[k2 as int].1);
                    }
                }
            }
            k2 += 1;
        }
        let n = count_selected(config.as_slice());
        if n as u64 > 9223372036854775807u64 {
            return Err(EvaluationError::IntegerOverflow);
        }
        Ok(Min(Some(n as i64)))
    }
}

} // verus!
