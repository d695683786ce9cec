//! Sparse Matrix Compression: overlay shifted rows of a 0/1 matrix in one
//! storage vector without two rows claiming the same slot.
use vstd::prelude::*;
use crate::types::{ConstructionError, EvaluationError, Or};

verus! {

/// The matrix as rows of entries.
pub open spec fn rows_view(matrix: Seq<Vec<bool>>) -> Seq<Seq<bool>> {
    matrix.map_values(|row: Vec<bool>| row@)
}

/// Every row has `cols` entries.
pub open spec fn uniform_rows(m: Seq<Seq<bool>>, cols: nat) -> bool {
    forall|r: int| 0 <= r < m.len() ==> (#[trigger] m[r]).len() == cols
}

/// Entry `(r, c)` is a one of the matrix.
pub open spec fn is_one(m: Seq<Seq<bool>>, r: int, c: int) -> bool {
    0 <= r < m.len() && 0 <= c < m[r].len() && m[r][c]
}

/// Entry `(r, c)` is a one that lands on storage slot `s` under the shifts.
pub open spec fn covers(m: Seq<Seq<bool>>, shifts: Seq<usize>, r: int, c: int, s: int) -> bool {
    is_one(m, r, c) && shifts[r] + c == s
}

/// Ones of different rows never land on the same slot.
pub open spec fn conflict_free(m: Seq<Seq<bool>>, shifts: Seq<usize>) -> bool {
    forall|r1: int, c1: int, r2: int, c2: int|
        #![trigger is_one(m, r1, c1), is_one(m, r2, c2)]
        r1 != r2 && is_one(m, r1, c1) && is_one(m, r2, c2) ==> shifts[r1] + c1 != shifts[r2] + c2
}

/// Slot `s` holds the 1-based label of the row whose one lands there, or 0.
pub open spec fn slot_label(m: Seq<Seq<bool>>, shifts: Seq<usize>, s: int) -> usize {
    if exists|r: int, c: int| #[trigger] covers(m, shifts, r, c, s) {
        let (r, c) = choose|r: int, c: int| #[trigger] covers(m, shifts, r, c, s);
        (r + 1) as usize
    } else {
        0
    }
}

/// Every shift is below `k` and there is one per row.
pub open spec fn shifts_in_range(m: Seq<Seq<bool>>, shifts: Seq<usize>, k: usize) -> bool {
    shifts.len() == m.len() && forall|i: int| 0 <= i < shifts.len() ==> #[trigger] shifts[i] < k
}

/// Given a 0/1 matrix and a bound `K`, decide whether shifts below `K` place
/// the rows in a storage vector of `num_cols + K` slots without two rows
/// putting a one in the same slot.
#[derive(Debug, Clone)]
pub struct SparseMatrixCompression {
    matrix: Vec<Vec<bool>>,
    bound_k: usize,
}

impl SparseMatrixCompression {
    /// The rows of the matrix.
    pub closed spec fn spec_rows(&self) -> Seq<Seq<bool>> {
        rows_view(self.matrix@)
    }

    /// The bound on the shifts.
    pub closed spec fn spec_bound(&self) -> usize {
        self.bound_k
    }

    /// Number of columns (that of the first row, 0 without rows).
    pub open spec fn spec_cols(&self) -> nat {
        if self.spec_rows().len() == 0 { 0 } else { self.spec_rows()[0].len() }
    }

    /// A positive bound, rows of one length, and a storage length within `usize`.
    pub open spec fn wf(&self) -> bool {
        &&& self.spec_bound() > 0
        &&& uniform_rows(self.spec_rows(), self.spec_cols())
        &&& self.spec_cols() + self.spec_bound() <= usize::MAX
    }

    /// Creates an instance; panics on a zero bound or rows of different lengths.
    pub fn new(matrix: Vec<Vec<bool>>, bound_k: usize) -> (r: Self)
        requires
            bound_k > 0,
            matrix@.len() > 0 ==> uniform_rows(rows_view(matrix@), matrix@[0]@.len()),
            (if matrix@.len() == 0 { 0 } else { matrix@[0]@.len() }) + bound_k <= usize::MAX,
        ensures
            r.wf(),
            r.spec_rows() == rows_view(matrix@),
            r.spec_bound() == bound_k,
    {
        SparseMatrixCompression { matrix, bound_k }
    }

    /// Creates an instance, or an error on a zero bound (`InvalidValue`), rows
    /// of different lengths (`LengthMismatch`) or a storage length beyond
    /// `usize` (`OutOfRange`).
    pub fn try_new(matrix: Vec<Vec<bool>>, bound_k: usize) -> (r: Result<Self, ConstructionError>)
        ensures
            bound_k == 0 ==> r == Err::<Self, ConstructionError>(ConstructionError::InvalidValue),
            bound_k > 0 && !(matrix@.len() > 0 ==> uniform_rows(rows_view(matrix@), matrix@[0]@.len()))
                ==> r == Err::<Self, ConstructionError>(ConstructionError::LengthMismatch),
            r is Ok <==> bound_k > 0 && (matrix@.len() > 0 ==> uniform_rows(rows_view(matrix@), matrix@[0]@.len()))
                && (if matrix@.len() == 0 { 0 } else { matrix@[0]@.len() }) + bound_k <= usize::MAX,
            r matches Ok(p) ==> p.wf() && p.spec_rows() == rows_view(matrix@) && p.spec_bound() == bound_k,
    {
        if bound_k == 0 {
            return Err(ConstructionError::InvalidValue);
        }
        let cols = if matrix.len() == 0 { 0 } else { matrix[0].len() };
        let mut i: usize = 0;
        while i < matrix.len()
            invariant
                bound_k > 0,
                i <= matrix@.len(),
                cols == (if matrix@.len() == 0 { 0 } else { matrix@[0]@.len() }),
                forall|j: int| 0 <= j < i ==> (#[trigger] rows_view(matrix@)[j]).len() == cols,
            decreases matrix.len() - i,
        {
            if matrix[i].len() != cols {
                assert(rows_view(matrix@)[i as int].len() != cols);
                return Err(ConstructionError::LengthMismatch);
            }
            i += 1;
        }
        if cols > usize::MAX - bound_k {
            return Err(ConstructionError::OutOfRange);
        }
        Ok(SparseMatrixCompression { matrix, bound_k })
    }

    /// The matrix rows.
    pub fn matrix(&self) -> (r: &[Vec<bool>])
        ensures
            rows_view(r@) == self.spec_rows(),
    {
        self.matrix.as_slice()
    }

    /// The bound on the shifts.
    pub fn bound_k(&self) -> (r: usize)
        ensures
            r == self.spec_bound(),
    {
        self.bound_k
    }

    /// Number of rows.
    pub fn num_rows(&self) -> (r: usize)
        ensures
            r == self.spec_rows().len(),
    {
        self.matrix.len()
    }

    /// Number of columns.
    pub fn num_cols(&self) -> (r: usize)
        ensures
            r == self.spec_cols(),
    {
        if self.matrix.len() == 0 { 0 } else { self.matrix[0].len() }
    }

    /// Number of storage slots: columns plus the bound.
    pub fn storage_len(&self) -> (r: usize)
        requires
            self.wf(),
        ensures
            r == self.spec_cols() + self.spec_bound(),
    {
        self.num_cols() + self.bound_k
    }

    /// The 1-based shifts, or `None` unless there is one shift below the bound per row.
    pub fn decode_shifts(&self, config: &[usize]) -> (r: Option<Vec<usize>>)
        ensures
            r is Some <==> shifts_in_range(self.spec_rows(), config@, self.spec_bound()),
            r matches Some(v) ==> v@.len() == config@.len()
                && forall|i: int| 0 <= i < v@.len() ==> #[trigger] v@[i] == config@[i] + 1,
    {
        if config.len() != self.matrix.len() {
            return None;
        }
        let mut out: Vec<usize> = Vec::new();
        let mut i: usize = 0;
        while i < config.len()
            invariant
                config@.len() == self.spec_rows().len(),
                i <= config@.len(),
                out@.len() == i,
                forall|j: int| 0 <= j < i ==> #[trigger] config@[j] < self.bound_k,
                forall|j: int| 0 <= j < i ==> #[trigger] out@[j] == config@[j] + 1,
            decreases config.len() - i,
        {
            if config[i] >= self.bound_k {
                return None;
            }
            out.push(config[i] + 1);
            i += 1;
        }
        Some(out)
    }

    /// The storage vector (slot `s` holds the 1-based label of the row whose
    /// one lands there, 0 if none), or `None` when the shifts are out of
    /// range or two rows put a one in the same slot.
    pub fn storage_vector(&self, config: &[usize]) -> (r: Option<Vec<usize>>)
        requires
            self.wf(),
        ensures
            r is Some <==> shifts_in_range(self.spec_rows(), config@, self.spec_bound())
                && conflict_free(self.spec_rows(), config@),
            r matches Some(v) ==> v@ == Seq::new((self.spec_cols() + self.spec_bound()) as nat,
                |s: int| slot_label(self.spec_rows(), config@, s)),
    {
        if self.decode_shifts(config).is_none() {
            return None;
        }
        let ghost m = self.spec_rows();
        let cols = self.num_cols();
        let len = self.storage_len();
        let mut storage: Vec<usize> = Vec::new();
        let mut s: usize = 0;
        while s < len
            invariant
                s <= len,
                storage@.len() == s,
                forall|j: int| 0 <= j < s ==> #[trigger] storage@[j] == 0,
            decreases len - s,
        {
            storage.push(0);
            s += 1;
        }
        let mut ri: usize = 0;
        while ri < self.matrix.len()
            invariant
                self.wf(),
                m == self.spec_rows(),
                cols == self.spec_cols(),
                len == cols + self.spec_bound(),
                shifts_in_range(m, config@, self.spec_bound()),
                storage@.len() == len,
                ri <= m.len(),
                forall|r1: int, c1: int, r2: int, c2: int|
                    #![trigger is_one(m, r1, c1), is_one(m, r2, c2)]
                    r1 < ri && r2 < ri && r1 != r2 && is_one(m, r1, c1) && is_one(m, r2, c2)
                    ==> config@[r1] + c1 != config@[r2] + c2,
                forall|x: int| 0 <= x < len ==> (#[trigger] storage@[x] == 0 <==>
                    !exists|r: int, c: int| r < ri && #[trigger] covers(m, config@, r, c, x)),
                forall|r: int, c: int, x: int| r < ri && #[trigger] covers(m, config@, r, c, x) ==> storage@[x] == r + 1,
            decreases self.matrix.len() - ri,
        {
            let row = &self.matrix[ri];
            assert(row@ == m[ri as int]);
            let shift = config[ri];
            let label = ri + 1;
            let mut ci: usize = 0;
            while ci < row.len()
                invariant
                    self.wf(),
                    m == self.spec_rows(),
                    cols == self.spec_cols(),
                    row@ == m[ri as int],
                    row@.len() == cols,
                    len == cols + self.spec_bound(),
                    shift == config@[ri as int],
                    label == ri + 1,
                    shift < self.spec_bound(),
                    shifts_in_range(m, config@, self.spec_bound()),
                    ri < m.len(),
                    storage@.len() == len,
                    ci <= row@.len(),
                    forall|r1: int, c1: int, r2: int, c2: int|
                        #![trigger is_one(m, r1, c1), is_one(m, r2, c2)]
                        (r1 < ri || (r1 == ri && c1 < ci)) && (r2 < ri || (r2 == ri && c2 < ci)) && r1 != r2
                        && is_one(m, r1, c1) && is_one(m, r2, c2)
                        ==> config@[r1] + c1 != config@[r2] + c2,
                    forall|x: int| 0 <= x < len ==> (#[trigger] storage@[x] == 0 <==>
                        !exists|r: int, c: int| (r < ri || (r == ri && c < ci)) && #[trigger] covers(m, config@, r, c, x)),
                    forall|r: int, c: int, x: int| (r < ri || (r == ri && c < ci)) && #[trigger] covers(m, config@, r, c, x)
                        ==> storage@[x] == r + 1,
                decreases row.len() - ci,
            {
                if row[ci] {
                    let slot = shift + ci;
                    assert(is_one(m, ri as int, ci as int));
                    assert(covers(m, config@, ri as int, ci as int, slot as int));
                    let cur = storage[slot];
                    if cur != 0 && cur != label {
                        proof {
                            let (r, c) = choose|r: int, c: int| (r < ri || (r == ri && c < ci)) && #[trigger] covers(m, config@, r, c, slot as int);
                            assert(storage@[slot as int] == r + 1);
                            assert(is_one(m, r, c));
                            assert(!conflict_free(m, config@));
                        }
                        return None;
                    }
                    let ghost before = storage@;
                    storage.set(slot, label);
                    proof {
                        assert forall|x: int| 0 <= x < len implies (#[trigger] storage@[x] == 0 <==>
                            !exists|r: int, c: int| (r < ri || (r == ri && c < ci + 1)) && #[trigger] covers(m, config@, r, c, x)) by {
                            if x != slot {
                                if exists|r: int, c: int| (r < ri || (r == ri && c < ci + 1)) && #[trigger] covers(m, config@, r, c, x) {
                                    let (r, c) = choose|r: int, c: int| (r < ri || (r == ri && c < ci + 1)) && #[trigger] covers(m, config@, r, c, x);
                                    assert(r < ri || (r == ri && c < ci));
                                }
                            }
                        }
                        assert forall|r1: int, c1: int, r2: int, c2: int|
                            #![trigger is_one(m, r1, c1), is_one(m, r2, c2)]
                            (r1 < ri || (r1 == ri && c1 < ci + 1)) && (r2 < ri || (r2 == ri && c2 < ci + 1)) && r1 != r2
                            && is_one(m, r1, c1) && is_one(m, r2, c2)
                            implies config@[r1] + c1 != config@[r2] + c2 by {
                            if r1 == ri && c1 == ci && config@[r1] + c1 == config@[r2] + c2 {
                                assert(covers(m, config@, r2, c2, slot as int));
                                assert(before[slot as int] == r2 + 1);
                            }
                            if r2 == ri && c2 == ci && config@[r1] + c1 == config@[r2] + c2 {
                                assert(covers(m, config@, r1, c1, slot as int));
                                assert(before[slot as int] == r1 + 1);
                            }
                        }
                        assert forall|r: int, c: int, x: int| (r < ri || (r == ri && c < ci + 1)) && #[trigger] covers(m, config@, r, c, x)
                            implies storage@[x] == r + 1 by {
                            assert(config@[r] < self.spec_bound());
                            assert(m[r].len() == cols);
                            if !(r == ri && c == ci) {
                                assert(r < ri || (r == ri && c < ci));
                                assert(before[x] == r + 1);
                                if x == slot {
                                    assert(before[slot as int] == cur);
                                }
                            }
                        }
                    }
                } else {
                    proof {
                        assert forall|x: int| 0 <= x < len implies (#[trigger] storage@[x] == 0 <==>
                            !exists|r: int, c: int| (r < ri || (r == ri && c < ci + 1)) && #[trigger] covers(m, config@, r, c, x)) by {
                            if exists|r: int, c: int| (r < ri || (r == ri && c < ci + 1)) && #[trigger] covers(m, config@, r, c, x) {
                                let (r, c) = choose|r: int, c: int| (r < ri || (r == ri && c < ci + 1)) && #[trigger] covers(m, config@, r, c, x);
                                assert(r < ri || (r == ri && c < ci));
                            }
                        }
                    }
                }
                ci += 1;
            }
            proof {
                assert forall|x: int| 0 <= x < len implies (#[trigger] storage@[x] == 0 <==>
                    !exists|r: int, c: int| r < ri + 1 && #[trigger] covers(m, config@, r, c, x)) by {
                    if exists|r: int, c: int| r < ri + 1 && #[trigger] covers(m, config@, r, c, x) {
                        let (r, c) = choose|r: int, c: int| r < ri + 1 && #[trigger] covers(m, config@, r, c, x);
                        assert(r < ri || (r == ri && c < ci));
                    }
                }
            }
            ri += 1;
        }
        proof {
            assert forall|x: int| 0 <= x < len implies #[trigger] storage@[x] == slot_label(m, config@, x) by {
                if exists|r: int, c: int| #[trigger] covers(m, config@, r, c, x) {
                    let (r, c) = choose|r: int, c: int| #[trigger] covers(m, config@, r, c, x);
                    assert(r < ri);
                }
            }
            assert(storage@ =~= Seq::new((self.spec_cols() + self.spec_bound()) as nat, |s: int| slot_label(m, config@, s)));
        }
        Some(storage)
    }

    /// Whether the shifts place the rows without a clash; an error unless
    /// there is one shift below the bound per row.
    pub fn evaluate(&self, config: &Vec<usize>) -> (r: Result<Or, EvaluationError>)
        requires
            self.wf(),
        ensures
            !shifts_in_range(self.spec_rows(), config@, self.spec_bound())
                ==> r == Err::<Or, EvaluationError>(EvaluationError::InvalidConfiguration),
            shifts_in_range(self.spec_rows(), config@, self.spec_bound())
                ==> r == Ok::<Or, EvaluationError>(Or(conflict_free(self.spec_rows(), config@))),
    {
        if self.decode_shifts(config.as_slice()).is_none() {
            return Err(EvaluationError::InvalidConfiguration);
        }
        Ok(Or(self.storage_vector(config.as_slice()).is_some()))
    }

    /// One variable per row, each a shift below the bound.
    pub fn dimensions(&self) -> (r: Vec<usize>)
        ensures
            r@.len() == self.spec_rows().len(),
            forall|i: int| 0 <= i < r@.len() ==> #[trigger] r@[i] == self.spec_bound(),
    {
        crate::models::graph::uniform_dims(self.matrix.len(), self.bound_k)
    }
}

} // verus!
