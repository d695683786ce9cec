//! Sums of selected weights, with the overflow behaviour of checked addition.
use vstd::prelude::*;
use crate::types::{EvaluationError, Max, Min};

verus! {

/// The values `w[i]` for the positions `i` with `sel[i]`, in order.
pub open spec fn selected_values(sel: Seq<bool>, w: Seq<int>) -> Seq<int>
    decreases sel.len(),
{
    if sel.len() == 0 {
        Seq::empty()
    } else {
        let rest = selected_values(sel.drop_last(), w);
        if sel.last() {
            rest.push(w[sel.len() - 1])
        } else {
            rest
        }
    }
}

/// Sum of a sequence of integers.
pub open spec fn seq_sum(vals: Seq<int>) -> int
    decreases vals.len(),
{
    if vals.len() == 0 {
        0
    } else {
        seq_sum(vals.drop_last()) + vals.last()
    }
}

/// Adding `vals` left to right with checked arithmetic in the range `[lo, hi]`:
/// `Some` of the total, or `None` if some partial sum leaves the range.
pub open spec fn checked_fold(vals: Seq<int>, lo: int, hi: int) -> Option<int>
    decreases vals.len(),
{
    if vals.len() == 0 {
        Some(0)
    } else {
        match checked_fold(vals.drop_last(), lo, hi) {
            Some(t) => if lo <= t + vals.last() <= hi {
                Some(t + vals.last())
            } else {
                None
            },
            None => None,
        }
    }
}

/// The value fits in `i64`.
pub open spec fn fits64(x: int) -> bool {
    i64::MIN <= x <= i64::MAX
}

/// `i64` values as integers.
pub open spec fn ints64(w: Seq<i64>) -> Seq<int> {
    w.map_values(|x: i64| x as int)
}

/// `i32` values as integers.
pub open spec fn ints32(w: Seq<i32>) -> Seq<int> {
    w.map_values(|x: i32| x as int)
}

/// Checked sum of the selected `i64` weights.
pub open spec fn selected_sum64(sel: Seq<bool>, w: Seq<i64>) -> Option<int> {
    checked_fold(selected_values(sel, ints64(w)), i64::MIN as int, i64::MAX as int)
}

/// One more value on the right of a checked fold.
pub proof fn lemma_fold_push(vals: Seq<int>, x: int, lo: int, hi: int)
    ensures
        checked_fold(vals.push(x), lo, hi) == (match checked_fold(vals, lo, hi) {
            Some(t) => if lo <= t + x <= hi {
                Some(t + x)
            } else {
                None
            },
            None => None,
        }),
{
    assert(vals.push(x).drop_last() =~= vals);
}

/// A successful checked fold stays in its range (when the range holds 0).
pub proof fn lemma_checked_fold_range(vals: Seq<int>, lo: int, hi: int)
    requires
        lo <= 0 <= hi,
    ensures
        checked_fold(vals, lo, hi) matches Some(t) ==> lo <= t <= hi,
    decreases vals.len(),
{
    if vals.len() > 0 {
        lemma_checked_fold_range(vals.drop_last(), lo, hi);
    }
}

/// A checked fold that succeeds gives the plain sum.
pub proof fn lemma_checked_fold_is_sum(vals: Seq<int>, lo: int, hi: int)
    ensures
        checked_fold(vals, lo, hi) matches Some(t) ==> t == seq_sum(vals),
    decreases vals.len(),
{
    if vals.len() > 0 {
        lemma_checked_fold_is_sum(vals.drop_last(), lo, hi);
    }
}

/// Extending the selection by one position extends the selected values accordingly.
pub proof fn lemma_selected_values_step(sel: Seq<bool>, w: Seq<int>, i: int)
    requires
        0 <= i < sel.len(),
    ensures
        selected_values(sel.take(i + 1), w) == if sel[i] {
            selected_values(sel.take(i), w).push(w[i])
        } else {
            selected_values(sel.take(i), w)
        },
{
    assert(sel.take(i + 1).drop_last() =~= sel.take(i));
    assert(sel.take(i + 1).last() == sel[i]);
}

/// Sum of the `i64` weights at the selected positions, `Err(IntegerOverflow)` when a
/// partial sum leaves the `i64` range.
pub fn checked_selected_sum(sel: &Vec<bool>, w: &[i64]) -> (r: Result<i64, EvaluationError>)
    requires
        sel@.len() <= w@.len(),
    ensures
        r == (match selected_sum64(sel@, w@) {
            Some(t) => Ok::<i64, EvaluationError>(t as i64),
            None => Err(EvaluationError::IntegerOverflow),
        }),
{
    let mut total: i64 = 0;
    let mut i: usize = 0;
    assert(sel@.take(0) =~= Seq::<bool>::empty());
    while i < sel.len()
        invariant
            i <= sel@.len(),
            sel@.len() <= w@.len(),
            selected_sum64(sel@.take(i as int), w@) == Some(total as int),
        decreases sel.len() - i,
    {
        proof {
            lemma_selected_values_step(sel@, ints64(w@), i as int);
            lemma_fold_push(selected_values(sel@.take(i as int), ints64(w@)), w@[i as int] as int, i64::MIN as int, i64::MAX as int);
            assert(ints64(w@)[i as int] == w@[i as int] as int);
        }
        if sel[i] {
            let x = w[i];
            if x >= 0 {
                if total > i64::MAX - x {
                    proof {
                        lemma_checked_none_stays(sel@, w@, i as int + 1);
                    }
                    return Err(EvaluationError::IntegerOverflow);
                }
            } else {
                if total < i64::MIN - x {
                    proof {
                        lemma_checked_none_stays(sel@, w@, i as int + 1);
                    }
                    return Err(EvaluationError::IntegerOverflow);
                }
            }
            total = total + x;
        }
        i += 1;
    }
    assert(sel@.take(sel@.len() as int) =~= sel@);
    Ok(total)
}

/// Value of a maximization objective: infeasible configurations have no
/// value; a feasible one has its weight total, or an overflow error.
pub open spec fn max_value(feasible: bool, total: Option<int>) -> Result<Max<i64>, EvaluationError> {
    if !feasible {
        Ok(Max(None))
    } else {
        match total {
            Some(t) => Ok(Max(Some(t as i64))),
            None => Err(EvaluationError::IntegerOverflow),
        }
    }
}

/// Value of a minimization objective, as [`max_value`].
pub open spec fn min_value(feasible: bool, total: Option<int>) -> Result<Min<i64>, EvaluationError> {
    if !feasible {
        Ok(Min(None))
    } else {
        match total {
            Some(t) => Ok(Min(Some(t as i64))),
            None => Err(EvaluationError::IntegerOverflow),
        }
    }
}

/// The maximization value of a selection.
pub fn max_of_selected(feasible: bool, sel: &Vec<bool>, w: &[i64]) -> (r: Result<Max<i64>, EvaluationError>)
    requires
        sel@.len() <= w@.len(),
    ensures
        r == max_value(feasible, selected_sum64(sel@, w@)),
{
    if !feasible {
        return Ok(Max(None));
    }
    match checked_selected_sum(sel, w) {
        Ok(t) => Ok(Max(Some(t))),
        Err(e) => Err(e),
    }
}

/// The minimization value of a selection.
pub fn min_of_selected(feasible: bool, sel: &Vec<bool>, w: &[i64]) -> (r: Result<Min<i64>, EvaluationError>)
    requires
        sel@.len() <= w@.len(),
    ensures
        r == min_value(feasible, selected_sum64(sel@, w@)),
{
    if !feasible {
        return Ok(Min(None));
    }
    match checked_selected_sum(sel, w) {
        Ok(t) => Ok(Min(Some(t))),
        Err(e) => Err(e),
    }
}

/// Once a prefix overflows, every longer prefix does too.
pub proof fn lemma_checked_none_stays(sel: Seq<bool>, w: Seq<i64>, k: int)
    requires
        0 <= k <= sel.len(),
        sel.len() <= w.len(),
        selected_sum64(sel.take(k), w) is None,
    ensures
        selected_sum64(sel, w) is None,
    decreases sel.len() - k,
{
    if k < sel.len() {
        lemma_selected_values_step(sel, ints64(w), k);
        lemma_fold_push(selected_values(sel.take(k), ints64(w)), w[k] as int, i64::MIN as int, i64::MAX as int);
        assert(ints64(w)[k] == w[k] as int);
        lemma_checked_none_stays(sel, w, k + 1);
    } else {
        assert(sel.take(k) =~= sel);
    }
}

} // verus!
