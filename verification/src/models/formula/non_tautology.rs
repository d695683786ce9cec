//! Non-Tautology: is a DNF formula false under some assignment?
use vstd::prelude::*;
use crate::types::Or;
use crate::models::formula::sat::lit_var;

verus! {

/// Truth of a literal under a 0/1 configuration: a positive literal needs its
/// variable to be 1, a negative one needs it to be 0 (missing variables are 0).
pub open spec fn lit_true_cfg(lit: i32, config: Seq<usize>) -> bool {
    let v = lit_var(lit);
    let value: int = if 0 <= v < config.len() { config[v] as int } else { 0 };
    if lit > 0 { value == 1 } else { value == 0 }
}

/// Every literal of the conjunction is true.
pub open spec fn conj_true(d: Seq<i32>, config: Seq<usize>) -> bool {
    forall|i: int| 0 <= i < d.len() ==> #[trigger] lit_true_cfg(d[i], config)
}

/// Checking the conjunction left to right meets the literal 0 before a false literal.
pub open spec fn conj_scan_hits_zero(d: Seq<i32>, config: Seq<usize>) -> bool {
    exists|i: int| 0 <= i < d.len() && #[trigger] d[i] == 0 && forall|j: int| 0 <= j < i ==> #[trigger] lit_true_cfg(d[j], config)
}

/// Checking the disjuncts in order reaches the literal 0 before finding a true disjunct.
pub open spec fn dnf_scan_hits_zero(ds: Seq<Vec<i32>>, config: Seq<usize>) -> bool {
    exists|k: int| 0 <= k < ds.len() && #[trigger] conj_scan_hits_zero(ds[k]@, config)
        && forall|k2: int| 0 <= k2 < k ==> !#[trigger] conj_true(ds[k2]@, config)
}

/// Some disjunct is true.
pub open spec fn dnf_true(ds: Seq<Vec<i32>>, config: Seq<usize>) -> bool {
    exists|k: int| 0 <= k < ds.len() && #[trigger] conj_true(ds[k]@, config)
}

/// Given a formula in disjunctive normal form (each disjunct a conjunction
/// of literals `+v` / `-v`, variables numbered from 1), decide whether some
/// assignment makes it false.
#[derive(Debug, Clone)]
pub struct NonTautology {
    num_vars: usize,
    disjuncts: Vec<Vec<i32>>,
}

impl NonTautology {
    /// Number of variables.
    pub closed spec fn spec_num_vars(&self) -> nat {
        self.num_vars as nat
    }

    /// The disjuncts.
    pub closed spec fn spec_disjuncts(&self) -> Seq<Vec<i32>> {
        self.disjuncts@
    }

    /// Creates an instance.
    pub fn new(num_vars: usize, disjuncts: Vec<Vec<i32>>) -> (r: Self)
        ensures
            r.spec_num_vars() == num_vars,
            r.spec_disjuncts() == disjuncts@,
    {
        NonTautology { num_vars, disjuncts }
    }

    /// Number of variables.
    pub fn num_vars(&self) -> (r: usize)
        ensures
            r == self.spec_num_vars(),
    {
        self.num_vars
    }

    /// Number of disjuncts.
    pub fn num_disjuncts(&self) -> (r: usize)
        ensures
            r == self.spec_disjuncts().len(),
    {
        self.disjuncts.len()
    }

    /// The disjuncts.
    pub fn disjuncts(&self) -> (r: &[Vec<i32>])
        ensures
            r@ == self.spec_disjuncts(),
    {
        self.disjuncts.as_slice()
    }

    fn literal_is_true(lit: i32, config: &[usize]) -> (r: bool)
        requires
            lit != 0,
        ensures
            r == lit_true_cfg(lit, config@),
    {
        let var = crate::models::formula::sat::literal_variable(lit);
        let value: usize = if var < config.len() { config[var] } else { 0 };
        if lit > 0 { value == 1 } else { value == 0 }
    }

    fn conjunction_true(d: &[i32], config: &[usize]) -> (r: bool)
        requires
            !conj_scan_hits_zero(d@, config@),
        ensures
            r == conj_true(d@, config@),
    {
        let mut i: usize = 0;
        while i < d.len()
            invariant
                i <= d@.len(),
                !conj_scan_hits_zero(d@, config@),
                forall|j: int| 0 <= j < i ==> #[trigger] lit_true_cfg(d@[j], config@),
            decreases d.len() - i,
        {
            proof {
                if d@[i as int] == 0 {
                    assert(conj_scan_hits_zero(d@, config@));
                }
            }
            if !Self::literal_is_true(d[i], config) {
                return false;
            }
            i += 1;
        }
        true
    }

    /// One binary variable per formula variable.
    pub fn dims(&self) -> (r: Vec<usize>)
        ensures
            r@.len() == self.spec_num_vars(),
            forall|i: int| 0 <= i < r@.len() ==> #[trigger] r@[i] == 2,
    {
        crate::models::graph::uniform_dims(self.num_vars, 2)
    }

    /// Whether the configuration makes the formula false: no disjunct is true.
    /// Panics on the literal 0 if the evaluation reaches it.
    pub fn evaluate(&self, config: &[usize]) -> (r: Or)
        requires
            !dnf_scan_hits_zero(self.spec_disjuncts(), config@),
        ensures
            r == Or(!dnf_true(self.spec_disjuncts(), config@)),
    {
        let mut k: usize = 0;
        while k < self.disjuncts.len()
            invariant
                k <= self.disjuncts@.len(),
                !dnf_scan_hits_zero(self.disjuncts@, config@),
                forall|j: int| 0 <= j < k ==> !#[trigger] conj_true(self.disjuncts@[j]@, config@),
            decreases self.disjuncts.len() - k,
        {
            proof {
                if conj_scan_hits_zero(self.disjuncts@[k as int]@, config@) {
                    assert(dnf_scan_hits_zero(self.disjuncts@, config@));
                }
            }
            if Self::conjunction_true(self.disjuncts[k].as_slice(), config) {
                return Or(false);
            }
            k += 1;
        }
        Or(true)
    }
}

} // verus!
