//! Multivariate quadratic equations over GF(2).
use vstd::prelude::*;
use crate::types::Or;

verus! {

/// Number of the first `k` quadratic terms whose two variables are both 1.
pub open spec fn quad_ones(terms: Seq<(usize, usize)>, a: Seq<usize>, k: int) -> nat
    decreases k,
{
    if k <= 0 {
        0
    } else {
        let t = terms[k - 1];
        quad_ones(terms, a, k - 1) + if a[t.0 as int] == 1 && a[t.1 as int] == 1 { 1nat } else { 0nat }
    }
}

/// Number of the first `k` linear terms whose variable is 1.
pub open spec fn lin_ones(terms: Seq<usize>, a: Seq<usize>, k: int) -> nat
    decreases k,
{
    if k <= 0 {
        0
    } else {
        lin_ones(terms, a, k - 1) + if a[terms[k - 1] as int] == 1 { 1nat } else { 0nat }
    }
}

/// A quadratic polynomial over GF(2): the sum of the listed products
/// `x_j x_k`, the listed variables `x_j`, and the constant.
#[derive(Debug, Clone)]
pub struct QuadraticPoly {
    /// Pairs `(j, k)` whose product is a term.
    pub quadratic_terms: Vec<(usize, usize)>,
    /// Variables that are terms.
    pub linear_terms: Vec<usize>,
    /// The constant term (true = 1).
    pub constant: bool,
}

/// The polynomial evaluates to 0.
pub open spec fn poly_zero(p: QuadraticPoly, a: Seq<usize>) -> bool {
    let ones = quad_ones(p.quadratic_terms@, a, p.quadratic_terms@.len() as int)
        + lin_ones(p.linear_terms@, a, p.linear_terms@.len() as int);
    (p.constant == (ones % 2 == 0)) == false
}

/// Evaluating the polynomial only indexes the assignment in range: the
/// first variable of every product, the second one whenever the first is 1,
/// and every linear variable.
pub open spec fn poly_in_range(p: QuadraticPoly, a: Seq<usize>) -> bool {
    &&& forall|i: int| 0 <= i < p.quadratic_terms@.len() ==> {
        let t = #[trigger] p.quadratic_terms@[i];
        t.0 < a.len() && (a[t.0 as int] == 1 ==> t.1 < a.len())
    }
    &&& forall|i: int| 0 <= i < p.linear_terms@.len() ==> #[trigger] p.linear_terms@[i] < a.len()
}

impl QuadraticPoly {
    /// Whether the polynomial evaluates to 0 (XOR for addition, AND for
    /// multiplication, 1 meaning true). Panics on an index beyond the assignment.
    pub fn evaluate(&self, config: &[usize]) -> (r: bool)
        requires
            poly_in_range(*self, config@),
        ensures
            r == poly_zero(*self, config@),
    {
        let mut result = self.constant;
        let mut i: usize = 0;
        while i < self.quadratic_terms.len()
            invariant
                poly_in_range(*self, config@),
                i <= self.quadratic_terms@.len(),
                result == (self.constant != (quad_ones(self.quadratic_terms@, config@, i as int) % 2 == 1)),
            decreases self.quadratic_terms.len() - i,
        {
            let (j, k) = self.quadratic_terms[i];
            assert(self.quadratic_terms@[i as int] == (j, k));
            if config[j] == 1 && config[k] == 1 {
                result = !result;
            }
            i += 1;
        }
        let ghost q = quad_ones(self.quadratic_terms@, config@, self.quadratic_terms@.len() as int);
        let mut l: usize = 0;
        while l < self.linear_terms.len()
            invariant
                poly_in_range(*self, config@),
                l <= self.linear_terms@.len(),
                q == quad_ones(self.quadratic_terms@, config@, self.quadratic_terms@.len() as int),
                result == (self.constant != ((q + lin_ones(self.linear_terms@, config@, l as int)) % 2 == 1)),
            decreases self.linear_terms.len() - l,
        {
            let j = self.linear_terms[l];
            if config[j] == 1 {
                result = !result;
            }
            l += 1;
        }
        !result
    }
}

/// Checking the polynomials in order reaches an out-of-range index before
/// a polynomial fails.
pub open spec fn system_in_range(eqs: Seq<QuadraticPoly>, a: Seq<usize>) -> bool {
    forall|e: int| 0 <= e < eqs.len() && (forall|e2: int| 0 <= e2 < e ==> #[trigger] poly_zero(eqs[e2], a))
        ==> #[trigger] poly_in_range(eqs[e], a)
}

/// Every polynomial evaluates to 0.
pub open spec fn all_polys_zero(eqs: Seq<QuadraticPoly>, a: Seq<usize>) -> bool {
    forall|e: int| 0 <= e < eqs.len() ==> #[trigger] poly_zero(eqs[e], a)
}

/// Given quadratic polynomials over GF(2), decide whether some 0/1
/// assignment makes all of them 0.
#[derive(Debug, Clone)]
pub struct MultivariateQuadratic {
    num_variables: usize,
    equations: Vec<QuadraticPoly>,
}

impl MultivariateQuadratic {
    /// Number of variables.
    pub closed spec fn spec_num_variables(&self) -> nat {
        self.num_variables as nat
    }

    /// The polynomials.
    pub closed spec fn spec_equations(&self) -> Seq<QuadraticPoly> {
        self.equations@
    }

    /// Creates an instance.
    pub fn new(num_variables: usize, equations: Vec<QuadraticPoly>) -> (r: Self)
        ensures
            r.spec_num_variables() == num_variables,
            r.spec_equations() == equations@,
    {
        MultivariateQuadratic { num_variables, equations }
    }

    /// Number of variables.
    pub fn num_variables(&self) -> (r: usize)
        ensures
            r == self.spec_num_variables(),
    {
        self.num_variables
    }

    /// Number of polynomials.
    pub fn num_equations(&self) -> (r: usize)
        ensures
            r == self.spec_equations().len(),
    {
        self.equations.len()
    }

    /// The polynomials.
    pub fn equations(&self) -> (r: &[QuadraticPoly])
        ensures
            r@ == self.spec_equations(),
    {
        self.equations.as_slice()
    }

    /// One binary variable per polynomial variable.
    pub fn dims(&self) -> (r: Vec<usize>)
        ensures
            r@.len() == self.spec_num_variables(),
            forall|i: int| 0 <= i < r@.len() ==> #[trigger] r@[i] == 2,
    {
        crate::models::graph::uniform_dims(self.num_variables, 2)
    }

    /// Whether every polynomial evaluates to 0. Panics when the evaluation
    /// reaches an index beyond the assignment.
    pub fn evaluate(&self, config: &[usize]) -> (r: bool)
        requires
            system_in_range(self.spec_equations(), config@),
        ensures
            r == all_polys_zero(self.spec_equations(), config@),
    {
        let mut e: usize = 0;
        while e < self.equations.len()
            invariant
                e <= self.equations@.len(),
                system_in_range(self.equations@, config@),
                forall|e2: int| 0 <= e2 < e ==> #[trigger] poly_zero(self.equations@[e2], config@),
            decreases self.equations.len() - e,
        {
            assert(poly_in_range(self.equations@[e as int], config@));
            if !self.equations[e].evaluate(config) {
                return false;
            }
            e += 1;
        }
        true
    }
}

} // verus!
