//! Systems of polynomial equations over GF(2).
use vstd::prelude::*;
use crate::types::{Or, ConstructionError};

verus! {

/// Every variable index is below `n` and each monomial is strictly increasing.
pub open spec fn valid_equations(n: nat, eqs: Seq<Vec<Vec<usize>>>) -> bool {
    forall|e: int, m: int| 0 <= e < eqs.len() && 0 <= m < eqs[e]@.len() ==> {
        let mono = #[trigger] eqs[e]@[m]@;
        &&& forall|i: int| 0 <= i < mono.len() ==> #[trigger] mono[i] < n
        &&& forall|i: int| 0 <= i < mono.len() - 1 ==> #[trigger] mono[i] < mono[i + 1]
    }
}

/// Value of a monomial: 1 when every variable in it is nonzero (the empty
/// monomial is the constant 1).
pub open spec fn monomial_one(mono: Seq<usize>, a: Seq<usize>) -> bool {
    forall|i: int| 0 <= i < mono.len() ==> a[#[trigger] mono[i] as int] != 0
}

/// Evaluating the monomial indexes the assignment out of range: some
/// variable beyond the assignment is reached before a zero variable.
pub open spec fn monomial_out_of_range(mono: Seq<usize>, a: Seq<usize>) -> bool {
    exists|i: int| 0 <= i < mono.len() && #[trigger] mono[i] >= a.len()
        && forall|j: int| 0 <= j < i ==> a[#[trigger] mono[j] as int] != 0
}

/// Number of monomials among the first `k` whose value is 1.
pub open spec fn ones_count(eq: Seq<Vec<usize>>, a: Seq<usize>, k: int) -> nat
    decreases k,
{
    if k <= 0 {
        0
    } else {
        ones_count(eq, a, k - 1) + if monomial_one(eq[k - 1]@, a) { 1nat } else { 0nat }
    }
}

/// The polynomial evaluates to 0 mod 2.
pub open spec fn equation_zero(eq: Seq<Vec<usize>>, a: Seq<usize>) -> bool {
    ones_count(eq, a, eq.len() as int) % 2 == 0
}

/// Evaluating the equation indexes the assignment out of range.
pub open spec fn equation_out_of_range(eq: Seq<Vec<usize>>, a: Seq<usize>) -> bool {
    exists|m: int| 0 <= m < eq.len() && #[trigger] monomial_out_of_range(eq[m]@, a)
}

/// Checking the equations in order indexes the assignment out of range
/// before an equation fails.
pub open spec fn system_out_of_range(eqs: Seq<Vec<Vec<usize>>>, a: Seq<usize>) -> bool {
    exists|e: int| 0 <= e < eqs.len() && #[trigger] equation_out_of_range(eqs[e]@, a)
        && forall|e2: int| 0 <= e2 < e ==> #[trigger] equation_zero(eqs[e2]@, a)
}

/// Every equation evaluates to 0.
pub open spec fn system_zero(eqs: Seq<Vec<Vec<usize>>>, a: Seq<usize>) -> bool {
    forall|e: int| 0 <= e < eqs.len() ==> #[trigger] equation_zero(eqs[e]@, a)
}

/// Given multilinear polynomials over GF(2) (each a list of monomials, each
/// monomial a sorted list of variables), decide whether some 0/1 assignment
/// makes all of them 0.
#[derive(Debug, Clone)]
pub struct AlgebraicEquationsOverGF2 {
    num_variables: usize,
    equations: Vec<Vec<Vec<usize>>>,
}

impl AlgebraicEquationsOverGF2 {
    /// Number of variables.
    pub closed spec fn spec_num_variables(&self) -> nat {
        self.num_variables as nat
    }

    /// The equations.
    pub closed spec fn spec_equations(&self) -> Seq<Vec<Vec<usize>>> {
        self.equations@
    }

    fn validate(num_variables: usize, equations: &[Vec<Vec<usize>>]) -> (r: Result<(), ConstructionError>)
        ensures
            r is Ok <==> valid_equations(num_variables as nat, equations@),
    {
        let mut e: usize = 0;
        while e < equations.len()
            invariant
                e <= equations@.len(),
                forall|e2: int, m: int| 0 <= e2 < e && 0 <= m < equations@[e2]@.len() ==> {
                    let mono = #[trigger] equations@[e2]@[m]@;
                    &&& forall|i: int| 0 <= i < mono.len() ==> #[trigger] mono[i] < num_variables
                    &&& forall|i: int| 0 <= i < mono.len() - 1 ==> #[trigger] mono[i] < mono[i + 1]
                },
            decreases equations.len() - e,
        {
            let eq = &equations[e];
            let mut m: usize = 0;
            while m < eq.len()
                invariant
                    e < equations@.len(),
                    eq@ == equations@[e as int]@,
                    m <= eq@.len(),
                    forall|e2: int, m2: int| 0 <= e2 < e && 0 <= m2 < equations@[e2]@.len() ==> {
                        let mono = #[trigger] equations@[e2]@[m2]@;
                        &&& forall|i: int| 0 <= i < mono.len() ==> #[trigger] mono[i] < num_variables
                        &&& forall|i: int| 0 <= i < mono.len() - 1 ==> #[trigger] mono[i] < mono[i + 1]
                    },
                    forall|m2: int| 0 <= m2 < m ==> {
                        let mono = #[trigger] eq@[m2]@;
                        &&& forall|i: int| 0 <= i < mono.len() ==> #[trigger] mono[i] < num_variables
                        &&& forall|i: int| 0 <= i < mono.len() - 1 ==> #[trigger] mono[i] < mono[i + 1]
                    },
                decreases eq.len() - m,
            {
                let mono = &eq[m];
                let mut i: usize = 0;
                while i < mono.len()
                    invariant
                        e < equations@.len(),
                        eq@ == equations@[e as int]@,
                        m < eq@.len(),
                        mono@ == eq@[m as int]@,
                        i <= mono@.len(),
                        forall|j: int| 0 <= j < i ==> #[trigger] mono@[j] < num_variables,
                        forall|j: int| 0 <= j < i - 1 ==> #[trigger] mono@[j] < mono@[j + 1],
                    decreases mono.len() - i,
                {
                    if mono[i] >= num_variables {
                        assert(equations@[e as int]@[m as int]@[i as int] >= num_variables);
                        return Err(ConstructionError::OutOfRange);
                    }
                    if i > 0 && mono[i - 1] >= mono[i] {
                        assert(equations@[e as int]@[m as int]@ == mono@);
                        assert(mono@[(i - 1) as int] >= mono@[(i - 1) as int + 1]);
                        return Err(ConstructionError::InvalidValue);
                    }
                    i += 1;
                }
                m += 1;
            }
            assert forall|e2: int, m2: int| 0 <= e2 < e + 1 && 0 <= m2 < equations@[e2]@.len() implies {
                let mono = #[trigger] equations@[e2]@[m2]@;
                &&& forall|i: int| 0 <= i < mono.len() ==> #[trigger] mono[i] < num_variables
                &&& forall|i: int| 0 <= i < mono.len() - 1 ==> #[trigger] mono[i] < mono[i + 1]
            } by {
                if e2 == e {
                    assert(equations@[e2]@[m2]@ == eq@[m2]@);
                }
            }
            e += 1;
        }
        Ok(())
    }

    /// Creates an instance, or an error when a variable is out of range or a
    /// monomial is not strictly sorted.
    pub fn new(num_variables: usize, equations: Vec<Vec<Vec<usize>>>) -> (r: Result<Self, ConstructionError>)
        ensures
            r is Ok <==> valid_equations(num_variables as nat, equations@),
            r matches Ok(p) ==> p.spec_num_variables() == num_variables && p.spec_equations() == equations@,
    {
        match Self::validate(num_variables, equations.as_slice()) {
            Ok(()) => Ok(AlgebraicEquationsOverGF2 { num_variables, equations }),
            Err(e) => Err(e),
        }
    }

    /// Number of variables.
    pub fn num_variables(&self) -> (r: usize)
        ensures
            r == self.spec_num_variables(),
    {
        self.num_variables
    }

    /// Number of equations.
    pub fn num_equations(&self) -> (r: usize)
        ensures
            r == self.spec_equations().len(),
    {
        self.equations.len()
    }

    /// The equations.
    pub fn equations(&self) -> (r: &[Vec<Vec<usize>>])
        ensures
            r@ == self.spec_equations(),
    {
        self.equations.as_slice()
    }

    fn evaluate_monomial(monomial: &[usize], assignment: &[usize]) -> (r: usize)
        requires
            !monomial_out_of_range(monomial@, assignment@),
        ensures
            r == if monomial_one(monomial@, assignment@) { 1usize } else { 0usize },
    {
        let mut i: usize = 0;
        while i < monomial.len()
            invariant
                i <= monomial@.len(),
                !monomial_out_of_range(monomial@, assignment@),
                forall|j: int| 0 <= j < i ==> assignment@[#[trigger] monomial@[j] as int] != 0,
                forall|j: int| 0 <= j < i ==> #[trigger] monomial@[j] < assignment@.len(),
            decreases monomial.len() - i,
        {
            if monomial[i] >= assignment.len() {
                assert(monomial_out_of_range(monomial@, assignment@));
            }
            if assignment[monomial[i]] == 0 {
                return 0;
            }
            i += 1;
        }
        1
    }

    fn evaluate_equation(equation: &[Vec<usize>], assignment: &[usize]) -> (r: bool)
        requires
            !equation_out_of_range(equation@, assignment@),
        ensures
            r == equation_zero(equation@, assignment@),
    {
        let mut count: usize = 0;
        let mut m: usize = 0;
        while m < equation.len()
            invariant
                m <= equation@.len(),
                !equation_out_of_range(equation@, assignment@),
                count == ones_count(equation@, assignment@, m as int),
                count <= m,
            decreases equation.len() - m,
        {
            proof {
                if monomial_out_of_range(equation@[m as int]@, assignment@) {
                    assert(equation_out_of_range(equation@, assignment@));
                }
            }
            count = count + Self::evaluate_monomial(equation[m].as_slice(), assignment);
            m += 1;
        }
        count % 2 == 0
    }

    /// One binary variable per polynomial variable.
    pub fn dims(&self) -> (r: Vec<usize>)
        ensures
            r@.len() == self.spec_num_variables(),
            forall|i: int| 0 <= i < r@.len() ==> #[trigger] r@[i] == 2,
    {
        crate::models::graph::uniform_dims(self.num_variables, 2)
    }

    /// Whether every polynomial evaluates to 0 under the assignment. Panics
    /// when the evaluation reaches a variable beyond the assignment.
    pub fn evaluate(&self, config: &[usize]) -> (r: Or)
        requires
            !system_out_of_range(self.spec_equations(), config@),
        ensures
            r == Or(system_zero(self.spec_equations(), config@)),
    {
        let mut e: usize = 0;
        while e < self.equations.len()
            invariant
                e <= self.equations@.len(),
                !system_out_of_range(self.equations@, config@),
                forall|e2: int| 0 <= e2 < e ==> #[trigger] equation_zero(self.equations@[e2]@, config@),
            decreases self.equations.len() - e,
        {
            proof {
                if equation_out_of_range(self.equations@[e as int]@, config@) {
                    assert(system_out_of_range(self.equations@, config@));
                }
            }
            if !Self::evaluate_equation(self.equations[e].as_slice(), config) {
                return Or(false);
            }
            e += 1;
        }
        Or(true)
    }
}

} // verus!
