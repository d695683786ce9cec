//! Simultaneous Incongruences: an integer avoiding every residue class `a_i mod b_i`.
use vstd::prelude::*;
use crate::types::{Or, ConstructionError, EvaluationError};

verus! {

/// Euclid's greatest common divisor of two nonnegative integers.
pub open spec fn gcd_spec(a: int, b: int) -> int
    decreases (if b > 0 { b } else { 0 }),
{
    if b <= 0 {
        a
    } else {
        gcd_spec(b, a % b)
    }
}

proof fn lemma_gcd_positive(a: int, b: int)
    requires
        a > 0,
        b >= 0,
    ensures
        gcd_spec(a, b) > 0,
        gcd_spec(a, b) <= a || b > 0,
    decreases b,
{
    if b > 0 {
        lemma_gcd_positive(b, a % b);
    }
}

proof fn lemma_gcd_divides(a: int, b: int)
    requires
        a > 0,
        b >= 0,
    ensures
        gcd_spec(a, b) > 0,
        a % gcd_spec(a, b) == 0,
        b % gcd_spec(a, b) == 0,
    decreases b,
{
    lemma_gcd_positive(a, b);
    if b > 0 {
        lemma_gcd_divides(b, a % b);
        let g = gcd_spec(a, b);
        assert(g == gcd_spec(b, a % b));
        vstd::arithmetic::div_mod::lemma_fundamental_div_mod(a, b);
        let q = a / b;
        let r = a % b;
        assert(a == b * q + r);
        vstd::arithmetic::div_mod::lemma_fundamental_div_mod(b, g);
        vstd::arithmetic::div_mod::lemma_fundamental_div_mod(r, g);
        let bg = b / g;
        let rg = r / g;
        assert(b == g * bg);
        assert(r == g * rg);
        assert(a == g * (bg * q + rg)) by (nonlinear_arith)
            requires a == b * q + r, b == g * bg, r == g * rg;
        vstd::arithmetic::div_mod::lemma_mod_multiples_basic(bg * q + rg, g);
        assert((bg * q + rg) * g == g * (bg * q + rg)) by (nonlinear_arith);
    }
}

/// Greatest common divisor of two positive integers.
fn gcd(a: i64, b: i64) -> (r: i64)
    requires
        a > 0,
        b > 0,
    ensures
        r as int == gcd_spec(a as int, b as int),
        r > 0,
{
    let mut x: i64 = a;
    let mut y: i64 = b;
    while y != 0
        invariant
            x > 0,
            y >= 0,
            gcd_spec(x as int, y as int) == gcd_spec(a as int, b as int),
        decreases y,
    {
        let t = y;
        y = x % y;
        x = t;
    }
    proof { lemma_gcd_positive(x as int, 0); }
    x
}

/// The least common multiple of the first `k` moduli, folded as
/// `lcm / gcd(lcm, b) * b` from 1 with checked `i64` multiplication (`None` on overflow).
pub open spec fn lcm_fold(pairs: Seq<(i64, i64)>, k: int) -> Option<int>
    decreases k,
{
    if k <= 0 {
        Some(1)
    } else {
        match lcm_fold(pairs, k - 1) {
            None => None,
            Some(l) => {
                let b = pairs[k - 1].1 as int;
                let v = (l / gcd_spec(l, b)) * b;
                if v > i64::MAX { None } else { Some(v) }
            },
        }
    }
}

/// Every pair has `1 <= a <= b`.
pub open spec fn pairs_valid(pairs: Seq<(i64, i64)>) -> bool {
    forall|i: int| 0 <= i < pairs.len() ==> 1 <= (#[trigger] pairs[i]).0 <= pairs[i].1
}

/// Rust's remainder (truncating toward zero) of `x` by a positive `b`.
pub open spec fn trunc_rem(x: int, b: int) -> int {
    if x >= 0 { x % b } else { -((-x) % b) }
}

/// `x` avoids every class: `x % b != a % b` for each pair (remainders truncate toward zero).
pub open spec fn avoids_all(pairs: Seq<(i64, i64)>, x: int) -> bool {
    forall|i: int| 0 <= i < pairs.len() ==> trunc_rem(x, (#[trigger] pairs[i]).1 as int) != trunc_rem(pairs[i].0 as int, pairs[i].1 as int)
}

/// Given pairs `(a_i, b_i)` with `1 <= a_i <= b_i`, decide whether some
/// integer `x` has `x mod b_i != a_i mod b_i` for every `i`.
#[derive(Debug, Clone)]
pub struct SimultaneousIncongruences {
    pairs: Vec<(i64, i64)>,
}

proof fn lemma_lcm_fold_positive(pairs: Seq<(i64, i64)>, k: int)
    requires
        pairs_valid(pairs),
        0 <= k <= pairs.len(),
    ensures
        lcm_fold(pairs, k) matches Some(l) ==> 1 <= l <= i64::MAX,
    decreases k,
{
    if k > 0 {
        lemma_lcm_fold_positive(pairs, k - 1);
        if let Some(l) = lcm_fold(pairs, k - 1) {
            let b = pairs[k - 1].1 as int;
            assert(1 <= pairs[k - 1].0 <= pairs[k - 1].1);
            lemma_gcd_divides(l, b);
            let g = gcd_spec(l, b);
            lemma_gcd_positive(l, b);
            assert(l / g >= 1) by {
                vstd::arithmetic::div_mod::lemma_fundamental_div_mod(l, g);
                assert(l == g * (l / g));
                if l / g <= 0 {
                    assert(g * (l / g) <= 0) by (nonlinear_arith)
                        requires g > 0, l / g <= 0;
                }
            }
            assert((l / g) * b >= 1) by (nonlinear_arith)
                requires l / g >= 1, b >= 1;
        }
    }
}

proof fn lemma_lcm_fold_none_stays(pairs: Seq<(i64, i64)>, a: int, b: int)
    requires
        0 <= a <= b,
        lcm_fold(pairs, a) is None,
    ensures
        lcm_fold(pairs, b) is None,
    decreases b - a,
{
    if a < b {
        lemma_lcm_fold_none_stays(pairs, a, b - 1);
    }
}

/// The fold of the least common multiple; requires that it does not overflow.
fn fold_lcm(pairs: &[(i64, i64)]) -> (r: Option<i64>)
    requires
        pairs_valid(pairs@),
    ensures
        r == (match lcm_fold(pairs@, pairs@.len() as int) {
            Some(l) => Some(l as i64),
            None => None::<i64>,
        }),
{
    let mut l: i64 = 1;
    let mut k: usize = 0;
    while k < pairs.len()
        invariant
            pairs_valid(pairs@),
            k <= pairs@.len(),
            lcm_fold(pairs@, k as int) == Some(l as int),
            l >= 1,
        decreases pairs.len() - k,
    {
        let b = pairs[k].1;
        assert(1 <= pairs@[k as int].0 <= pairs@[k as int].1);
        let g = gcd(l, b);
        proof { lemma_gcd_divides(l as int, b as int); }
        let q = l / g;
        assert(q >= 1) by {
            vstd::arithmetic::div_mod::lemma_fundamental_div_mod(l as int, g as int);
            if q <= 0 {
                assert(g * q <= 0) by (nonlinear_arith)
                    requires g > 0, q <= 0;
            }
        }
        assert((q as int) * (b as int) <= 85070591730234615847396907784232501249) by (nonlinear_arith)
            requires 1 <= q <= 9223372036854775807, 1 <= b <= 9223372036854775807;
        let prod: i128 = q as i128 * b as i128;
        assert(prod == q * b);
        if prod > 9223372036854775807i128 {
            proof { lemma_lcm_fold_none_stays(pairs@, k as int + 1, pairs@.len() as int); }
            return None;
        }
        assert(prod >= 1) by (nonlinear_arith)
            requires prod == q * b, q >= 1, b >= 1;
        l = prod as i64;
        k += 1;
    }
    Some(l)
}

impl SimultaneousIncongruences {
    /// The pairs.
    pub closed spec fn spec_pairs(&self) -> Seq<(i64, i64)> {
        self.pairs@
    }

    /// Valid pairs whose moduli have a least common multiple within `i64`.
    pub open spec fn wf(&self) -> bool {
        pairs_valid(self.spec_pairs()) && lcm_fold(self.spec_pairs(), self.spec_pairs().len() as int) is Some
    }

    fn validate_inputs(pairs: &[(i64, i64)]) -> (r: Result<(), ConstructionError>)
        ensures
            r is Ok <==> pairs_valid(pairs@) && lcm_fold(pairs@, pairs@.len() as int) is Some,
    {
        let mut i: usize = 0;
        while i < pairs.len()
            invariant
                i <= pairs@.len(),
                forall|j: int| 0 <= j < i ==> 1 <= (#[trigger] pairs@[j]).0 <= pairs@[j].1,
            decreases pairs.len() - i,
        {
            let (a, b) = pairs[i];
            if b <= 0 || a <= 0 || a > b {
                assert(pairs@[i as int] == (a, b));
                return Err(ConstructionError::InvalidValue);
            }
            i += 1;
        }
        match fold_lcm(pairs) {
            Some(_) => Ok(()),
            None => Err(ConstructionError::OutOfRange),
        }
    }

    /// An instance, or an error unless every pair has `1 <= a <= b` and the
    /// least common multiple of the moduli fits in `i64`.
    pub fn new(pairs: Vec<(i64, i64)>) -> (r: Result<Self, ConstructionError>)
        ensures
            r is Ok <==> pairs_valid(pairs@) && lcm_fold(pairs@, pairs@.len() as int) is Some,
            r matches Ok(p) ==> p.wf() && p.spec_pairs() == pairs@,
    {
        match Self::validate_inputs(pairs.as_slice()) {
            Ok(()) => Ok(SimultaneousIncongruences { pairs }),
            Err(e) => Err(e),
        }
    }

    /// Number of pairs.
    pub fn num_pairs(&self) -> (r: usize)
        ensures
            r == self.spec_pairs().len(),
    {
        self.pairs.len()
    }

    /// The pairs.
    pub fn pairs(&self) -> (r: &[(i64, i64)])
        ensures
            r@ == self.spec_pairs(),
    {
        self.pairs.as_slice()
    }

    /// The least common multiple of the moduli.
    pub fn lcm_moduli(&self) -> (r: i64)
        requires
            self.wf(),
        ensures
            Some(r as int) == lcm_fold(self.spec_pairs(), self.spec_pairs().len() as int),
    {
        proof { lemma_lcm_fold_positive(self.pairs@, self.pairs@.len() as int); }
        match fold_lcm(self.pairs.as_slice()) {
            Some(l) => l,
            None => 1,
        }
    }

    /// Whether `x` avoids every residue class.
    pub fn evaluate(&self, solution: &i64) -> (r: Result<Or, EvaluationError>)
        requires
            self.wf(),
        ensures
            r == Ok::<Or, EvaluationError>(Or(avoids_all(self.spec_pairs(), *solution as int))),
    {
        let x: i128 = *solution as i128;
        let mut i: usize = 0;
        while i < self.pairs.len()
            invariant
                self.wf(),
                x == *solution as int,
                i <= self.pairs@.len(),
                forall|j: int| 0 <= j < i ==> trunc_rem(x as int, (#[trigger] self.pairs@[j]).1 as int) != trunc_rem(self.pairs@[j].0 as int, self.pairs@[j].1 as int),
            decreases self.pairs.len() - i,
        {
            let (a, b) = self.pairs[i];
            assert(1 <= self.pairs@[i as int].0 <= self.pairs@[i as int].1);
            let bb: i128 = b as i128;
            let xr: i128 = if x >= 0 { x % bb } else { -((-x) % bb) };
            let ar: i128 = (a as i128) % bb;
            if xr == ar {
                return Ok(Or(false));
            }
            i += 1;
        }
        Ok(Or(true))
    }
}

} // verus!
