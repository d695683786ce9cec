//! Quadratic Congruences: is there `x < c` with `x^2 = a (mod b)`?
use vstd::prelude::*;
use crate::types::{Or, ConstructionError};

verus! {

/// Given `a < b` and `c`, decide whether some `x` in `1..c` has `x^2 mod b == a`.
#[derive(Debug, Clone)]
pub struct QuadraticCongruences {
    a: u64,
    b: u64,
    c: u64,
}

/// The parameters are valid: `b` and `c` positive and `a < b`.
pub open spec fn congruence_params_valid(a: u64, b: u64, c: u64) -> bool {
    b > 0 && c > 0 && a < b
}

impl QuadraticCongruences {
    /// The residue.
    pub closed spec fn spec_a(&self) -> u64 {
        self.a
    }

    /// The modulus.
    pub closed spec fn spec_b(&self) -> u64 {
        self.b
    }

    /// The bound on `x`.
    pub closed spec fn spec_c(&self) -> u64 {
        self.c
    }

    /// Valid parameters.
    pub open spec fn wf(&self) -> bool {
        congruence_params_valid(self.spec_a(), self.spec_b(), self.spec_c())
    }

    fn validate_inputs(a: u64, b: u64, c: u64) -> (r: Result<(), ConstructionError>)
        ensures
            r is Ok <==> congruence_params_valid(a, b, c),
    {
        if b == 0 || c == 0 {
            return Err(ConstructionError::InvalidValue);
        }
        if a >= b {
            return Err(ConstructionError::OutOfRange);
        }
        Ok(())
    }

    /// An instance, or an error unless `b > 0`, `c > 0` and `a < b`.
    pub fn try_new(a: u64, b: u64, c: u64) -> (r: Result<Self, ConstructionError>)
        ensures
            r is Ok <==> congruence_params_valid(a, b, c),
            r matches Ok(p) ==> p.wf() && p.spec_a() == a && p.spec_b() == b && p.spec_c() == c,
    {
        match Self::validate_inputs(a, b, c) {
            Ok(()) => Ok(QuadraticCongruences { a, b, c }),
            Err(e) => Err(e),
        }
    }

    /// An instance; panics unless `b > 0`, `c > 0` and `a < b`.
    pub fn new(a: u64, b: u64, c: u64) -> (r: Self)
        requires
            congruence_params_valid(a, b, c),
        ensures
            r.wf(),
            r.spec_a() == a,
            r.spec_b() == b,
            r.spec_c() == c,
    {
        QuadraticCongruences { a, b, c }
    }

    /// The residue.
    pub fn a(&self) -> (r: u64)
        ensures
            r == self.spec_a(),
    {
        self.a
    }

    /// The modulus.
    pub fn b(&self) -> (r: u64)
        ensures
            r == self.spec_b(),
    {
        self.b
    }

    /// The bound on `x`.
    pub fn c(&self) -> (r: u64)
        ensures
            r == self.spec_c(),
    {
        self.c
    }

    /// Whether the single entry `v` of the configuration encodes some `x = v + 1`
    /// in the search space `1..c` with `x^2 mod b == a` (false when the
    /// configuration does not have one entry or `v + 1 >= c`).
    pub fn evaluate(&self, config: &[usize]) -> (r: Or)
        requires
            self.wf(),
        ensures
            r == Or(config@.len() == 1 && config@[0] + 1 < self.spec_c() && ({
                let x = config@[0] as int + 1;
                (x * x) % (self.spec_b() as int) == self.spec_a() as int
            })),
    {
        if self.c <= 1 {
            return Or(false);
        }
        if config.len() != 1 {
            return Or(false);
        }
        if config[0] as u64 >= self.c - 1 {
            return Or(false);
        }
        let x: u64 = config[0] as u64 + 1;
        let xx: u128 = x as u128;
        assert(xx * xx <= 340282366920938463463374607431768211455) by (nonlinear_arith)
            requires xx <= 18446744073709551615;
        let sq: u128 = xx * xx;
        Or(sq % (self.b as u128) == self.a as u128)
    }
}

} // verus!
