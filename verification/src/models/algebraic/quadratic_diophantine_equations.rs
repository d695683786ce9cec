//! Quadratic Diophantine Equations: positive `x, y` with `a x^2 + b y = c`?
use vstd::prelude::*;
use crate::types::{Or, ConstructionError};

verus! {

/// The `y` that `x` determines, if it is a positive integer: `x > 0`,
/// `a x^2 < c`, and `b` divides `c - a x^2`.
pub open spec fn y_for(a: int, b: int, c: int, x: int) -> Option<int> {
    if x > 0 && a * x * x < c && (c - a * x * x) % b == 0 && (c - a * x * x) / b > 0 {
        Some((c - a * x * x) / b)
    } else {
        None
    }
}

/// Given positive `a`, `b`, `c`, decide whether `a x^2 + b y = c` has a
/// solution in positive integers.
#[derive(Debug, Clone)]
pub struct QuadraticDiophantineEquations {
    a: u64,
    b: u64,
    c: u64,
}

impl QuadraticDiophantineEquations {
    /// Coefficient of `x^2`.
    pub closed spec fn spec_a(&self) -> u64 {
        self.a
    }

    /// Coefficient of `y`.
    pub closed spec fn spec_b(&self) -> u64 {
        self.b
    }

    /// Right-hand side.
    pub closed spec fn spec_c(&self) -> u64 {
        self.c
    }

    /// All three parameters are positive.
    pub open spec fn wf(&self) -> bool {
        self.spec_a() > 0 && self.spec_b() > 0 && self.spec_c() > 0
    }

    fn validate_inputs(a: u64, b: u64, c: u64) -> (r: Result<(), ConstructionError>)
        ensures
            r is Ok <==> (a > 0 && b > 0 && c > 0),
    {
        if a == 0 || b == 0 || c == 0 {
            return Err(ConstructionError::InvalidValue);
        }
        Ok(())
    }

    /// An instance, or an error unless all parameters are positive.
    pub fn try_new(a: u64, b: u64, c: u64) -> (r: Result<Self, ConstructionError>)
        ensures
            r is Ok <==> (a > 0 && b > 0 && c > 0),
            r matches Ok(p) ==> p.wf() && p.spec_a() == a && p.spec_b() == b && p.spec_c() == c,
    {
        match Self::validate_inputs(a, b, c) {
            Ok(()) => Ok(QuadraticDiophantineEquations { a, b, c }),
            Err(e) => Err(e),
        }
    }

    /// An instance; panics unless all parameters are positive.
    pub fn new(a: u64, b: u64, c: u64) -> (r: Self)
        requires
            a > 0 && b > 0 && c > 0,
        ensures
            r.wf(),
            r.spec_a() == a,
            r.spec_b() == b,
            r.spec_c() == c,
    {
        QuadraticDiophantineEquations { a, b, c }
    }

    /// Coefficient of `x^2`.
    pub fn a(&self) -> (r: u64)
        ensures
            r == self.spec_a(),
    {
        self.a
    }

    /// Coefficient of `y`.
    pub fn b(&self) -> (r: u64)
        ensures
            r == self.spec_b(),
    {
        self.b
    }

    /// Right-hand side.
    pub fn c(&self) -> (r: u64)
        ensures
            r == self.spec_c(),
    {
        self.c
    }

    /// The largest `r` with `r * r <= n`.
    pub fn isqrt(n: u64) -> (r: u64)
        ensures
            r as int * r as int <= n,
            n < (r as int + 1) * (r as int + 1),
    {
        let mut lo: u64 = 0;
        let mut hi: u64 = 4294967296;
        assert(hi as int * hi as int > n) by (nonlinear_arith)
            requires hi == 4294967296, n <= 18446744073709551615;
        while hi - lo > 1
            invariant
                lo < hi <= 4294967296,
                lo as int * lo as int <= n,
                hi as int * hi as int > n,
            decreases hi - lo,
        {
            let mid: u64 = lo + (hi - lo) / 2;
            assert(mid as int * mid as int <= 18446744073709551616) by (nonlinear_arith)
                requires mid <= 4294967296;
            let sq: u128 = mid as u128 * mid as u128;
            if sq <= n as u128 {
                lo = mid;
            } else {
                hi = mid;
            }
        }
        lo
    }

    /// The largest `x` with `a x^2 <= c` (0 when `c < a`).
    pub fn max_x(&self) -> (r: u64)
        requires
            self.wf(),
        ensures
            self.spec_c() < self.spec_a() ==> r == 0,
            self.spec_c() >= self.spec_a() ==> r as int * r as int <= self.spec_c() / self.spec_a()
                && (self.spec_c() / self.spec_a()) < (r as int + 1) * (r as int + 1),
    {
        if self.c < self.a {
            return 0;
        }
        Self::isqrt(self.c / self.a)
    }

    /// The positive `y` with `a x^2 + b y = c`, if there is one.
    pub fn check_x(&self, x: u64) -> (r: Option<u64>)
        requires
            self.wf(),
        ensures
            r == (match y_for(self.spec_a() as int, self.spec_b() as int, self.spec_c() as int, x as int) {
                Some(y) => Some(y as u64),
                None => None::<u64>,
            }),
    {
        if x == 0 {
            return None;
        }
        let a = self.a as u128;
        let xx = x as u128;
        assert(a * xx <= 18446744073709551615 * 18446744073709551615) by (nonlinear_arith)
            requires a <= 18446744073709551615, xx <= 18446744073709551615;
        let ax: u128 = a * xx;
        if ax > u64::MAX as u128 {
            assert(a * xx * xx >= a * xx) by (nonlinear_arith)
                requires xx >= 1, a >= 0;
            return None;
        }
        assert(ax * xx <= 18446744073709551615 * 18446744073709551615) by (nonlinear_arith)
            requires ax <= 18446744073709551615, xx <= 18446744073709551615;
        let ax2: u128 = ax * xx;
        assert(ax2 == a * xx * xx);
        if ax2 >= self.c as u128 {
            return None;
        }
        let remainder: u64 = self.c - ax2 as u64;
        if remainder % self.b != 0 {
            return None;
        }
        let y = remainder / self.b;
        if y == 0 {
            return None;
        }
        Some(y)
    }

    /// Whether the single entry `v` of the configuration encodes an `x = v + 1`
    /// that has a positive `y`. Panics when `v + 1` overflows.
    pub fn evaluate(&self, config: &[usize]) -> (r: Or)
        requires
            self.wf(),
            config@.len() == 1 ==> config@[0] < u64::MAX,
        ensures
            r == Or(config@.len() == 1 && y_for(self.spec_a() as int, self.spec_b() as int, self.spec_c() as int, config@[0] as int + 1) is Some),
    {
        if config.len() != 1 {
            return Or(false);
        }
        let x: u64 = config[0] as u64 + 1;
        Or(self.check_x(x).is_some())
    }
}

} // verus!
