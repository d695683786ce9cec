//! Equilibrium Point: each player's payoff is a product of affine factors in
//! the players' choices; decide whether a choice profile is a pure Nash
//! equilibrium over the finite strategy sets.
use vstd::prelude::*;
use crate::sums::{fits64, checked_fold, lemma_fold_push, lemma_checked_fold_range};
use crate::types::{ConstructionError, Or};

verus! {

/// The products `coeffs[j + 1] * y[j]`, paired up to the shorter list.
pub open spec fn terms(coeffs: Seq<i64>, y: Seq<i64>) -> Seq<int> {
    let n = if coeffs.len() == 0 { 0 } else if coeffs.len() - 1 <= y.len() { coeffs.len() - 1 } else { y.len() as int };
    Seq::new(n as nat, |j: int| coeffs[j + 1] as int * y[j] as int)
}

/// The affine factor `coeffs[0] + sum coeffs[j + 1] * y[j]`, evaluated in `i64`
/// left to right (`None` when a product, a partial sum or the total leaves `i64`).
pub open spec fn factor_value(coeffs: Seq<i64>, y: Seq<i64>) -> Option<int> {
    let t = terms(coeffs, y);
    if !(forall|j: int| 0 <= j < t.len() ==> fits64(#[trigger] t[j])) {
        None
    } else {
        match checked_fold(t, i64::MIN as int, i64::MAX as int) {
            Some(s) => if fits64(coeffs[0] + s) { Some(coeffs[0] + s) } else { None },
            None => None,
        }
    }
}

/// The product of the first `k` factors, from 1, evaluated in `i64`.
pub open spec fn product_prefix(factors: Seq<Seq<i64>>, y: Seq<i64>, k: int) -> Option<int>
    decreases k,
{
    if k <= 0 {
        Some(1)
    } else {
        match (product_prefix(factors, y, k - 1), factor_value(factors[k - 1], y)) {
            (Some(p), Some(v)) => if fits64(p * v) { Some(p * v) } else { None },
            _ => None,
        }
    }
}

/// A player's payoff at profile `y`: 0 without factors, else the product of the factors.
pub open spec fn payoff(factors: Seq<Seq<i64>>, y: Seq<i64>) -> Option<int> {
    if factors.len() == 0 { Some(0) } else { product_prefix(factors, y, factors.len() as int) }
}

/// The factor lists of every player, as sequences.
pub open spec fn polys_view(p: Seq<Vec<Vec<i64>>>) -> Seq<Seq<Seq<i64>>> {
    p.map_values(|f: Vec<Vec<i64>>| f@.map_values(|c: Vec<i64>| c@))
}

/// The strategy sets, as sequences.
pub open spec fn sets_view(s: Seq<Vec<i64>>) -> Seq<Seq<i64>> {
    s.map_values(|m: Vec<i64>| m@)
}

/// One non-empty strategy set per player, and `1 + players` coefficients in every factor.
pub open spec fn valid_game(polys: Seq<Seq<Seq<i64>>>, sets: Seq<Seq<i64>>) -> bool {
    &&& sets.len() == polys.len()
    &&& forall|i: int| 0 <= i < sets.len() ==> (#[trigger] sets[i]).len() > 0
    &&& forall|i: int, j: int| 0 <= i < polys.len() && 0 <= j < polys[i].len()
        ==> (#[trigger] polys[i][j]).len() == polys.len() + 1
}

/// `config` picks one strategy index per player, each within its set.
pub open spec fn valid_choice(sets: Seq<Seq<i64>>, config: Seq<usize>) -> bool {
    config.len() == sets.len() && forall|i: int| 0 <= i < config.len() ==> #[trigger] config[i] < sets[i].len()
}

/// The strategy values that `config` picks.
pub open spec fn profile(sets: Seq<Seq<i64>>, config: Seq<usize>) -> Seq<i64> {
    Seq::new(config.len(), |i: int| sets[i][config[i] as int])
}

/// Every payoff the equilibrium test computes fits in `i64`: player `i`'s
/// payoff at the profile with `i`'s strategy replaced by any of its set.
pub open spec fn payoffs_fit(polys: Seq<Seq<Seq<i64>>>, sets: Seq<Seq<i64>>, config: Seq<usize>) -> bool {
    forall|i: int, k: int| 0 <= i < polys.len() && 0 <= k < sets[i].len()
        ==> (#[trigger] payoff(polys[i], profile(sets, config).update(i, sets[i][k]))) is Some
}

/// No player gains by switching to another value of its set.
pub open spec fn is_equilibrium(polys: Seq<Seq<Seq<i64>>>, sets: Seq<Seq<i64>>, config: Seq<usize>) -> bool {
    let y = profile(sets, config);
    forall|i: int, k: int| 0 <= i < polys.len() && 0 <= k < sets[i].len() && sets[i][k] != y[i]
        ==> (#[trigger] payoff(polys[i], y.update(i, sets[i][k]))).unwrap() <= payoff(polys[i], y).unwrap()
}

/// Given every player's payoff polynomial (a product of affine factors in the
/// chosen values) and finite strategy sets, decide whether a choice of one
/// value per player is a pure Nash equilibrium.
#[derive(Debug, Clone)]
pub struct EquilibriumPoint {
    polynomials: Vec<Vec<Vec<i64>>>,
    range_sets: Vec<Vec<i64>>,
}

impl EquilibriumPoint {
    /// The factors of every player.
    pub closed spec fn spec_polys(&self) -> Seq<Seq<Seq<i64>>> {
        polys_view(self.polynomials@)
    }

    /// The strategy sets.
    pub closed spec fn spec_sets(&self) -> Seq<Seq<i64>> {
        sets_view(self.range_sets@)
    }

    /// The instance is a valid game.
    pub open spec fn wf(&self) -> bool {
        valid_game(self.spec_polys(), self.spec_sets())
    }

    /// Checks the shapes: one strategy set per player (`LengthMismatch`),
    /// each non-empty (`InvalidValue`), every factor with `1 + players`
    /// coefficients (`LengthMismatch`), in that order.
    fn validate_inputs(polynomials: &[Vec<Vec<i64>>], range_sets: &[Vec<i64>]) -> (r: Result<(), ConstructionError>)
        ensures
            r is Ok <==> valid_game(polys_view(polynomials@), sets_view(range_sets@)),
            range_sets@.len() != polynomials@.len() ==> r == Err::<(), ConstructionError>(ConstructionError::LengthMismatch),
            range_sets@.len() == polynomials@.len() && (exists|i: int| 0 <= i < range_sets@.len() && #[trigger] range_sets@[i]@.len() == 0)
                ==> r == Err::<(), ConstructionError>(ConstructionError::InvalidValue),
    {
        let n = polynomials.len();
        if range_sets.len() != n {
            return Err(ConstructionError::LengthMismatch);
        }
        let mut i: usize = 0;
        while i < range_sets.len()
            invariant
                n == polynomials@.len(),
                range_sets@.len() == n,
                i <= range_sets@.len(),
                forall|j: int| 0 <= j < i ==> (#[trigger] range_sets@[j])@.len() > 0,
            decreases range_sets.len() - i,
        {
            if range_sets[i].len() == 0 {
                assert(sets_view(range_sets@)[i as int].len() == 0);
                return Err(ConstructionError::InvalidValue);
            }
            i += 1;
        }
        assert(forall|j: int| 0 <= j < range_sets@.len() ==> (#[trigger] sets_view(range_sets@)[j]).len() > 0);
        let mut p: usize = 0;
        while p < n
            invariant
                n == polynomials@.len(),
                range_sets@.len() == n,
                forall|j: int| 0 <= j < range_sets@.len() ==> (#[trigger] sets_view(range_sets@)[j]).len() > 0,
                !(exists|j: int| 0 <= j < range_sets@.len() && #[trigger] range_sets@[j]@.len() == 0),
                p <= n,
                forall|a: int, b: int| 0 <= a < p && 0 <= b < polys_view(polynomials@)[a].len()
                    ==> (#[trigger] polys_view(polynomials@)[a][b]).len() == n + 1,
            decreases n - p,
        {
            let factors = &polynomials[p];
            let mut j: usize = 0;
            while j < factors.len()
                invariant
                    n == polynomials@.len(),
                    range_sets@.len() == n,
                    !(exists|j: int| 0 <= j < range_sets@.len() && #[trigger] range_sets@[j]@.len() == 0),
                    p < n,
                    *factors == polynomials@[p as int],
                    j <= factors@.len(),
                    forall|b: int| 0 <= b < j ==> (#[trigger] factors@[b])@.len() == n + 1,
                decreases factors.len() - j,
            {
                let flen = factors[j].len();
                if n == usize::MAX || flen != n + 1 {
                    assert(polys_view(polynomials@)[p as int] == factors@.map_values(|c: Vec<i64>| c@));
                    assert(polys_view(polynomials@)[p as int][j as int] == factors@[j as int]@);
                    assert(factors@[j as int]@.len() != n + 1);
                    assert(polys_view(polynomials@).len() == n);
                    assert(polys_view(polynomials@)[p as int][j as int].len() != polys_view(polynomials@).len() + 1);
                    return Err(ConstructionError::LengthMismatch);
                }
                j += 1;
            }
            assert forall|a: int, b: int| 0 <= a < p + 1 && 0 <= b < polys_view(polynomials@)[a].len()
                implies (#[trigger] polys_view(polynomials@)[a][b]).len() == n + 1 by {
                if a == p {
                    assert(polys_view(polynomials@)[a][b] == factors@[b]@);
                }
            }
            p += 1;
        }
        Ok(())
    }

    /// Creates a game, or an error when the shapes do not fit (see `validate_inputs`).
    pub fn new(polynomials: Vec<Vec<Vec<i64>>>, range_sets: Vec<Vec<i64>>) -> (r: Result<Self, ConstructionError>)
        ensures
            r is Ok <==> valid_game(polys_view(polynomials@), sets_view(range_sets@)),
            r matches Ok(g) ==> g.wf() && g.spec_polys() == polys_view(polynomials@) && g.spec_sets() == sets_view(range_sets@),
    {
        match Self::validate_inputs(polynomials.as_slice(), range_sets.as_slice()) {
            Ok(()) => Ok(EquilibriumPoint { polynomials, range_sets }),
            Err(e) => Err(e),
        }
    }

    /// Number of players.
    pub fn num_players(&self) -> (r: usize)
        ensures
            r == self.spec_polys().len(),
    {
        self.polynomials.len()
    }

    /// The factors of every player.
    pub fn polynomials(&self) -> (r: &[Vec<Vec<i64>>])
        ensures
            polys_view(r@) == self.spec_polys(),
    {
        self.polynomials.as_slice()
    }

    /// The strategy sets.
    pub fn range_sets(&self) -> (r: &[Vec<i64>])
        ensures
            sets_view(r@) == self.spec_sets(),
    {
        self.range_sets.as_slice()
    }

    /// Player `player`'s payoff at `assignment`; panics on overflow, outside the `requires`.
    fn eval_payoff(&self, player: usize, assignment: &Vec<i64>) -> (r: i64)
        requires
            self.wf(),
            player < self.spec_polys().len(),
            payoff(self.spec_polys()[player as int], assignment@) is Some,
        ensures
            payoff(self.spec_polys()[player as int], assignment@) == Some(r as int),
    {
        let factors = &self.polynomials[player];
        let ghost fs = self.spec_polys()[player as int];
        assert(fs.len() == factors@.len());
        if factors.len() == 0 {
            return 0;
        }
        let mut prod: i64 = 1;
        let mut k: usize = 0;
        while k < factors.len()
            invariant
                fs == self.spec_polys()[player as int],
                fs.len() == factors@.len(),
                forall|b: int| 0 <= b < fs.len() ==> #[trigger] fs[b] == factors@[b]@,
                fs.len() > 0,
                forall|b: int| 0 <= b < fs.len() ==> (#[trigger] fs[b]).len() > 0,
                product_prefix(fs, assignment@, fs.len() as int) is Some,
                k <= fs.len(),
                product_prefix(fs, assignment@, k as int) == Some(prod as int),
            decreases factors.len() - k,
        {
            proof { lemma_prefix_some(fs, assignment@, k as int + 1, fs.len() as int); }
            let v = factor_eval(&factors[k], assignment);
            prod = prod * v;
            k += 1;
        }
        prod
    }

    /// One variable per player: an index into its strategy set.
    pub fn dims(&self) -> (r: Vec<usize>)
        ensures
            r@.len() == self.spec_sets().len(),
            forall|i: int| 0 <= i < r@.len() ==> #[trigger] r@[i] == self.spec_sets()[i].len(),
    {
        let mut out: Vec<usize> = Vec::new();
        let mut i: usize = 0;
        while i < self.range_sets.len()
            invariant
                i <= self.range_sets@.len(),
                out@.len() == i,
                forall|j: int| 0 <= j < i ==> #[trigger] out@[j] == self.spec_sets()[j].len(),
            decreases self.range_sets.len() - i,
        {
            out.push(self.range_sets[i].len());
            i += 1;
        }
        out
    }

    /// Whether `config` picks a value in every player's set and no player
    /// gains by switching to another value of its own set.
    pub fn evaluate(&self, config: &[usize]) -> (r: Or)
        requires
            self.wf(),
            valid_choice(self.spec_sets(), config@) ==> payoffs_fit(self.spec_polys(), self.spec_sets(), config@),
        ensures
            r == Or(valid_choice(self.spec_sets(), config@) && is_equilibrium(self.spec_polys(), self.spec_sets(), config@)),
    {
        let n = self.polynomials.len();
        let ghost polys = self.spec_polys();
        let ghost sets = self.spec_sets();
        if config.len() != n {
            return Or(false);
        }
        let mut i: usize = 0;
        while i < n
            invariant
                self.wf(),
                n == polys.len(),
                polys == self.spec_polys(),
                sets == self.spec_sets(),
                config@.len() == n,
                i <= n,
                forall|j: int| 0 <= j < i ==> #[trigger] config@[j] < sets[j].len(),
            decreases n - i,
        {
            if config[i] >= self.range_sets[i].len() {
                assert(!valid_choice(sets, config@));
                return Or(false);
            }
            i += 1;
        }
        assert(valid_choice(sets, config@));
        let mut assignment: Vec<i64> = Vec::new();
        let mut j: usize = 0;
        while j < n
            invariant
                n == polys.len(),
                sets == self.spec_sets(),
                sets.len() == n,
                valid_choice(sets, config@),
                j <= n,
                assignment@.len() == j,
                forall|x: int| 0 <= x < j ==> #[trigger] assignment@[x] == sets[x][config@[x] as int],
            decreases n - j,
        {
            assignment.push(self.range_sets[j][config[j]]);
            j += 1;
        }
        let ghost y = profile(sets, config@);
        assert(assignment@ =~= y);
        let mut p: usize = 0;
        while p < n
            invariant
                self.wf(),
                n == polys.len(),
                polys == self.spec_polys(),
                sets == self.spec_sets(),
                sets.len() == n,
                valid_choice(sets, config@),
                payoffs_fit(polys, sets, config@),
                y == profile(sets, config@),
                assignment@ == y,
                p <= n,
                forall|a: int, k: int| 0 <= a < p && 0 <= k < sets[a].len() && sets[a][k] != y[a]
                    ==> (#[trigger] payoff(polys[a], y.update(a, sets[a][k]))).unwrap() <= payoff(polys[a], y).unwrap(),
            decreases n - p,
        {
            assert(y.update(p as int, sets[p as int][config@[p as int] as int]) =~= y);
            assert(payoff(polys[p as int], y.update(p as int, sets[p as int][config@[p as int] as int])) is Some);
            let current = self.eval_payoff(p, &assignment);
            let set = &self.range_sets[p];
            assert(set@ == sets[p as int]);
            let mut k: usize = 0;
            while k < set.len()
                invariant
                    self.wf(),
                    n == polys.len(),
                    polys == self.spec_polys(),
                    sets == self.spec_sets(),
                    payoffs_fit(polys, sets, config@),
                    p < n,
                    set@ == sets[p as int],
                    assignment@ == y,
                    y == profile(sets, config@),
                    y.len() == n,
                    payoff(polys[p as int], y) == Some(current as int),
                    k <= set@.len(),
                    forall|b: int| 0 <= b < k && set@[b] != y[p as int]
                        ==> (#[trigger] payoff(polys[p as int], y.update(p as int, sets[p as int][b]))).unwrap() <= current,
                decreases set.len() - k,
            {
                let alt = set[k];
                if alt != assignment[p] {
                    let mut alt_assignment = assignment.clone();
                    alt_assignment.set(p, alt);
                    assert(alt_assignment@ =~= y.update(p as int, sets[p as int][k as int]));
                    assert(payoff(polys[p as int], profile(sets, config@).update(p as int, sets[p as int][k as int])) is Some);
                    let alt_payoff = self.eval_payoff(p, &alt_assignment);
                    if alt_payoff > current {
                        assert(!is_equilibrium(polys, sets, config@)) by {
                            assert(sets[p as int][k as int] != y[p as int]);
                            assert(payoff(polys[p as int], y.update(p as int, sets[p as int][k as int])).unwrap() > payoff(polys[p as int], y).unwrap());
                        }
                        return Or(false);
                    }
                }
                k += 1;
            }
            p += 1;
        }
        Or(true)
    }
}

/// A longer prefix product that succeeds means every shorter one does.
proof fn lemma_prefix_some(fs: Seq<Seq<i64>>, y: Seq<i64>, k: int, n: int)
    requires
        0 <= k <= n,
        product_prefix(fs, y, n) is Some,
    ensures
        product_prefix(fs, y, k) is Some,
        k >= 1 ==> factor_value(fs[k - 1], y) is Some,
    decreases n - k,
{
    if k < n {
        lemma_prefix_some(fs, y, k + 1, n);
    }
}

/// The value of one affine factor.
fn factor_eval(coeffs: &Vec<i64>, y: &Vec<i64>) -> (r: i64)
    requires
        coeffs@.len() > 0,
        factor_value(coeffs@, y@) is Some,
    ensures
        factor_value(coeffs@, y@) == Some(r as int),
{
    let ghost t = terms(coeffs@, y@);
    let n: usize = if coeffs.len() == 0 { 0 } else if coeffs.len() - 1 <= y.len() { coeffs.len() - 1 } else { y.len() };
    assert(t.len() == n);
    let mut sum: i64 = 0;
    let mut j: usize = 0;
    assert(t.take(0) =~= Seq::<int>::empty());
    while j < n
        invariant
            t == terms(coeffs@, y@),
            t.len() == n,
            factor_value(coeffs@, y@) is Some,
            n <= coeffs@.len(),
            n <= y@.len(),
            coeffs@.len() > 0,
            n + 1 <= coeffs@.len(),
            j <= n,
            checked_fold(t.take(j as int), i64::MIN as int, i64::MAX as int) == Some(sum as int),
        decreases n - j,
    {
        proof {
            assert(fits64(t[j as int]));
            lemma_fold_push(t.take(j as int), t[j as int], i64::MIN as int, i64::MAX as int);
            assert(t.take(j as int + 1) =~= t.take(j as int).push(t[j as int]));
            lemma_take_fold_some(t, j as int + 1);
        }
        let prod = coeffs[j + 1] * y[j];
        sum = sum + prod;
        j += 1;
    }
    assert(t.take(n as int) =~= t);
    coeffs[0] + sum
}

/// When a checked fold succeeds, so does the fold of every prefix.
proof fn lemma_take_fold_some(t: Seq<int>, k: int)
    requires
        0 <= k <= t.len(),
        checked_fold(t, i64::MIN as int, i64::MAX as int) is Some,
    ensures
        checked_fold(t.take(k), i64::MIN as int, i64::MAX as int) is Some,
    decreases t.len() - k,
{
    if k < t.len() {
        lemma_take_fold_some(t, k + 1);
        lemma_fold_push(t.take(k), t[k], i64::MIN as int, i64::MAX as int);
        assert(t.take(k + 1) =~= t.take(k).push(t[k]));
    } else {
        assert(t.take(k) =~= t);
    }
}

} // verus!
