//! Exact integer linear algebra: dot products, the kernel of a system of
//! rows, fraction-free row reduction and back substitution.
//!
//! A rational solution `x` of `A x = b` is carried as integer numerators with
//! one common denominator `d != 0`, that is, as the integer kernel vector
//! `(x_num, -d)` of the augmented rows `[A | b]`.
use vstd::prelude::*;
use crate::topology::copy_vec;
use crate::big_elim::big_nonsingular_nonneg_solution;

verus! {

/// `r[0] * y[0] + ... + r[n - 1] * y[n - 1]`.
pub open spec fn dot_n(r: Seq<int>, y: Seq<int>, n: nat) -> int
    decreases n,
{
    if n == 0 {
        0
    } else {
        dot_n(r, y, (n - 1) as nat) + r[n - 1] * y[n - 1]
    }
}

/// The dot product of a row with a vector, over the row's length.
pub open spec fn dot(r: Seq<int>, y: Seq<int>) -> int {
    dot_n(r, y, r.len())
}

/// `y` is orthogonal to every row: it lies in the kernel of the system.
pub open spec fn kills(rows: Seq<Seq<int>>, y: Seq<int>) -> bool {
    forall|i: int| 0 <= i < rows.len() ==> #[trigger] dot(rows[i], y) == 0
}

/// Every entry is zero.
pub open spec fn all_zero(y: Seq<int>) -> bool {
    forall|j: int| 0 <= j < y.len() ==> #[trigger] y[j] == 0
}

/// The rows have `w` entries each.
pub open spec fn width(rows: Seq<Seq<int>>, w: nat) -> bool {
    forall|i: int| 0 <= i < rows.len() ==> (#[trigger] rows[i]).len() == w
}

/// Two systems of the same width `w` have the same kernel.
pub open spec fn same_kernel(a: Seq<Seq<int>>, u: Seq<Seq<int>>, w: nat) -> bool {
    forall|y: Seq<int>|
        #![trigger kills(a, y)]
        #![trigger kills(u, y)]
        y.len() == w ==> (kills(a, y) <==> kills(u, y))
}

/// The square system of `n` columns is nonsingular: only the zero vector
/// lies in its kernel.
pub open spec fn nonsingular(a: Seq<Seq<int>>, n: nat) -> bool {
    forall|y: Seq<int>| #![trigger kills(a, y)] y.len() == n && kills(a, y) ==> all_zero(y)
}

/// Row `i` of `a` followed by entry `i` of `b`.
pub open spec fn augmented(a: Seq<Seq<int>>, b: Seq<int>) -> Seq<Seq<int>> {
    Seq::new(a.len(), |i: int| a[i].push(b[i]))
}

/// `A x = d b` holds row by row.
pub open spec fn solves(a: Seq<Seq<int>>, b: Seq<int>, x: Seq<int>, d: int) -> bool {
    forall|i: int| 0 <= i < a.len() ==> #[trigger] dot(a[i], x) == d * b[i]
}

/// Some nonnegative rational vector solves `A x = b`: there are integer
/// numerators `x >= 0` and a denominator `d > 0` with `A x = d b`.
pub open spec fn has_nonneg_solution(a: Seq<Seq<int>>, b: Seq<int>, n: nat) -> bool {
    exists|x: Seq<int>, d: int|
        #![trigger solves(a, b, x, d)]
        d > 0 && x.len() == n && (forall|j: int| 0 <= j < n ==> #[trigger] x[j] >= 0)
            && solves(a, b, x, d)
}

/// Entries below the diagonal of the first `k` columns are zero, and the
/// first `k` diagonal entries are not.
pub open spec fn triangular_upto(u: Seq<Seq<int>>, k: int) -> bool {
    &&& forall|i: int, j: int| 0 <= j < k && j < i < u.len() ==> #[trigger] u[i][j] == 0
    &&& forall|j: int| 0 <= j < k ==> #[trigger] u[j][j] != 0
}

/// Dot products only look at the first `n` entries of both sides.
pub proof fn lemma_dot_n_ext(r1: Seq<int>, r2: Seq<int>, y1: Seq<int>, y2: Seq<int>, n: nat)
    requires
        forall|j: int| 0 <= j < n ==> r1[j] == r2[j],
        forall|j: int| 0 <= j < n ==> y1[j] == y2[j],
    ensures
        dot_n(r1, y1, n) == dot_n(r2, y2, n),
    decreases n,
{
    if n > 0 {
        lemma_dot_n_ext(r1, r2, y1, y2, (n - 1) as nat);
    }
}

/// A dot product is linear in the row: `(a r - c s) . y = a (r . y) - c (s . y)`.
pub proof fn lemma_dot_n_combo(t: Seq<int>, r: Seq<int>, s: Seq<int>, y: Seq<int>, a: int, c: int, n: nat)
    requires
        forall|j: int| 0 <= j < n ==> #[trigger] t[j] == a * r[j] - c * s[j],
    ensures
        dot_n(t, y, n) == a * dot_n(r, y, n) - c * dot_n(s, y, n),
    decreases n,
{
    if n > 0 {
        let k = (n - 1) as nat;
        lemma_dot_n_combo(t, r, s, y, a, c, k);
        let (tk, rk, sk, yk) = (t[k as int], r[k as int], s[k as int], y[k as int]);
        let (dt, dr, ds) = (dot_n(t, y, k), dot_n(r, y, k), dot_n(s, y, k));
        assert(dt + tk * yk == a * (dr + rk * yk) - c * (ds + sk * yk)) by (nonlinear_arith)
            requires
                tk == a * rk - c * sk,
                dt == a * dr - c * ds,
        ;
    }
}

/// A dot product is linear in the vector: `r . (g y) = g (r . y)`.
pub proof fn lemma_dot_n_scale_vec(r: Seq<int>, y: Seq<int>, z: Seq<int>, g: int, n: nat)
    requires
        forall|j: int| 0 <= j < n ==> #[trigger] z[j] == g * y[j],
    ensures
        dot_n(r, z, n) == g * dot_n(r, y, n),
    decreases n,
{
    if n > 0 {
        let k = (n - 1) as nat;
        lemma_dot_n_scale_vec(r, y, z, g, k);
        let (rk, yk, zk) = (r[k as int], y[k as int], z[k as int]);
        let (dz, dy) = (dot_n(r, z, k), dot_n(r, y, k));
        assert(dz + rk * zk == g * (dy + rk * yk)) by (nonlinear_arith)
            requires
                zk == g * yk,
                dz == g * dy,
        ;
    }
}

/// Entries where the row or the vector is zero do not count.
pub proof fn lemma_dot_n_zero_tail(r: Seq<int>, y: Seq<int>, k: nat, n: nat)
    requires
        k <= n,
        forall|j: int| k <= j < n ==> r[j] == 0 || y[j] == 0,
    ensures
        dot_n(r, y, n) == dot_n(r, y, k),
    decreases n,
{
    if n > k {
        lemma_dot_n_zero_tail(r, y, k, (n - 1) as nat);
        let j = n - 1;
        assert(r[j] == 0 || y[j] == 0);
        assert(r[j] * y[j] == 0) by (nonlinear_arith)
            requires
                r[j] == 0 || y[j] == 0,
        ;
    }
}

/// A product with a nonzero factor is zero only if the other factor is.
pub proof fn lemma_mul_zero(a: int, x: int)
    requires
        a != 0,
        a * x == 0,
    ensures
        x == 0,
{
    assert(x == 0) by (nonlinear_arith)
        requires
            a != 0,
            a * x == 0,
    ;
}


/// Changing one entry of the vector changes the dot product by that
/// entry's row coefficient times the change.
pub proof fn lemma_dot_n_update(r: Seq<int>, y: Seq<int>, i: int, v: int, n: nat)
    requires
        0 <= i < n,
        n <= y.len(),
    ensures
        dot_n(r, y.update(i, v), n) == dot_n(r, y, n) + r[i] * (v - y[i]),
    decreases n,
{
    let k = (n - 1) as nat;
    let z = y.update(i, v);
    if k as int == i {
        lemma_dot_n_ext(r, r, z, y, k);
        let (ri, yi) = (r[i], y[i]);
        assert(ri * v == ri * yi + ri * (v - yi)) by (nonlinear_arith);
    } else {
        lemma_dot_n_update(r, y, i, v, k);
    }
}

/// A dot product is linear in the vector: `r . (p y - q z) = p (r . y) - q (r . z)`.
pub proof fn lemma_dot_n_vec_combo(r: Seq<int>, t: Seq<int>, y: Seq<int>, z: Seq<int>, p: int, q: int, n: nat)
    requires
        forall|j: int| 0 <= j < n ==> #[trigger] t[j] == p * y[j] - q * z[j],
    ensures
        dot_n(r, t, n) == p * dot_n(r, y, n) - q * dot_n(r, z, n),
    decreases n,
{
    if n > 0 {
        let k = (n - 1) as nat;
        lemma_dot_n_vec_combo(r, t, y, z, p, q, k);
        let (rk, tk, yk, zk) = (r[k as int], t[k as int], y[k as int], z[k as int]);
        let (dt, dy, dz) = (dot_n(r, t, k), dot_n(r, y, k), dot_n(r, z, k));
        assert(dt + rk * tk == p * (dy + rk * yk) - q * (dz + rk * zk)) by (nonlinear_arith)
            requires
                tk == p * yk - q * zk,
                dt == p * dy - q * dz,
        ;
    }
}

/// Replacing row `i` by `s`, where `g s = piv u[i] - c u[k]` with `g` and
/// `piv` nonzero and `k != i`, keeps the kernel.
pub proof fn lemma_replace_row(u: Seq<Seq<int>>, i: int, k: int, s: Seq<int>, g: int, piv: int, c: int, w: nat)
    requires
        width(u, w),
        s.len() == w,
        0 <= i < u.len(),
        0 <= k < u.len(),
        i != k,
        piv != 0,
        g != 0,
        forall|j: int| 0 <= j < w ==> #[trigger] (g * s[j]) == piv * u[i][j] - c * u[k][j],
    ensures
        forall|y: Seq<int>| #![trigger kills(u.update(i, s), y)] #![trigger kills(u, y)]
            y.len() == w ==> (kills(u, y) <==> kills(u.update(i, s), y)),
{
    let v = u.update(i, s);
    assert forall|y: Seq<int>| #![trigger kills(v, y)] #![trigger kills(u, y)]
        y.len() == w implies (kills(u, y) <==> kills(v, y)) by {
        let t = Seq::new(w, |j: int| g * s[j]);
        lemma_dot_n_combo(t, s, s, y, g, 0, w);
        assert forall|j: int| 0 <= j < w implies #[trigger] t[j] == piv * u[i][j] - c * u[k][j] by {
            assert(g * s[j] == piv * u[i][j] - c * u[k][j]);
        }
        lemma_dot_n_combo(t, u[i], u[k], y, piv, c, w);
        let (ds, di, dk) = (dot(s, y), dot(u[i], y), dot(u[k], y));
        assert(dot_n(t, y, w) == g * ds - 0 * ds);
        assert(g * ds == piv * di - c * dk) by (nonlinear_arith)
            requires
                dot_n(t, y, w) == g * ds - 0 * ds,
                dot_n(t, y, w) == piv * di - c * dk,
        ;
        if kills(u, y) {
            assert(dot(u[i], y) == 0 && dot(u[k], y) == 0);
            assert(piv * di - c * dk == 0) by (nonlinear_arith)
                requires
                    di == 0,
                    dk == 0,
            ;
            lemma_mul_zero(g, ds);
            assert forall|i2: int| 0 <= i2 < v.len() implies #[trigger] dot(v[i2], y) == 0 by {
                if i2 != i {
                    assert(v[i2] == u[i2]);
                }
            }
        }
        if kills(v, y) {
            assert(dot(v[i], y) == 0 && dot(v[k], y) == 0);
            assert(v[k] == u[k]);
            assert(piv * di == 0) by (nonlinear_arith)
                requires
                    g * ds == piv * di - c * dk,
                    ds == 0,
                    dk == 0,
            ;
            lemma_mul_zero(piv, di);
            assert forall|i2: int| 0 <= i2 < u.len() implies #[trigger] dot(u[i2], y) == 0 by {
                if i2 != i {
                    assert(v[i2] == u[i2]);
                }
            }
        }
    }
}

/// Exchanging two rows keeps the kernel.
pub proof fn lemma_swap_rows(u: Seq<Seq<int>>, k: int, p: int)
    requires
        0 <= k < u.len(),
        0 <= p < u.len(),
    ensures
        forall|y: Seq<int>| #![trigger kills(u.update(k, u[p]).update(p, u[k]), y)] #![trigger kills(u, y)]
            kills(u, y) <==> kills(u.update(k, u[p]).update(p, u[k]), y),
{
    let v = u.update(k, u[p]).update(p, u[k]);
    assert forall|y: Seq<int>| #![trigger kills(v, y)] #![trigger kills(u, y)]
        kills(u, y) <==> kills(v, y) by {
        if kills(u, y) {
            assert forall|i: int| 0 <= i < v.len() implies #[trigger] dot(v[i], y) == 0 by {
                if i == p {
                    assert(dot(u[k], y) == 0);
                } else if i == k {
                    assert(dot(u[p], y) == 0);
                } else {
                    assert(dot(u[i], y) == 0);
                }
            }
        }
        if kills(v, y) {
            assert forall|i: int| 0 <= i < u.len() implies #[trigger] dot(u[i], y) == 0 by {
                if i == p {
                    assert(dot(v[k], y) == 0);
                } else if i == k {
                    assert(dot(v[p], y) == 0);
                } else {
                    assert(dot(v[i], y) == 0);
                }
            }
        }
    }
}

/// The entries of a row as integers.
pub open spec fn int_row(r: Seq<i128>) -> Seq<int> {
    Seq::new(r.len(), |j: int| r[j] as int)
}

/// The rows as integers.
pub open spec fn int_rows(u: Seq<Vec<i128>>) -> Seq<Seq<int>> {
    Seq::new(u.len(), |i: int| int_row(u[i]@))
}

/// The value fits in `i128`.
pub open spec fn fits128(v: int) -> bool {
    i128::MIN <= v <= i128::MAX
}

/// Entry `j` of `a p - c q` is computed within `i128`: both products and
/// their difference fit.
pub open spec fn combine_entry_fits(p: Seq<i128>, q: Seq<i128>, a: i128, c: i128, j: int) -> bool {
    &&& fits128(a * p[j])
    &&& fits128(c * q[j])
    &&& fits128(a * p[j] - c * q[j])
}

/// `a p - c q`, entry by entry; `None` exactly when, at some entry, a
/// product or the difference leaves `i128`.
fn combine(p: &Vec<i128>, q: &Vec<i128>, a: i128, c: i128) -> (r: Option<Vec<i128>>)
    requires
        p.len() == q.len(),
    ensures
        r is None <==> exists|j: int| 0 <= j < p.len() && !#[trigger] combine_entry_fits(p@, q@, a, c, j),
        r matches Some(t) ==> t.len() == p.len() && forall|j: int|
            0 <= j < p.len() ==> #[trigger] t@[j] == a * p@[j] - c * q@[j],
{
    let mut t: Vec<i128> = Vec::new();
    let mut j: usize = 0;
    while j < p.len()
        invariant
            j <= p.len(),
            p.len() == q.len(),
            t.len() == j,
            forall|k: int| 0 <= k < j ==> #[trigger] t@[k] == a * p@[k] - c * q@[k],
            forall|k: int| 0 <= k < j ==> #[trigger] combine_entry_fits(p@, q@, a, c, k),
        decreases p.len() - j,
    {
        let x = match a.checked_mul(p[j]) {
            Some(v) => v,
            None => {
                assert(!combine_entry_fits(p@, q@, a, c, j as int));
                return None;
            },
        };
        let y = match c.checked_mul(q[j]) {
            Some(v) => v,
            None => {
                assert(!combine_entry_fits(p@, q@, a, c, j as int));
                return None;
            },
        };
        let z = match x.checked_sub(y) {
            Some(v) => v,
            None => {
                assert(!combine_entry_fits(p@, q@, a, c, j as int));
                return None;
            },
        };
        t.push(z);
        j += 1;
    }
    Some(t)
}

/// The greatest common divisor of two nonnegative integers by Euclid's
/// rule: `gcd(a, 0) = a`, `gcd(a, b) = gcd(b, a mod b)`.
pub open spec fn euclid_gcd(a: int, b: int) -> int
    decreases b,
{
    if b <= 0 {
        a
    } else {
        euclid_gcd(b, a % b)
    }
}

/// Greatest common divisor of two nonnegative values, by Euclid's algorithm.
fn gcd_i128(a: i128, b: i128) -> (g: i128)
    requires
        a >= 0,
        b >= 0,
    ensures
        g >= 0,
        g == euclid_gcd(a as int, b as int),
{
    let mut x = a;
    let mut y = b;
    while y != 0
        invariant
            x >= 0,
            y >= 0,
            euclid_gcd(x as int, y as int) == euclid_gcd(a as int, b as int),
        decreases y,
    {
        let t = x % y;
        x = y;
        y = t;
    }
    x
}

/// Divides a row by a common factor `g > 0` of its entries, found by
/// Euclid's algorithm and confirmed entry by entry (`g = 1` when none is).
fn shrink_row(t: Vec<i128>) -> (r: (Vec<i128>, i128))
    ensures
        r.1 > 0,
        r.0.len() == t.len(),
        forall|j: int| 0 <= j < t.len() ==> #[trigger] t@[j] == r.1 * r.0@[j],
{
    let mut g: i128 = 0;
    let mut j: usize = 0;
    while j < t.len()
        invariant
            j <= t.len(),
            g >= 0,
        decreases t.len() - j,
    {
        if t[j] == i128::MIN {
            return (t, 1);
        }
        let a: i128 = if t[j] < 0 { -t[j] } else { t[j] };
        g = gcd_i128(g, a);
        j += 1;
    }
    if g <= 1 {
        return (t, 1);
    }
    let mut s: Vec<i128> = Vec::new();
    j = 0;
    while j < t.len()
        invariant
            j <= t.len(),
            g > 1,
            s.len() == j,
            forall|k: int| 0 <= k < j ==> #[trigger] t@[k] == g * s@[k],
        decreases t.len() - j,
    {
        let e = t[j];
        if e == i128::MIN {
            return (t, 1);
        }
        let a: i128 = if e < 0 { -e } else { e };
        if a % g != 0 {
            return (t, 1);
        }
        let q = a / g;
        assert(q * g == a) by (nonlinear_arith)
            requires
                a % g == 0,
                q == a / g,
                g > 1,
                a >= 0,
        ;
        assert(0 <= q <= a) by (nonlinear_arith)
            requires
                q == a / g,
                g > 1,
                a >= 0,
        ;
        let qs: i128 = if e < 0 { -q } else { q };
        assert(e == g * qs) by (nonlinear_arith)
            requires
                q * g == a,
                e < 0 ==> a == -e,
                e >= 0 ==> a == e,
                e < 0 ==> qs == -q,
                e >= 0 ==> qs == q,
        ;
        s.push(qs);
        j += 1;
    }
    (s, g)
}

/// Kernel equality is transitive.
pub proof fn lemma_same_kernel_step(a: Seq<Seq<int>>, u: Seq<Seq<int>>, v: Seq<Seq<int>>, w: nat)
    requires
        same_kernel(a, u, w),
        forall|y: Seq<int>| #![trigger kills(v, y)] #![trigger kills(u, y)]
            y.len() == w ==> (kills(u, y) <==> kills(v, y)),
    ensures
        same_kernel(a, v, w),
{
    assert forall|y: Seq<int>| #![trigger kills(a, y)] #![trigger kills(v, y)]
        y.len() == w implies (kills(a, y) <==> kills(v, y)) by {
        assert(kills(a, y) <==> kills(u, y));
        assert(kills(u, y) <==> kills(v, y));
    }
}

/// Eliminating column `k` from row `i` with pivot row `k` of the first
/// `w` columns overflows: some entry `u[k][k] u[i][j] - u[i][k] u[k][j]`, or
/// one of its two products, leaves `i128`.
pub open spec fn step_overflows(rows: Seq<Vec<i128>>, k: int, i: int, w: int) -> bool {
    exists|j: int| 0 <= j < w && !#[trigger] combine_entry_fits(rows[i]@, rows[k]@, rows[k]@[k], rows[i]@[k], j)
}

/// How the reduction of the square part of an augmented system ended.
#[derive(Debug, Clone, Copy, PartialEq, Eq)]
pub enum Reduction {
    /// The first `n` columns are upper triangular with a nonzero diagonal.
    Triangular,
    /// Column `k` has no nonzero entry at or below row `k`, and the first
    /// `k` columns are upper triangular with a nonzero diagonal.
    NoPivot(usize),
    /// An intermediate value left `i128`.
    Overflow,
}

/// Brings the first `n` columns of the `n` rows of width `n + 1` to upper
/// triangular form by row exchanges, fraction-free eliminations and
/// divisions of rows by common factors, none of which changes the kernel.
pub fn reduce(u: &mut Vec<Vec<i128>>, n: usize) -> (r: Reduction)
    requires
        old(u).len() == n,
        width(int_rows(old(u)@), (n + 1) as nat),
    ensures
        final(u).len() == n,
        width(int_rows(final(u)@), (n + 1) as nat),
        same_kernel(int_rows(old(u)@), int_rows(final(u)@), (n + 1) as nat),
        r is Triangular ==> triangular_upto(int_rows(final(u)@), n as int),
        r matches Reduction::NoPivot(k) ==> k < n && triangular_upto(int_rows(final(u)@), k as int)
            && forall|i: int| k <= i < n ==> #[trigger] int_rows(final(u)@)[i][k as int] == 0,
        r is Overflow ==> exists|k: int, i: int| 0 <= k < i < n && #[trigger] step_overflows(final(u)@, k, i, n + 1)
            && triangular_upto(int_rows(final(u)@), k) && int_rows(final(u)@)[k][k] != 0
            && int_rows(final(u)@)[i][k] != 0,
{
    let ghost a0 = int_rows(u@);
    let ghost w: nat = (n + 1) as nat;
    assert(same_kernel(a0, int_rows(u@), w));
    let mut k: usize = 0;
    while k < n
        invariant
            u.len() == n,
            k <= n,
            w == n + 1,
            a0 == int_rows(old(u)@),
            width(int_rows(u@), w),
            same_kernel(a0, int_rows(u@), w),
            triangular_upto(int_rows(u@), k as int),
        decreases n - k,
    {
        assert forall|i: int| 0 <= i < n implies #[trigger] u@[i]@.len() == w by {
            assert(int_rows(u@)[i].len() == w);
        }
        let mut p: usize = k;
        while p < n && u[p][k] == 0
            invariant
                k <= p <= n,
                k < n,
                u.len() == n,
                w == n + 1,
                width(int_rows(u@), w),
                forall|i: int| 0 <= i < n ==> #[trigger] u@[i]@.len() == w,
                forall|i: int| k <= i < p ==> #[trigger] int_rows(u@)[i][k as int] == 0,
            decreases n - p,
        {
            assert(int_rows(u@)[p as int].len() == w);
            p += 1;
        }
        if p == n {
            return Reduction::NoPivot(k);
        }
        if p != k {
            let ghost before = int_rows(u@);
            let rk = copy_vec(&u[k]);
            let rp = copy_vec(&u[p]);
            u.set(k, rp);
            u.set(p, rk);
            proof {
                assert(int_rows(u@) =~= before.update(k as int, before[p as int]).update(
                    p as int,
                    before[k as int],
                ));
                lemma_swap_rows(before, k as int, p as int);
                lemma_same_kernel_step(a0, before, int_rows(u@), w);
            }
        }
        let ghost top = int_rows(u@);
        assert(top[k as int][k as int] != 0);
        let mut i: usize = k + 1;
        while i < n
            invariant
                k < n,
                k + 1 <= i <= n,
                u.len() == n,
                w == n + 1,
                a0 == int_rows(old(u)@),
                width(int_rows(u@), w),
                same_kernel(a0, int_rows(u@), w),
                triangular_upto(int_rows(u@), k as int),
                forall|r: int| 0 <= r <= k ==> #[trigger] int_rows(u@)[r] == top[r],
                top[k as int][k as int] != 0,
                forall|r: int| k < r < i ==> #[trigger] int_rows(u@)[r][k as int] == 0,
            decreases n - i,
        {
            assert(int_rows(u@)[i as int].len() == w);
            assert(int_rows(u@)[k as int] == top[k as int]);
            if u[i][k] != 0 {
                let piv = u[k][k];
                let c = u[i][k];
                let ghost cur = int_rows(u@);
                match combine(&u[i], &u[k], piv, c) {
                    None => {
                        proof {
                            let j = choose|j: int| 0 <= j < u@[i as int]@.len()
                                && !#[trigger] combine_entry_fits(u@[i as int]@, u@[k as int]@, piv, c, j);
                            assert(int_rows(u@)[i as int].len() == w);
                            assert(step_overflows(u@, k as int, i as int, n + 1));
                            assert(int_rows(u@)[k as int][k as int] != 0);
                        }
                        return Reduction::Overflow;
                    },
                    Some(t) => {
                        let (s, g) = shrink_row(t);
                        proof {
                            let si = int_row(s@);
                            assert forall|j: int| 0 <= j < w implies #[trigger] (g * si[j]) == piv * cur[i as int][j]
                                - c * cur[k as int][j] by {
                                assert(t@[j] == g * s@[j]);
                                assert(t@[j] == piv * u@[i as int]@[j] - c * u@[k as int]@[j]);
                            }
                            lemma_replace_row(cur, i as int, k as int, si, g as int, piv as int, c as int, w);
                            lemma_same_kernel_step(a0, cur, cur.update(i as int, si), w);
                            assert(g * si[k as int] == 0) by (nonlinear_arith)
                                requires
                                    g * si[k as int] == piv * c - c * piv,
                            ;
                            lemma_mul_zero(g as int, si[k as int]);
                            assert forall|j: int| 0 <= j < k implies #[trigger] si[j] == 0 by {
                                assert(cur[i as int][j] == 0 && cur[k as int][j] == 0);
                                assert(g * si[j] == 0) by (nonlinear_arith)
                                    requires
                                        g * si[j] == piv * cur[i as int][j] - c * cur[k as int][j],
                                        cur[i as int][j] == 0,
                                        cur[k as int][j] == 0,
                                ;
                                lemma_mul_zero(g as int, si[j]);
                            }
                        }
                        u.set(i, s);
                        proof {
                            assert(int_rows(u@) =~= cur.update(i as int, int_row(s@)));
                        }
                    }
                }
            }
            i += 1;
        }
        proof {
            let cur = int_rows(u@);
            assert forall|i2: int, j: int| 0 <= j < k + 1 && j < i2 < cur.len() implies #[trigger] cur[i2][j] == 0 by {
                if j < k {
                    assert(cur[i2][j] == 0);
                }
            }
            assert forall|j: int| 0 <= j < k + 1 implies #[trigger] cur[j][j] != 0 by {
                assert(cur[j] == top[j]);
            }
        }
        k += 1;
    }
    Reduction::Triangular
}

/// The dot product of the first `k` entries, summed left to right within
/// `i128`: `None` once a product or a partial sum leaves `i128`.
pub open spec fn dot_fold(r: Seq<int>, x: Seq<int>, k: nat) -> Option<int>
    decreases k,
{
    if k == 0 {
        Some(0)
    } else {
        match dot_fold(r, x, (k - 1) as nat) {
            None => None,
            Some(s) => {
                let p = r[k - 1] * x[k - 1];
                if fits128(p) && fits128(s + p) { Some(s + p) } else { None }
            },
        }
    }
}

/// Once the running sum leaves `i128` it stays failed.
proof fn lemma_dot_fold_none(r: Seq<int>, x: Seq<int>, a: nat, b: nat)
    requires
        a <= b,
        dot_fold(r, x, a) is None,
    ensures
        dot_fold(r, x, b) is None,
    decreases b - a,
{
    if a < b {
        lemma_dot_fold_none(r, x, a, (b - 1) as nat);
    }
}

/// The first `n` entries of a row dotted with a vector, summed left to
/// right; `None` exactly when a product or a partial sum leaves `i128`.
fn dot_upto(r: &Vec<i128>, x: &Vec<i128>, n: usize) -> (v: Option<i128>)
    requires
        n <= r.len(),
        n <= x.len(),
    ensures
        v is None <==> dot_fold(int_row(r@), int_row(x@), n as nat) is None,
        v matches Some(s) ==> s == dot_n(int_row(r@), int_row(x@), n as nat),
{
    let mut acc: i128 = 0;
    let mut j: usize = 0;
    while j < n
        invariant
            j <= n,
            n <= r.len(),
            n <= x.len(),
            acc == dot_n(int_row(r@), int_row(x@), j as nat),
            dot_fold(int_row(r@), int_row(x@), j as nat) == Some(acc as int),
        decreases n - j,
    {
        let p = match r[j].checked_mul(x[j]) {
            Some(v) => v,
            None => {
                proof { lemma_dot_fold_none(int_row(r@), int_row(x@), (j + 1) as nat, n as nat); }
                return None;
            },
        };
        acc = match acc.checked_add(p) {
            Some(v) => v,
            None => {
                proof { lemma_dot_fold_none(int_row(r@), int_row(x@), (j + 1) as nat, n as nat); }
                return None;
            },
        };
        j += 1;
    }
    Some(acc)
}

/// The denominator after back substitution has handled rows `i..t`: the
/// product of their diagonal entries.
pub open spec fn bs_den(uu: Seq<Seq<int>>, t: int, i: int) -> int
    decreases t - i,
{
    if i >= t {
        1
    } else {
        bs_den(uu, t, i + 1) * uu[i][i]
    }
}

/// The numerators after back substitution has handled rows `i..t`: from
/// those of rows `i + 1..t` and their denominator `d`, entries past `i` are
/// multiplied by the pivot `u[i][i]`, entry `i` becomes
/// `d rhs[i] - u[i] . x`, and entries before `i` stay 0.
pub open spec fn bs_num(uu: Seq<Seq<int>>, rr: Seq<int>, t: int, i: int) -> Seq<int>
    decreases t - i,
{
    if i >= t {
        Seq::new(t as nat, |k: int| 0int)
    } else {
        let xp = bs_num(uu, rr, t, i + 1);
        let d = bs_den(uu, t, i + 1);
        Seq::new(t as nat, |k: int|
            if k > i { xp[k] * uu[i][i] } else if k == i { d * rr[i] - dot_n(uu[i], xp, t as nat) } else { 0 })
    }
}

/// Every value computed while handling row `i` fits in `i128`: the running
/// dot product, `d rhs[i]`, the new entry, the scaled entries and the new
/// denominator.
pub open spec fn bs_step_fits(uu: Seq<Seq<int>>, rr: Seq<int>, t: int, i: int) -> bool {
    let xp = bs_num(uu, rr, t, i + 1);
    let d = bs_den(uu, t, i + 1);
    &&& dot_fold(uu[i], xp, t as nat) is Some
    &&& fits128(d * rr[i])
    &&& fits128(d * rr[i] - dot_n(uu[i], xp, t as nat))
    &&& forall|k: int| i < k < t ==> #[trigger] fits128(xp[k] * uu[i][i])
    &&& fits128(d * uu[i][i])
}

/// Every value computed while handling rows `i..t` fits in `i128`.
pub open spec fn bs_fits(uu: Seq<Seq<int>>, rr: Seq<int>, t: int, i: int) -> bool
    decreases t - i,
{
    if i >= t {
        true
    } else {
        bs_step_fits(uu, rr, t, i) && bs_fits(uu, rr, t, i + 1)
    }
}

/// Back substitution over all rows succeeds within `i128`, including the
/// final change of sign that makes the denominator positive.
pub open spec fn bs_succeeds(uu: Seq<Seq<int>>, rr: Seq<int>, t: int) -> bool {
    let d = bs_den(uu, t, 0);
    let x = bs_num(uu, rr, t, 0);
    &&& bs_fits(uu, rr, t, 0)
    &&& d < 0 ==> d != i128::MIN && forall|k: int| 0 <= k < t ==> #[trigger] x[k] != i128::MIN
}

/// Handling all rows fits when handling rows `0..t` does, for every `i`.
proof fn lemma_bs_fits_down(uu: Seq<Seq<int>>, rr: Seq<int>, t: int, i: int)
    requires
        0 <= i,
        bs_fits(uu, rr, t, 0),
    ensures
        bs_fits(uu, rr, t, i),
    decreases i,
{
    if i > 0 {
        lemma_bs_fits_down(uu, rr, t, i - 1);
    }
}

/// A step of back substitution that does not fit makes the whole fail.
proof fn lemma_bs_step_fails(uu: Seq<Seq<int>>, rr: Seq<int>, t: int, i: int)
    requires
        0 <= i < t,
        !bs_step_fits(uu, rr, t, i),
    ensures
        !bs_succeeds(uu, rr, t),
{
    if bs_fits(uu, rr, t, 0) {
        lemma_bs_fits_down(uu, rr, t, i);
    }
}

/// Solves the upper triangular system formed by the first `t` columns of
/// the first `t` rows of `u` (nonzero diagonal) against `rhs`: returns
/// integer numerators `x` and a denominator `d > 0` with
/// `u[i][0..t] . x = d * rhs[i]` for every `i < t`; `None` when an
/// intermediate value leaves `i128`.
pub fn back_substitute(u: &Vec<Vec<i128>>, t: usize, rhs: &Vec<i128>) -> (r: Option<(Vec<i128>, i128)>)
    requires
        t <= u.len(),
        rhs.len() == t,
        forall|i: int| 0 <= i < t ==> (#[trigger] u@[i])@.len() >= t,
        triangular_upto(int_rows(u@), t as int),
    ensures
        r is Some <==> bs_succeeds(int_rows(u@), int_row(rhs@), t as int),
        r matches Some((x, d)) ==> {
            let d0 = bs_den(int_rows(u@), t as int, 0);
            let x0 = bs_num(int_rows(u@), int_row(rhs@), t as int, 0);
            &&& d0 >= 0 ==> d == d0 && int_row(x@) == x0
            &&& d0 < 0 ==> d == -d0 && int_row(x@) == Seq::new(t as nat, |k: int| -x0[k])
        },
        r matches Some((x, d)) ==> x.len() == t && d > 0 && forall|i: int|
            0 <= i < t ==> #[trigger] dot_n(int_rows(u@)[i], int_row(x@), t as nat) == d * rhs@[i],
{
    let ghost uu = int_rows(u@);
    let ghost rr = int_row(rhs@);
    let mut x: Vec<i128> = Vec::new();
    let mut j: usize = 0;
    while j < t
        invariant
            j <= t,
            x.len() == j,
            forall|k: int| 0 <= k < j ==> #[trigger] x@[k] == 0,
        decreases t - j,
    {
        x.push(0);
        j += 1;
    }
    let mut d: i128 = 1;
    let mut i: usize = t;
    assert(int_row(x@) =~= bs_num(uu, rr, t as int, t as int));
    while i > 0
        invariant
            i <= t,
            t <= u.len(),
            rhs.len() == t,
            uu == int_rows(u@),
            rr == int_row(rhs@),
            int_row(x@) == bs_num(uu, rr, t as int, i as int),
            d == bs_den(uu, t as int, i as int),
            bs_fits(uu, rr, t as int, i as int),
            forall|k: int| 0 <= k < t ==> (#[trigger] u@[k])@.len() >= t,
            triangular_upto(uu, t as int),
            x.len() == t,
            d != 0,
            forall|k: int| 0 <= k < i ==> #[trigger] x@[k] == 0,
            forall|r: int| i <= r < t ==> #[trigger] dot_n(uu[r], int_row(x@), t as nat) == d * rhs@[r],
        decreases i,
    {
        i -= 1;
        let ghost x0 = x@;
        let ghost d0 = d as int;
        assert(uu[i as int][i as int] != 0);
        let piv = u[i][i];
        assert(uu[i as int] == int_row(u@[i as int]@));
        let sum = match dot_upto(&u[i], &x, t) {
            Some(v) => v,
            None => {
                proof { lemma_bs_step_fails(uu, rr, t as int, i as int); }
                return None;
            },
        };
        let rd = match d.checked_mul(rhs[i]) {
            Some(v) => v,
            None => {
                proof { lemma_bs_step_fails(uu, rr, t as int, i as int); }
                return None;
            },
        };
        let s = match rd.checked_sub(sum) {
            Some(v) => v,
            None => {
                proof { lemma_bs_step_fails(uu, rr, t as int, i as int); }
                return None;
            },
        };
        let mut j: usize = i + 1;
        while j < t
            invariant
                i < j <= t,
                x.len() == t,
                x0.len() == t,
                forall|k: int| i < k < j ==> #[trigger] x@[k] == piv * x0[k],
                forall|k: int| 0 <= k < t && (j <= k || k <= i) ==> #[trigger] x@[k] == x0[k],
                t <= u.len(),
                rhs.len() == t,
                uu == int_rows(u@),
                rr == int_row(rhs@),
                int_row(x0) == bs_num(uu, rr, t as int, i as int + 1),
                d == bs_den(uu, t as int, i as int + 1),
                piv == uu[i as int][i as int],
            decreases t - j,
        {
            let v = match x[j].checked_mul(piv) {
                Some(v) => v,
                None => {
                    proof {
                        assert(int_row(x0)[j as int] == x0[j as int]);
                        assert(!fits128(int_row(x0)[j as int] * uu[i as int][i as int]));
                        lemma_bs_step_fails(uu, rr, t as int, i as int);
                    }
                    return None;
                },
            };
            x.set(j, v);
            j += 1;
        }
        let nd = match d.checked_mul(piv) {
            Some(v) => v,
            None => {
                proof { lemma_bs_step_fails(uu, rr, t as int, i as int); }
                return None;
            },
        };
        assert(nd != 0) by (nonlinear_arith)
            requires
                nd == d * piv,
                d != 0,
                piv != 0,
        ;
        let ghost xs = int_row(x@);
        x.set(i, s);
        proof {
            assert forall|k: int| 0 <= k < t implies #[trigger] xs[k] == piv * int_row(x0)[k] by {
                if k <= i {
                    assert(x0[k] == 0);
                }
            }
            assert(xs[i as int] == 0);
            assert(int_row(x@) =~= xs.update(i as int, s as int));
            assert forall|r: int| i <= r < t implies #[trigger] dot_n(uu[r], int_row(x@), t as nat) == nd * rhs@[r] by {
                lemma_dot_n_scale_vec(uu[r], int_row(x0), xs, piv as int, t as nat);
                lemma_dot_n_update(uu[r], xs, i as int, s as int, t as nat);
                let (p0, dx) = (piv as int, dot_n(uu[r], int_row(x0), t as nat));
                if r == i {
                    assert(dx == sum);
                    assert(p0 * dx + uu[r][i as int] * (s - 0) == nd * rhs@[r]) by (nonlinear_arith)
                        requires
                            uu[r][i as int] == p0,
                            s == d0 * rhs@[r] - dx,
                            nd == d0 * p0,
                    ;
                } else {
                    assert(uu[r][i as int] == 0);
                    assert(dx == d0 * rhs@[r]);
                    assert(p0 * dx + uu[r][i as int] * (s - 0) == nd * rhs@[r]) by (nonlinear_arith)
                        requires
                            uu[r][i as int] == 0,
                            dx == d0 * rhs@[r],
                            nd == d0 * p0,
                    ;
                }
            }
        }
        proof {
            let xp = bs_num(uu, rr, t as int, i as int + 1);
            assert(xp == int_row(x0));
            assert forall|k: int| i < k < t implies #[trigger] fits128(xp[k] * uu[i as int][i as int]) by {
                assert(xs[k] == piv * int_row(x0)[k]);
                assert(piv * int_row(x0)[k] == int_row(x0)[k] * piv) by (nonlinear_arith);
            }
            assert(bs_step_fits(uu, rr, t as int, i as int));
            assert(int_row(x@) =~= bs_num(uu, rr, t as int, i as int)) by {
                assert forall|k: int| 0 <= k < t implies #[trigger] int_row(x@)[k] == bs_num(uu, rr, t as int, i as int)[k] by {
                    if k > i {
                        assert(xs[k] == piv * int_row(x0)[k]);
                        assert(piv * int_row(x0)[k] == int_row(x0)[k] * piv) by (nonlinear_arith);
                    }
                }
            }
        }
        d = nd;
    }
    let ghost x00 = int_row(x@);
    let ghost d00 = d as int;
    assert(x00 == bs_num(uu, rr, t as int, 0));
    if d < 0 {
        if d == i128::MIN {
            return None;
        }
        let ghost x0 = x@;
        let mut j: usize = 0;
        while j < t
            invariant
                j <= t,
                x.len() == t,
                x0.len() == t,
                forall|k: int| 0 <= k < j ==> #[trigger] x@[k] == -x0[k],
                forall|k: int| j <= k < t ==> #[trigger] x@[k] == x0[k],
                x00 == int_row(x0),
                uu == int_rows(u@),
                rr == int_row(rhs@),
                x00 == bs_num(uu, rr, t as int, 0),
                d00 == bs_den(uu, t as int, 0),
                d00 < 0,
            decreases t - j,
        {
            let v = match 0i128.checked_sub(x[j]) {
                Some(v) => v,
                None => {
                    proof {
                        assert(x00[j as int] == x0[j as int]);
                        assert(x00[j as int] == i128::MIN);
                    }
                    return None;
                },
            };
            x.set(j, v);
            j += 1;
        }
        proof {
            assert forall|r: int| 0 <= r < t implies #[trigger] dot_n(uu[r], int_row(x@), t as nat) == (-d) * rhs@[r] by {
                assert forall|k: int| 0 <= k < t implies #[trigger] int_row(x@)[k] == -1 * int_row(x0)[k] by {}
                lemma_dot_n_scale_vec(uu[r], int_row(x0), int_row(x@), -1, t as nat);
                assert(dot_n(uu[r], int_row(x0), t as nat) == d * rhs@[r]);
                assert(-1 * (d * rhs@[r]) == (-d) * rhs@[r]) by (nonlinear_arith);
            }
        }
        proof {
            assert forall|k: int| 0 <= k < t implies #[trigger] x00[k] != i128::MIN by {
                assert(x@[k] == -x0[k]);
                assert(x00[k] == x0[k]);
            }
            assert(int_row(x@) =~= Seq::new(t as nat, |k: int| -x00[k]));
        }
        d = -d;
    }
    Some((x, d))
}

/// Only the zero vector is orthogonal to the first `n` columns of every row
/// of an upper triangular system with a nonzero diagonal; here the entries
/// from `m` on are shown to be zero.
proof fn lemma_triangular_kernel_from(u: Seq<Seq<int>>, n: nat, z: Seq<int>, m: nat)
    requires
        u.len() >= n,
        triangular_upto(u, n as int),
        z.len() == n,
        m <= n,
        forall|i: int| 0 <= i < n ==> #[trigger] dot_n(u[i], z, n) == 0,
    ensures
        forall|j: int| m <= j < n ==> #[trigger] z[j] == 0,
    decreases n - m,
{
    if m < n {
        lemma_triangular_kernel_from(u, n, z, m + 1);
        let r = u[m as int];
        lemma_dot_n_zero_tail(r, z, m + 1, n);
        assert forall|j: int| 0 <= j < m implies r[j] == 0 || z[j] == 0 by {
            assert(u[m as int][j] == 0);
        }
        lemma_dot_n_zero_tail(r, z, 0, m);
        assert(r[m as int] != 0);
        lemma_mul_zero(r[m as int], z[m as int]);
    }
}

/// An upper triangular system with a nonzero diagonal has a trivial kernel.
pub proof fn lemma_triangular_kernel(u: Seq<Seq<int>>, n: nat, z: Seq<int>)
    requires
        u.len() >= n,
        triangular_upto(u, n as int),
        z.len() == n,
        forall|i: int| 0 <= i < n ==> #[trigger] dot_n(u[i], z, n) == 0,
    ensures
        all_zero(z),
{
    lemma_triangular_kernel_from(u, n, z, 0);
}

/// Two solutions of a nonsingular system are proportional:
/// `x / d = x2 / d2`.
pub proof fn lemma_unique_solution(a: Seq<Seq<int>>, b: Seq<int>, n: nat, x: Seq<int>, d: int, x2: Seq<int>, d2: int)
    requires
        nonsingular(a, n),
        width(a, n),
        x.len() == n,
        x2.len() == n,
        solves(a, b, x, d),
        solves(a, b, x2, d2),
    ensures
        forall|j: int| 0 <= j < n ==> #[trigger] (d2 * x[j]) == d * x2[j],
{
    let z = Seq::new(n, |j: int| d2 * x[j] - d * x2[j]);
    assert forall|i: int| 0 <= i < a.len() implies #[trigger] dot(a[i], z) == 0 by {
        lemma_dot_n_vec_combo(a[i], z, x, x2, d2, d, n);
        assert(dot(a[i], x) == d * b[i]);
        assert(dot(a[i], x2) == d2 * b[i]);
        let (p, q) = (dot(a[i], x), dot(a[i], x2));
        assert(d2 * p - d * q == 0) by (nonlinear_arith)
            requires
                p == d * b[i],
                q == d2 * b[i],
        ;
    }
    assert(kills(a, z));
    assert forall|j: int| 0 <= j < n implies #[trigger] (d2 * x[j]) == d * x2[j] by {
        assert(z[j] == 0);
    }
}

/// The augmented row `r . (y, v) = r[0..n] . y + r[n] v`.
pub proof fn lemma_dot_push(r: Seq<int>, e: int, y: Seq<int>, v: int, n: nat)
    requires
        r.len() == n,
        y.len() == n,
    ensures
        dot(r.push(e), y.push(v)) == dot(r, y) + e * v,
{
    lemma_dot_n_ext(r.push(e), r, y.push(v), y, n);
}

/// Whether the square system `a` is nonsingular and `a x = b` has a
/// nonnegative rational solution, decided exactly by fraction-free
/// elimination in `i128`, redone over arbitrary-precision integers when an
/// intermediate value leaves `i128`; it always succeeds.
pub fn nonsingular_nonneg_solution(a: &Vec<Vec<i128>>, b: &Vec<i128>) -> (r: Option<bool>)
    requires
        a.len() == b.len(),
        forall|i: int| 0 <= i < a.len() ==> (#[trigger] a@[i])@.len() == a.len(),
    ensures
        r == Some(nonsingular(int_rows(a@), a.len() as nat) && has_nonneg_solution(
            int_rows(a@),
            int_row(b@),
            a.len() as nat,
        )),
{
    let n = a.len();
    let ghost aa = int_rows(a@);
    let ghost bb = int_row(b@);
    let ghost w: nat = (n + 1) as nat;
    let mut u: Vec<Vec<i128>> = Vec::new();
    let mut i: usize = 0;
    while i < n
        invariant
            i <= n,
            n == a.len(),
            n == b.len(),
            aa == int_rows(a@),
            bb == int_row(b@),
            w == n + 1,
            forall|k: int| 0 <= k < n ==> (#[trigger] a@[k])@.len() == n,
            u.len() == i,
            forall|k: int| 0 <= k < i ==> #[trigger] int_rows(u@)[k] == aa[k].push(bb[k]),
        decreases n - i,
    {
        let mut row = copy_vec(&a[i]);
        row.push(b[i]);
        assert(int_row(row@) =~= aa[i as int].push(bb[i as int]));
        let ghost prev = int_rows(u@);
        u.push(row);
        assert(int_rows(u@) =~= prev.push(int_row(row@)));
        i += 1;
    }
    let ghost aug = int_rows(u@);
    assert(aug =~= augmented(aa, bb));
    assert forall|k: int| 0 <= k < n implies (#[trigger] aug[k]).len() == w by {}
    assert(width(aa, n as nat));
    let red = reduce(&mut u, n);
    let ghost uu = int_rows(u@);
    assert forall|k: int| 0 <= k < n implies (#[trigger] u@[k])@.len() == w by {
        assert(uu[k].len() == w);
    }
    match red {
        Reduction::Overflow => Some(big_nonsingular_nonneg_solution(a, b)),
        Reduction::NoPivot(k) => {
            let mut rhs: Vec<i128> = Vec::new();
            let mut j: usize = 0;
            while j < k
                invariant
                    j <= k,
                    k < n,
                    u.len() == n,
                    uu == int_rows(u@),
                    forall|q: int| 0 <= q < n ==> (#[trigger] u@[q])@.len() == w,
                    w == n + 1,
                    rhs.len() == j,
                    forall|q: int| 0 <= q < j ==> #[trigger] rhs@[q] == -uu[q][k as int],
                    n == a.len(),
                    n == b.len(),
                    forall|q: int| 0 <= q < n ==> (#[trigger] a@[q])@.len() == n,
                decreases k - j,
            {
                let v = u[j][k];
                if v == i128::MIN {
                    return Some(big_nonsingular_nonneg_solution(a, b));
                }
                rhs.push(-v);
                j += 1;
            }
            match back_substitute(&u, k, &rhs) {
                None => Some(big_nonsingular_nonneg_solution(a, b)),
                Some((x, d)) => {
                    proof {
                        let xs = int_row(x@);
                        let y = xs.push(d as int) + Seq::new((n - k) as nat, |q: int| 0int);
                        assert(y.len() == w);
                        assert forall|q: int| 0 <= q < n implies #[trigger] dot(uu[q], y) == 0 by {
                            let r = uu[q];
                            lemma_dot_n_zero_tail(r, y, (k + 1) as nat, w);
                            if q < k {
                                lemma_dot_n_ext(r, r, y, xs, k as nat);
                                assert(dot_n(r, xs, k as nat) == d * rhs@[q]);
                                assert(dot_n(r, y, (k + 1) as nat) == dot_n(r, y, k as nat) + r[k as int] * d);
                                assert(d * (-r[k as int]) + r[k as int] * d == 0) by (nonlinear_arith);
                            } else {
                                assert forall|j2: int| 0 <= j2 < k + 1 implies r[j2] == 0 || y[j2] == 0 by {
                                    if j2 < k {
                                        assert(uu[q][j2] == 0);
                                    }
                                }
                                lemma_dot_n_zero_tail(r, y, 0, (k + 1) as nat);
                            }
                        }
                        assert(kills(uu, y));
                        assert(kills(aug, y));
                        let z = y.take(n as int);
                        assert(y =~= z.push(0));
                        assert forall|q: int| 0 <= q < aa.len() implies #[trigger] dot(aa[q], z) == 0 by {
                            assert(dot(aug[q], y) == 0);
                            lemma_dot_push(aa[q], bb[q], z, 0, n as nat);
                        }
                        assert(kills(aa, z));
                        assert(z[k as int] == d);
                        assert(!all_zero(z));
                    }
                    Some(false)
                },
            }
        },
        Reduction::Triangular => {
            let mut rhs: Vec<i128> = Vec::new();
            let mut j: usize = 0;
            while j < n
                invariant
                    j <= n,
                    u.len() == n,
                    uu == int_rows(u@),
                    forall|q: int| 0 <= q < n ==> (#[trigger] u@[q])@.len() == w,
                    w == n + 1,
                    rhs.len() == j,
                    forall|q: int| 0 <= q < j ==> #[trigger] rhs@[q] == uu[q][n as int],
                decreases n - j,
            {
                rhs.push(u[j][n]);
                j += 1;
            }
            match back_substitute(&u, n, &rhs) {
                None => Some(big_nonsingular_nonneg_solution(a, b)),
                Some((x, d)) => {
                    let ghost xs = int_row(x@);
                    proof {
                        let y = xs.push(-d as int);
                        assert forall|q: int| 0 <= q < n implies #[trigger] dot(uu[q], y) == 0 by {
                            let r = uu[q];
                            assert(r =~= r.take(n as int).push(r[n as int]));
                            lemma_dot_push(r.take(n as int), r[n as int], xs, -d as int, n as nat);
                            lemma_dot_n_ext(r.take(n as int), r, xs, xs, n as nat);
                            assert(dot_n(r, xs, n as nat) == d * rhs@[q]);
                            assert(d * r[n as int] + r[n as int] * (-d) == 0) by (nonlinear_arith);
                        }
                        assert(kills(uu, y));
                        assert(kills(aug, y));
                        assert forall|q: int| 0 <= q < aa.len() implies #[trigger] dot(aa[q], xs) == d * bb[q] by {
                            assert(dot(aug[q], y) == 0);
                            lemma_dot_push(aa[q], bb[q], xs, -d as int, n as nat);
                            assert(bb[q] * (-d) == -(d * bb[q])) by (nonlinear_arith);
                        }
                        assert(solves(aa, bb, xs, d as int));
                        assert forall|z: Seq<int>| #![trigger kills(aa, z)] z.len() == n && kills(aa, z) implies all_zero(z) by {
                            let y2 = z.push(0);
                            assert forall|q: int| 0 <= q < aug.len() implies #[trigger] dot(aug[q], y2) == 0 by {
                                lemma_dot_push(aa[q], bb[q], z, 0, n as nat);
                                assert(dot(aa[q], z) == 0);
                            }
                            assert(kills(aug, y2));
                            assert(kills(uu, y2));
                            assert forall|q: int| 0 <= q < n implies #[trigger] dot_n(uu[q], z, n as nat) == 0 by {
                                let r = uu[q];
                                assert(dot(uu[q], y2) == 0);
                                assert(r.len() == w);
                                assert(r =~= r.take(n as int).push(r[n as int]));
                                lemma_dot_push(r.take(n as int), r[n as int], z, 0, n as nat);
                                lemma_dot_n_ext(r.take(n as int), r, z, z, n as nat);
                                assert(r[n as int] * 0 == 0);
                                assert(dot(r.take(n as int), z) == dot_n(r, z, n as nat));
                            }
                            lemma_triangular_kernel(uu, n as nat, z);
                        }
                        assert(nonsingular(aa, n as nat));
                    }
                    let mut ok = true;
                    let mut j: usize = 0;
                    while j < n
                        invariant
                            j <= n,
                            x.len() == n,
                            xs == int_row(x@),
                            ok == (forall|q: int| 0 <= q < j ==> #[trigger] xs[q] >= 0),
                        decreases n - j,
                    {
                        assert(xs[j as int] == x@[j as int]);
                        if x[j] < 0 {
                            ok = false;
                        }
                        j += 1;
                    }
                    proof {
                        if ok {
                            assert(has_nonneg_solution(aa, bb, n as nat)) by {
                                assert(solves(aa, bb, xs, d as int));
                            }
                        } else {
                            let q = choose|q: int| 0 <= q < n && #[trigger] xs[q] < 0;
                            if has_nonneg_solution(aa, bb, n as nat) {
                                let (x2, d2) = choose|x2: Seq<int>, d2: int|
                                    #![trigger solves(aa, bb, x2, d2)]
                                    d2 > 0 && x2.len() == n && (forall|j2: int| 0 <= j2 < n ==> #[trigger] x2[j2] >= 0)
                                        && solves(aa, bb, x2, d2);
                                lemma_unique_solution(aa, bb, n as nat, xs, d as int, x2, d2);
                                assert(d2 * xs[q] == d * x2[q]);
                                assert(x2[q] >= 0);
                                assert(false) by (nonlinear_arith)
                                    requires
                                        d2 * xs[q] == d * x2[q],
                                        d2 > 0,
                                        d > 0,
                                        xs[q] < 0,
                                        x2[q] >= 0,
                                ;
                            }
                        }
                    }
                    Some(ok)
                },
            }
        },
    }
}

} // verus!
