//! Gaussian elimination over arbitrary-precision integers (`num_bigint`),
//! for deciding whether the columns of an integer matrix are linearly
//! independent.
use vstd::prelude::*;
use num_bigint::BigInt;
use num_traits::{Signed, Zero};
use crate::linalg::{
    dot, dot_n, kills, same_kernel, triangular_upto, width, nonsingular, all_zero, lemma_replace_row,
    int_row, int_rows, augmented, solves, has_nonneg_solution, lemma_dot_push, lemma_unique_solution,
    lemma_swap_rows, lemma_same_kernel_step, lemma_dot_n_scale_vec, lemma_dot_n_update,
    lemma_dot_n_zero_tail, lemma_dot_n_ext, lemma_triangular_kernel, lemma_mul_zero, lemma_dot_n_combo, Reduction,
};

verus! {

/// `num_bigint::BigInt`, an arbitrary-precision signed integer.
#[verifier::external_type_specification]
#[verifier::external_body]
pub struct ExBigInt(BigInt);

/// The integer that a `BigInt` holds.
pub uninterp spec fn big_value(b: BigInt) -> int;

/// Magnitude.
pub open spec fn abs_int(x: int) -> int {
    if x < 0 { -x } else { x }
}

/// Quotient rounded toward zero.
pub open spec fn trunc_div(a: int, b: int) -> int {
    if (a < 0) == (b < 0) { abs_int(a) / abs_int(b) } else { -(abs_int(a) / abs_int(b)) }
}

/// Remainder of the quotient rounded toward zero; it takes the sign of `a`.
pub open spec fn trunc_rem(a: int, b: int) -> int {
    if a < 0 { -(abs_int(a) % abs_int(b)) } else { abs_int(a) % abs_int(b) }
}

/// `BigInt::from(i64)` holds the same integer.
#[verifier::external_body]
fn big_from(x: i64) -> (r: BigInt)
    ensures
        big_value(r) == x as int,
{
    BigInt::from(x)
}

/// `&a * &b` holds the product.
#[verifier::external_body]
fn big_mul(a: &BigInt, b: &BigInt) -> (r: BigInt)
    ensures
        big_value(r) == big_value(*a) * big_value(*b),
{
    a * b
}

/// `&a + &b` holds the sum.
#[verifier::external_body]
fn big_add(a: &BigInt, b: &BigInt) -> (r: BigInt)
    ensures
        big_value(r) == big_value(*a) + big_value(*b),
{
    a + b
}

/// `&a - &b` holds the difference.
#[verifier::external_body]
fn big_sub(a: &BigInt, b: &BigInt) -> (r: BigInt)
    ensures
        big_value(r) == big_value(*a) - big_value(*b),
{
    a - b
}

/// `&a / &b` holds the quotient rounded toward zero (it panics on a zero
/// divisor, which `requires` rules out).
#[verifier::external_body]
fn big_div(a: &BigInt, b: &BigInt) -> (r: BigInt)
    requires
        big_value(*b) != 0,
    ensures
        big_value(r) == trunc_div(big_value(*a), big_value(*b)),
{
    a / b
}

/// `&a % &b` holds the remainder with the sign of `a` (it panics on a zero
/// divisor, which `requires` rules out).
#[verifier::external_body]
fn big_rem(a: &BigInt, b: &BigInt) -> (r: BigInt)
    requires
        big_value(*b) != 0,
    ensures
        big_value(r) == trunc_rem(big_value(*a), big_value(*b)),
{
    a % b
}

/// `Zero::is_zero`: whether the value is 0.
#[verifier::external_body]
fn big_is_zero(a: &BigInt) -> (r: bool)
    ensures
        r == (big_value(*a) == 0),
{
    a.is_zero()
}

/// `BigInt::from(i128)` holds the same integer.
#[verifier::external_body]
fn big_from_i128(x: i128) -> (r: BigInt)
    ensures
        big_value(r) == x as int,
{
    BigInt::from(x)
}

/// `Signed::is_negative`: whether the value is below 0.
#[verifier::external_body]
fn big_is_negative(a: &BigInt) -> (r: bool)
    ensures
        r == (big_value(*a) < 0),
{
    a.is_negative()
}

/// `Clone::clone` holds the same integer.
#[verifier::external_body]
fn big_clone(a: &BigInt) -> (r: BigInt)
    ensures
        big_value(r) == big_value(*a),
{
    a.clone()
}

/// An exact division: a zero remainder makes the quotient times the
/// divisor the dividend.
proof fn lemma_exact_division(a: int, b: int)
    requires
        b != 0,
        trunc_rem(a, b) == 0,
    ensures
        trunc_div(a, b) * b == a,
{
    let (aa, bb) = (abs_int(a), abs_int(b));
    let q = aa / bb;
    assert(aa % bb == 0);
    assert(q * bb == aa) by (nonlinear_arith)
        requires
            aa % bb == 0,
            q == aa / bb,
            bb > 0,
            aa >= 0,
    ;
    assert(trunc_div(a, b) * b == a) by (nonlinear_arith)
        requires
            q * bb == aa,
            aa == abs_int(a),
            bb == abs_int(b),
            trunc_div(a, b) == (if (a < 0) == (b < 0) { q } else { -q }),
            abs_int(a) == (if a < 0 { -a } else { a }),
            abs_int(b) == (if b < 0 { -b } else { b }),
    ;
}

/// The values of a row.
pub open spec fn big_row(r: Seq<BigInt>) -> Seq<int> {
    Seq::new(r.len(), |j: int| big_value(r[j]))
}

/// The values of the rows.
pub open spec fn big_rows(u: Seq<Vec<BigInt>>) -> Seq<Seq<int>> {
    Seq::new(u.len(), |i: int| big_row(u[i]@))
}

/// A copy of a row.
fn copy_row(r: &Vec<BigInt>) -> (c: Vec<BigInt>)
    ensures
        big_row(c@) == big_row(r@),
{
    let mut c: Vec<BigInt> = Vec::new();
    let mut j: usize = 0;
    while j < r.len()
        invariant
            j <= r.len(),
            c.len() == j,
            forall|k: int| 0 <= k < j ==> #[trigger] big_value(c@[k]) == big_value(r@[k]),
        decreases r.len() - j,
    {
        c.push(big_clone(&r[j]));
        j += 1;
    }
    assert(big_row(c@) =~= big_row(r@));
    c
}

/// `a p - c q`, entry by entry.
fn big_combine(p: &Vec<BigInt>, q: &Vec<BigInt>, a: &BigInt, c: &BigInt) -> (t: Vec<BigInt>)
    requires
        p.len() == q.len(),
    ensures
        t.len() == p.len(),
        forall|j: int| 0 <= j < p.len() ==> #[trigger] big_value(t@[j]) == big_value(*a) * big_value(p@[j])
            - big_value(*c) * big_value(q@[j]),
{
    let mut t: Vec<BigInt> = Vec::new();
    let mut j: usize = 0;
    while j < p.len()
        invariant
            j <= p.len(),
            p.len() == q.len(),
            t.len() == j,
            forall|k: int| 0 <= k < j ==> #[trigger] big_value(t@[k]) == big_value(*a) * big_value(p@[k])
                - big_value(*c) * big_value(q@[k]),
        decreases p.len() - j,
    {
        let x = big_mul(a, &p[j]);
        let y = big_mul(c, &q[j]);
        t.push(big_sub(&x, &y));
        j += 1;
    }
    t
}

/// Divides every entry of the row by `g` when `g` divides them all; the
/// result `(s, f)` has `t = f s` entry by entry, with `f` the value of `g`
/// or 1.
fn big_divide_row(t: Vec<BigInt>, g: &BigInt) -> (r: (Vec<BigInt>, Ghost<int>))
    requires
        big_value(*g) != 0,
    ensures
        r.1@ != 0,
        r.0.len() == t.len(),
        forall|j: int| 0 <= j < t.len() ==> #[trigger] big_value(t@[j]) == r.1@ * big_value(r.0@[j]),
{
    let mut j: usize = 0;
    while j < t.len()
        invariant
            j <= t.len(),
            big_value(*g) != 0,
            forall|k: int| 0 <= k < j ==> #[trigger] trunc_rem(big_value(t@[k]), big_value(*g)) == 0,
        decreases t.len() - j,
    {
        let rem = big_rem(&t[j], g);
        if !big_is_zero(&rem) {
            assert forall|k: int| 0 <= k < t.len() implies #[trigger] big_value(t@[k]) == 1 * big_value(t@[k]) by {}
            return (t, Ghost(1int));
        }
        j += 1;
    }
    let mut s: Vec<BigInt> = Vec::new();
    j = 0;
    while j < t.len()
        invariant
            j <= t.len(),
            big_value(*g) != 0,
            forall|k: int| 0 <= k < t.len() ==> #[trigger] trunc_rem(big_value(t@[k]), big_value(*g)) == 0,
            s.len() == j,
            forall|k: int| 0 <= k < j ==> #[trigger] big_value(t@[k]) == big_value(*g) * big_value(s@[k]),
        decreases t.len() - j,
    {
        let q = big_div(&t[j], g);
        proof {
            lemma_exact_division(big_value(t@[j as int]), big_value(*g));
            assert(big_value(q) * big_value(*g) == big_value(*g) * big_value(q)) by (nonlinear_arith);
        }
        s.push(q);
        j += 1;
    }
    (s, Ghost(big_value(*g)))
}

/// Every original row `a0[perm[j]]` with `j < c` or `j == i` is orthogonal
/// to `y`.
pub open spec fn tagged_rows_vanish(a0: Seq<Seq<int>>, perm: Seq<usize>, c: int, i: int, y: Seq<int>) -> bool {
    forall|j: int| 0 <= j < perm.len() && (j < c || j == i) ==> #[trigger] dot(a0[perm[j] as int], y) == 0
}

/// Row `i` of `u` lies in the span of the original rows tagged by
/// `perm[j]` for `j < c` and by `perm[i]`: it is orthogonal to every vector
/// of width `w` that those original rows are orthogonal to.
pub open spec fn rows_generated(a0: Seq<Seq<int>>, u: Seq<Seq<int>>, perm: Seq<usize>, c: int, w: nat) -> bool {
    forall|i: int, y: Seq<int>|
        #![trigger dot(u[i], y)]
        0 <= i < u.len() && y.len() == w && tagged_rows_vanish(a0, perm, c, i, y) ==> dot(u[i], y) == 0
}

/// A row `s` with `g s = p r - q t` and `g != 0` is orthogonal to every
/// vector that `r` and `t` are orthogonal to.
proof fn lemma_combo_vanishes(s: Seq<int>, r: Seq<int>, t: Seq<int>, y: Seq<int>, g: int, p: int, q: int, w: nat)
    requires
        s.len() == w,
        r.len() == w,
        t.len() == w,
        g != 0,
        forall|j: int| 0 <= j < w ==> #[trigger] (g * s[j]) == p * r[j] - q * t[j],
        dot(r, y) == 0,
        dot(t, y) == 0,
    ensures
        dot(s, y) == 0,
{
    let gs = Seq::new(w, |j: int| g * s[j]);
    lemma_dot_n_combo(gs, s, s, y, g, 0, w);
    lemma_dot_n_combo(gs, r, t, y, p, q, w);
    let ds = dot(s, y);
    assert(g * ds == 0) by (nonlinear_arith)
        requires
            dot_n(gs, y, w) == g * ds - 0 * ds,
            dot_n(gs, y, w) == p * 0 - q * 0,
    ;
    lemma_mul_zero(g, ds);
}

/// Brings the first `k` columns of the `d` rows of width `k` to upper
/// triangular form by row exchanges and fraction-free eliminations (each
/// eliminated row divided by the previous pivot when that divides it, as
/// in Bareiss's method), recording in `perm` the original index of each
/// row. Stops at the first column without a pivot.
fn big_reduce(u: &mut Vec<Vec<BigInt>>, perm: &mut Vec<usize>, d: usize, k: usize) -> (r: Reduction)
    requires
        old(u).len() == d,
        old(perm).len() == d,
        width(big_rows(old(u)@), k as nat),
        forall|i: int| 0 <= i < d ==> #[trigger] old(perm)@[i] == i,
    ensures
        final(u).len() == d,
        final(perm).len() == d,
        width(big_rows(final(u)@), k as nat),
        same_kernel(big_rows(old(u)@), big_rows(final(u)@), k as nat),
        forall|i: int| 0 <= i < d ==> old(perm)@.contains(#[trigger] final(perm)@[i]),
        r is Triangular ==> k <= d && triangular_upto(big_rows(final(u)@), k as int)
            && rows_generated(big_rows(old(u)@), big_rows(final(u)@), final(perm)@, k as int, k as nat),
        r matches Reduction::NoPivot(c) ==> c < k && c <= d && triangular_upto(big_rows(final(u)@), c as int)
            && forall|i: int| c <= i < d ==> #[trigger] big_rows(final(u)@)[i][c as int] == 0,
        !(r is Overflow),
        (forall|i: int, j: int| 0 <= i < j < d ==> old(perm)@[i] != old(perm)@[j]) ==> (forall|i: int, j: int|
            0 <= i < j < d ==> #[trigger] final(perm)@[i] != #[trigger] final(perm)@[j]),
{
    let ghost a0 = big_rows(u@);
    let ghost p0 = perm@;
    let ghost w: nat = k as nat;
    proof {
        assert forall|i: int, y: Seq<int>|
            #![trigger dot(a0[i], y)]
            0 <= i < a0.len() && y.len() == w && tagged_rows_vanish(a0, p0, 0, i, y) implies dot(a0[i], y) == 0 by {
            assert(p0[i] == i);
            assert(dot(a0[p0[i] as int], y) == 0);
        }
    }
    let mut prev = big_from(1);
    let mut c: usize = 0;
    while c < k
        invariant
            u.len() == d,
            perm.len() == d,
            rows_generated(a0, big_rows(u@), perm@, c as int, w),
            c <= k,
            c <= d,
            w == k,
            a0 == big_rows(old(u)@),
            p0 == old(perm)@,
            big_value(prev) != 0,
            width(big_rows(u@), w),
            same_kernel(a0, big_rows(u@), w),
            triangular_upto(big_rows(u@), c as int),
            forall|i: int| 0 <= i < d ==> p0.contains(#[trigger] perm@[i]),
            (forall|i: int, j: int| 0 <= i < j < d ==> p0[i] != p0[j]) ==> (forall|i: int, j: int|
                0 <= i < j < d ==> #[trigger] perm@[i] != #[trigger] perm@[j]),
        decreases k - c,
    {
        assert forall|i: int| 0 <= i < d implies #[trigger] u@[i]@.len() == w by {
            assert(big_rows(u@)[i].len() == w);
        }
        let mut p: usize = c;
        while p < d && big_is_zero(&u[p][c])
            invariant
                c <= p <= d,
                c < k,
                c <= d,
                u.len() == d,
                w == k,
                width(big_rows(u@), w),
                forall|i: int| 0 <= i < d ==> #[trigger] u@[i]@.len() == w,
                forall|i: int| c <= i < p ==> #[trigger] big_rows(u@)[i][c as int] == 0,
            decreases d - p,
        {
            p += 1;
        }
        if p == d {
            return Reduction::NoPivot(c);
        }
        if p != c {
            let ghost before = big_rows(u@);
            let ghost pb = perm@;
            let rc = copy_row(&u[c]);
            let rp = copy_row(&u[p]);
            u.set(c, rp);
            u.set(p, rc);
            let ic = perm[c];
            let ip = perm[p];
            perm.set(c, ip);
            perm.set(p, ic);
            proof {
                assert(big_rows(u@) =~= before.update(c as int, before[p as int]).update(
                    p as int,
                    before[c as int],
                ));
                lemma_swap_rows(before, c as int, p as int);
                lemma_same_kernel_step(a0, before, big_rows(u@), w);
                assert forall|i: int| 0 <= i < d implies p0.contains(#[trigger] perm@[i]) by {
                    if i == c as int {
                        assert(perm@[i] == pb[p as int]);
                    } else if i == p as int {
                        assert(perm@[i] == pb[c as int]);
                    } else {
                        assert(perm@[i] == pb[i]);
                    }
                }
                let nu = big_rows(u@);
                assert forall|i: int, y: Seq<int>|
                    #![trigger dot(nu[i], y)]
                    0 <= i < nu.len() && y.len() == w && tagged_rows_vanish(a0, perm@, c as int, i, y) implies dot(nu[i], y) == 0 by {
                    let si = if i == c as int { p as int } else if i == p as int { c as int } else { i };
                    assert(nu[i] == before[si]);
                    assert(perm@[i] == pb[si]);
                    assert forall|j: int| 0 <= j < pb.len() && (j < c || j == si) implies #[trigger] dot(a0[pb[j] as int], y) == 0 by {
                        if j == si {
                            assert(dot(a0[perm@[i] as int], y) == 0);
                        } else {
                            assert(perm@[j] == pb[j]);
                            assert(dot(a0[perm@[j] as int], y) == 0);
                        }
                    }
                    assert(tagged_rows_vanish(a0, pb, c as int, si, y));
                    assert(dot(before[si], y) == 0);
                }
                if forall|i: int, j: int| 0 <= i < j < d ==> p0[i] != p0[j] {
                    assert forall|i: int, j: int| 0 <= i < j < d implies #[trigger] perm@[i] != #[trigger] perm@[j] by {
                        let si = if i == c as int { p as int } else if i == p as int { c as int } else { i };
                        let sj = if j == c as int { p as int } else if j == p as int { c as int } else { j };
                        assert(perm@[i] == pb[si]);
                        assert(perm@[j] == pb[sj]);
                        if si < sj {
                            assert(pb[si] != pb[sj]);
                        } else {
                            assert(pb[sj] != pb[si]);
                        }
                    }
                }
            }
        }
        let ghost top = big_rows(u@);
        assert(top[c as int][c as int] != 0);
        proof {
            assert forall|i: int, y: Seq<int>|
                #![trigger dot(top[i], y)]
                0 <= i < top.len() && y.len() == w && tagged_rows_vanish(a0, perm@, c + 1, i, y) implies dot(top[i], y) == 0 by {
                assert forall|j: int| 0 <= j < perm@.len() && (j < c || j == i) implies #[trigger] dot(a0[perm@[j] as int], y) == 0 by {
                    assert(dot(a0[perm@[j] as int], y) == 0);
                }
                assert(tagged_rows_vanish(a0, perm@, c as int, i, y));
            }
        }
        let piv = big_clone(&u[c][c]);
        let mut i: usize = c + 1;
        while i < d
            invariant
                c < k,
                c < d,
                c + 1 <= i <= d,
                u.len() == d,
                w == k,
                a0 == big_rows(old(u)@),
                big_value(prev) != 0,
                big_value(piv) == top[c as int][c as int],
                perm.len() == d,
                rows_generated(a0, big_rows(u@), perm@, c + 1, w),
                width(big_rows(u@), w),
                same_kernel(a0, big_rows(u@), w),
                triangular_upto(big_rows(u@), c as int),
                forall|r: int| 0 <= r <= c ==> #[trigger] big_rows(u@)[r] == top[r],
                top[c as int][c as int] != 0,
                forall|r: int| c < r < i ==> #[trigger] big_rows(u@)[r][c as int] == 0,
            decreases d - i,
        {
            assert(big_rows(u@)[i as int].len() == w);
            assert(big_rows(u@)[c as int] == top[c as int]);
            let ghost cur = big_rows(u@);
            if !big_is_zero(&u[i][c]) {
                let a = big_clone(&u[i][c]);
                let t = big_combine(&u[i], &u[c], &piv, &a);
                let (s, f) = big_divide_row(t, &prev);
                proof {
                    let si = big_row(s@);
                    let g = f@;
                    assert forall|j: int| 0 <= j < w implies #[trigger] (g * si[j]) == big_value(piv) * cur[i as int][j]
                        - big_value(a) * cur[c as int][j] by {
                        assert(big_value(t@[j]) == g * big_value(s@[j]));
                    }
                    lemma_replace_row(cur, i as int, c as int, si, g, big_value(piv), big_value(a), w);
                    lemma_same_kernel_step(a0, cur, cur.update(i as int, si), w);
                    let nu = cur.update(i as int, si);
                    assert forall|i2: int, y: Seq<int>|
                        #![trigger dot(nu[i2], y)]
                        0 <= i2 < nu.len() && y.len() == w && tagged_rows_vanish(a0, perm@, c + 1, i2, y) implies dot(nu[i2], y) == 0 by {
                        if i2 == i as int {
                            assert(dot(cur[i as int], y) == 0);
                            assert forall|j: int| 0 <= j < perm@.len() && (j < c + 1 || j == c as int) implies #[trigger] dot(a0[perm@[j] as int], y) == 0 by {
                                assert(dot(a0[perm@[j] as int], y) == 0);
                            }
                            assert(tagged_rows_vanish(a0, perm@, c + 1, c as int, y));
                            assert(dot(cur[c as int], y) == 0);
                            assert(cur[i as int].len() == w && cur[c as int].len() == w);
                            lemma_combo_vanishes(si, cur[i as int], cur[c as int], y, g, big_value(piv), big_value(a), w);
                        } else {
                            assert(nu[i2] == cur[i2]);
                            assert(dot(cur[i2], y) == 0);
                        }
                    }
                    let (pv, av) = (big_value(piv), big_value(a));
                    assert(g * si[c as int] == 0) by (nonlinear_arith)
                        requires
                            g * si[c as int] == pv * av - av * pv,
                    ;
                    lemma_mul_zero(g, si[c as int]);
                    assert forall|j: int| 0 <= j < c implies #[trigger] si[j] == 0 by {
                        assert(cur[i as int][j] == 0 && cur[c as int][j] == 0);
                        assert(g * si[j] == 0) by (nonlinear_arith)
                            requires
                                g * si[j] == pv * cur[i as int][j] - av * cur[c as int][j],
                                cur[i as int][j] == 0,
                                cur[c as int][j] == 0,
                        ;
                        lemma_mul_zero(g, si[j]);
                    }
                }
                u.set(i, s);
                proof {
                    assert(big_rows(u@) =~= cur.update(i as int, big_row(s@)));
                }
            }
            i += 1;
        }
        proof {
            let cur = big_rows(u@);
            assert forall|i2: int, j: int| 0 <= j < c + 1 && j < i2 < cur.len() implies #[trigger] cur[i2][j] == 0 by {
                if j < c {
                    assert(cur[i2][j] == 0);
                }
            }
            assert forall|j: int| 0 <= j < c + 1 implies #[trigger] cur[j][j] != 0 by {
                assert(cur[j] == top[j]);
            }
        }
        prev = piv;
        c += 1;
    }
    Reduction::Triangular
}

/// The first `n` entries of a row dotted with a vector.
fn big_dot_upto(r: &Vec<BigInt>, x: &Vec<BigInt>, n: usize) -> (v: BigInt)
    requires
        n <= r.len(),
        n <= x.len(),
    ensures
        big_value(v) == dot_n(big_row(r@), big_row(x@), n as nat),
{
    let mut acc = big_from(0);
    let mut j: usize = 0;
    while j < n
        invariant
            j <= n,
            n <= r.len(),
            n <= x.len(),
            big_value(acc) == dot_n(big_row(r@), big_row(x@), j as nat),
        decreases n - j,
    {
        let p = big_mul(&r[j], &x[j]);
        acc = big_add(&acc, &p);
        j += 1;
    }
    acc
}

/// Solves the upper triangular system formed by the first `t` columns of
/// the first `t` rows of `u` (nonzero diagonal) against `rhs`: integer
/// numerators `x` and a nonzero denominator `den` with
/// `u[i][0..t] . x = den * rhs[i]` for every `i < t`.
fn big_back_substitute(u: &Vec<Vec<BigInt>>, t: usize, rhs: &Vec<BigInt>) -> (r: (Vec<BigInt>, BigInt))
    requires
        t <= u.len(),
        rhs.len() == t,
        forall|i: int| 0 <= i < t ==> (#[trigger] u@[i])@.len() >= t,
        triangular_upto(big_rows(u@), t as int),
    ensures
        r.0.len() == t,
        big_value(r.1) != 0,
        forall|i: int| 0 <= i < t ==> #[trigger] dot_n(big_rows(u@)[i], big_row(r.0@), t as nat) == big_value(r.1)
            * big_row(rhs@)[i],
{
    let ghost uu = big_rows(u@);
    let ghost bb = big_row(rhs@);
    let mut x: Vec<BigInt> = Vec::new();
    let mut j: usize = 0;
    while j < t
        invariant
            j <= t,
            x.len() == j,
            forall|k: int| 0 <= k < j ==> #[trigger] big_value(x@[k]) == 0,
        decreases t - j,
    {
        x.push(big_from(0));
        j += 1;
    }
    let mut d = big_from(1);
    let mut i: usize = t;
    while i > 0
        invariant
            i <= t,
            t <= u.len(),
            rhs.len() == t,
            uu == big_rows(u@),
            bb == big_row(rhs@),
            forall|k: int| 0 <= k < t ==> (#[trigger] u@[k])@.len() >= t,
            triangular_upto(uu, t as int),
            x.len() == t,
            big_value(d) != 0,
            forall|k: int| 0 <= k < i ==> #[trigger] big_value(x@[k]) == 0,
            forall|r: int| i <= r < t ==> #[trigger] dot_n(uu[r], big_row(x@), t as nat) == big_value(d) * bb[r],
        decreases i,
    {
        i -= 1;
        let ghost x0 = big_row(x@);
        let ghost d0 = big_value(d);
        assert(uu[i as int][i as int] != 0);
        let piv = big_clone(&u[i][i]);
        let sum = big_dot_upto(&u[i], &x, t);
        let rd = big_mul(&d, &rhs[i]);
        let s = big_sub(&rd, &sum);
        let mut j: usize = i + 1;
        while j < t
            invariant
                i < j <= t,
                x.len() == t,
                x0.len() == t,
                forall|k: int| i < k < j ==> #[trigger] big_value(x@[k]) == big_value(piv) * x0[k],
                forall|k: int| 0 <= k < t && (j <= k || k <= i) ==> #[trigger] big_value(x@[k]) == x0[k],
            decreases t - j,
        {
            let v = big_mul(&x[j], &piv);
            proof {
                assert(big_value(x@[j as int]) == x0[j as int]);
                assert(big_value(v) == big_value(piv) * x0[j as int]) by (nonlinear_arith)
                    requires
                        big_value(v) == big_value(x@[j as int]) * big_value(piv),
                        big_value(x@[j as int]) == x0[j as int],
                ;
            }
            x.set(j, v);
            j += 1;
        }
        let nd = big_mul(&d, &piv);
        let ghost pv = big_value(piv);
        assert(big_value(nd) != 0) by (nonlinear_arith)
            requires
                big_value(nd) == d0 * pv,
                d0 != 0,
                pv != 0,
        ;
        let ghost xs = big_row(x@);
        x.set(i, s);
        proof {
            assert forall|k: int| 0 <= k < t implies #[trigger] xs[k] == pv * x0[k] by {
                if k <= i {
                    assert(x0[k] == 0);
                }
            }
            assert(xs[i as int] == 0);
            assert(big_row(x@) =~= xs.update(i as int, big_value(s)));
            assert forall|r: int| i <= r < t implies #[trigger] dot_n(uu[r], big_row(x@), t as nat) == big_value(nd)
                * bb[r] by {
                lemma_dot_n_scale_vec(uu[r], x0, xs, pv, t as nat);
                lemma_dot_n_update(uu[r], xs, i as int, big_value(s), t as nat);
                let (sv, dx, ndv) = (big_value(s), dot_n(uu[r], x0, t as nat), big_value(nd));
                if r == i {
                    assert(dx == big_value(sum));
                    assert(pv * dx + uu[r][i as int] * (sv - 0) == ndv * bb[r]) by (nonlinear_arith)
                        requires
                            uu[r][i as int] == pv,
                            sv == d0 * bb[r] - dx,
                            ndv == d0 * pv,
                    ;
                } else {
                    assert(uu[r][i as int] == 0);
                    assert(dx == d0 * bb[r]);
                    assert(pv * dx + uu[r][i as int] * (sv - 0) == ndv * bb[r]) by (nonlinear_arith)
                        requires
                            uu[r][i as int] == 0,
                            dx == d0 * bb[r],
                            ndv == d0 * pv,
                    ;
                }
            }
        }
        d = nd;
    }
    (x, d)
}

/// The matrix whose column `c` is `columns[c]`, restricted to its first
/// `d` coordinates: entry `(r, c)` is `columns[c][r]`.
pub open spec fn column_matrix(columns: Seq<Vec<i64>>, d: nat) -> Seq<Seq<int>> {
    Seq::new(d, |r: int| Seq::new(columns.len(), |c: int| columns[c]@[r] as int))
}

/// The vectors are linearly independent: only the zero combination of them
/// vanishes.
pub open spec fn independent(columns: Seq<Vec<i64>>, d: nat) -> bool {
    nonsingular(column_matrix(columns, d), columns.len())
}

/// The square matrix made of the given coordinates of the vectors: entry
/// `(a, b)` is coordinate `rows[a]` of vector `b`.
pub open spec fn row_minor(columns: Seq<Vec<i64>>, rows: Seq<usize>) -> Seq<Seq<int>> {
    Seq::new(rows.len(), |a: int| Seq::new(columns.len(), |b: int| columns[b]@[rows[a] as int] as int))
}

/// For linearly independent vectors of length `d`, the original indices of
/// the `k` pivot rows of an exact elimination (distinct coordinates whose
/// rows carry the rank); `None` when the vectors are linearly dependent.
pub fn independent_rows(columns: &Vec<Vec<i64>>, d: usize) -> (r: Option<Vec<usize>>)
    requires
        forall|c: int| 0 <= c < columns.len() ==> (#[trigger] columns@[c])@.len() == d,
    ensures
        r is Some <==> (columns.len() <= d && independent(columns@, d as nat)),
        r matches Some(rows) ==> rows.len() == columns.len() && (forall|i: int| 0 <= i < rows.len() ==> #[trigger] rows@[i] < d)
            && (forall|i: int, j: int| 0 <= i < j < rows.len() ==> #[trigger] rows@[i] != #[trigger] rows@[j])
            && nonsingular(row_minor(columns@, rows@), columns.len() as nat),
{
    let k = columns.len();
    let ghost m0 = column_matrix(columns@, d as nat);
    if k == 0 {
        proof {
            assert forall|y: Seq<int>| #![trigger kills(m0, y)] y.len() == 0 && kills(m0, y) implies all_zero(y) by {}
        }
        return Some(Vec::new());
    }
    let mut u: Vec<Vec<BigInt>> = Vec::new();
    let mut perm: Vec<usize> = Vec::new();
    let mut r: usize = 0;
    while r < d
        invariant
            r <= d,
            k == columns.len(),
            forall|c: int| 0 <= c < k ==> (#[trigger] columns@[c])@.len() == d,
            m0 == column_matrix(columns@, d as nat),
            u.len() == r,
            perm.len() == r,
            forall|i: int| 0 <= i < r ==> #[trigger] perm@[i] == i,
            forall|i: int| 0 <= i < r ==> #[trigger] big_rows(u@)[i] == m0[i],
        decreases d - r,
    {
        let mut row: Vec<BigInt> = Vec::new();
        let mut c: usize = 0;
        while c < k
            invariant
                c <= k,
                r < d,
                k == columns.len(),
                forall|q: int| 0 <= q < k ==> (#[trigger] columns@[q])@.len() == d,
                row.len() == c,
                forall|q: int| 0 <= q < c ==> #[trigger] big_value(row@[q]) == columns@[q]@[r as int] as int,
            decreases k - c,
        {
            row.push(big_from(columns[c][r]));
            c += 1;
        }
        assert(big_row(row@) =~= m0[r as int]);
        let ghost prev = big_rows(u@);
        u.push(row);
        assert(big_rows(u@) =~= prev.push(big_row(row@)));
        perm.push(r);
        r += 1;
    }
    assert(big_rows(u@) =~= m0);
    let ghost p0 = perm@;
    match big_reduce(&mut u, &mut perm, d, k) {
        Reduction::Triangular => {
            proof {
                let uu = big_rows(u@);
                assert forall|y: Seq<int>| #![trigger kills(m0, y)] y.len() == k && kills(m0, y) implies all_zero(y) by {
                    assert(kills(uu, y));
                    assert forall|i: int| 0 <= i < k implies #[trigger] dot_n(uu[i], y, k as nat) == 0 by {
                        assert(uu[i].len() == k);
                        assert(dot(uu[i], y) == 0);
                    }
                    lemma_triangular_kernel(uu, k as nat, y);
                }
            }
            let mut rows: Vec<usize> = Vec::new();
            let mut i: usize = 0;
            while i < k
                invariant
                    i <= k,
                    k <= d,
                    perm.len() == d,
                    rows@ == perm@.take(i as int),
                decreases k - i,
            {
                rows.push(perm[i]);
                i += 1;
            }
            proof {
                assert forall|i2: int| 0 <= i2 < rows.len() implies #[trigger] rows@[i2] < d by {
                    assert(p0.contains(perm@[i2]));
                }
                assert forall|a: int, b: int| 0 <= a < b < rows.len() implies #[trigger] rows@[a] != #[trigger] rows@[b] by {
                    assert(perm@[a] != perm@[b]);
                }
                let uu = big_rows(u@);
                let mm = row_minor(columns@, rows@);
                assert forall|y: Seq<int>| #![trigger kills(mm, y)] y.len() == k && kills(mm, y) implies all_zero(y) by {
                    assert forall|j: int| 0 <= j < perm@.len() && j < k implies #[trigger] dot(m0[perm@[j] as int], y) == 0 by {
                        assert(p0.contains(perm@[j]));
                        assert(m0[perm@[j] as int] =~= mm[j]);
                        assert(dot(mm[j], y) == 0);
                    }
                    assert forall|i2: int| 0 <= i2 < k implies #[trigger] dot_n(uu[i2], y, k as nat) == 0 by {
                        assert forall|j: int| 0 <= j < perm@.len() && (j < k || j == i2) implies #[trigger] dot(m0[perm@[j] as int], y) == 0 by {
                            assert(dot(m0[perm@[j] as int], y) == 0);
                        }
                        assert(tagged_rows_vanish(m0, perm@, k as int, i2, y));
                        assert(dot(uu[i2], y) == 0);
                        assert(uu[i2].len() == k);
                    }
                    lemma_triangular_kernel(uu, k as nat, y);
                }
            }
            Some(rows)
        },
        Reduction::NoPivot(c) => {
            let mut rhs: Vec<BigInt> = Vec::new();
            let mut j: usize = 0;
            let ghost uu = big_rows(u@);
            assert forall|q: int| 0 <= q < d implies (#[trigger] u@[q])@.len() == k by {
                assert(uu[q].len() == k);
            }
            let zero = big_from(0);
            while j < c
                invariant
                    j <= c,
                    c < k,
                    c <= d,
                    u.len() == d,
                    uu == big_rows(u@),
                    big_value(zero) == 0,
                    forall|q: int| 0 <= q < d ==> (#[trigger] u@[q])@.len() == k,
                    rhs.len() == j,
                    forall|q: int| 0 <= q < j ==> #[trigger] big_row(rhs@)[q] == -uu[q][c as int],
                decreases c - j,
            {
                let v = big_sub(&zero, &u[j][c]);
                let ghost prev = big_row(rhs@);
                rhs.push(v);
                assert(big_row(rhs@) =~= prev.push(big_value(v)));
                j += 1;
            }
            let (x, den) = big_back_substitute(&u, c, &rhs);
            proof {
                let xs = big_row(x@);
                let dv = big_value(den);
                let y = xs.push(dv) + Seq::new((k - c - 1) as nat, |q: int| 0int);
                assert(y.len() == k);
                assert forall|q: int| 0 <= q < d implies #[trigger] dot(uu[q], y) == 0 by {
                    let rr = uu[q];
                    assert(rr.len() == k);
                    lemma_dot_n_zero_tail(rr, y, (c + 1) as nat, k as nat);
                    if q < c {
                        lemma_dot_n_ext(rr, rr, y, xs, c as nat);
                        assert(dot_n(rr, xs, c as nat) == dv * big_row(rhs@)[q]);
                        assert(dot_n(rr, y, (c + 1) as nat) == dot_n(rr, y, c as nat) + rr[c as int] * dv);
                        assert(dv * (-rr[c as int]) + rr[c as int] * dv == 0) by (nonlinear_arith);
                    } else {
                        assert forall|j2: int| 0 <= j2 < c + 1 implies rr[j2] == 0 || y[j2] == 0 by {
                            if j2 < c {
                                assert(uu[q][j2] == 0);
                            }
                        }
                        lemma_dot_n_zero_tail(rr, y, 0, (c + 1) as nat);
                    }
                }
                assert(kills(uu, y));
                assert(kills(m0, y));
                assert(y[c as int] == dv);
                assert(!all_zero(y));
            }
            None
        },
        Reduction::Overflow => None,
    }
}


/// Whether the square system `a` is nonsingular and `a x = b` has a
/// nonnegative rational solution, decided exactly by fraction-free
/// elimination over arbitrary-precision integers.
#[verifier::spinoff_prover]
pub fn big_nonsingular_nonneg_solution(a: &Vec<Vec<i128>>, b: &Vec<i128>) -> (r: bool)
    requires
        a.len() == b.len(),
        forall|i: int| 0 <= i < a.len() ==> (#[trigger] a@[i])@.len() == a.len(),
    ensures
        r == (nonsingular(int_rows(a@), a.len() as nat) && has_nonneg_solution(
            int_rows(a@),
            int_row(b@),
            a.len() as nat,
        )),
{
    let n = a.len();
    let ghost aa = int_rows(a@);
    let ghost bb = int_row(b@);
    let ghost w: nat = (n + 1) as nat;
    if n == 0 {
        proof {
            assert forall|y: Seq<int>| #![trigger kills(aa, y)] y.len() == 0 && kills(aa, y) implies all_zero(y) by {}
            let x0 = Seq::<int>::empty();
            assert(solves(aa, bb, x0, 1));
        }
        return true;
    }
    let mut u: Vec<Vec<BigInt>> = Vec::new();
    let mut perm: Vec<usize> = Vec::new();
    let mut i: usize = 0;
    while i < n
        invariant
            i <= n,
            n == a.len(),
            n == b.len(),
            aa == int_rows(a@),
            bb == int_row(b@),
            w == n + 1,
            forall|k: int| 0 <= k < n ==> (#[trigger] a@[k])@.len() == n,
            u.len() == i,
            perm.len() == i,
            forall|k: int| 0 <= k < i ==> #[trigger] perm@[k] == k,
            forall|k: int| 0 <= k < i ==> #[trigger] big_rows(u@)[k] == aa[k].push(bb[k]),
        decreases n - i,
    {
        let mut row: Vec<BigInt> = Vec::new();
        let mut j: usize = 0;
        while j < n
            invariant
                j <= n,
                i < n,
                n == a.len(),
                a@[i as int]@.len() == n,
                row.len() == j,
                forall|q: int| 0 <= q < j ==> #[trigger] big_value(row@[q]) == a@[i as int]@[q] as int,
            decreases n - j,
        {
            row.push(big_from_i128(a[i][j]));
            j += 1;
        }
        row.push(big_from_i128(b[i]));
        assert(big_row(row@) =~= aa[i as int].push(bb[i as int]));
        let ghost prev = big_rows(u@);
        u.push(row);
        assert(big_rows(u@) =~= prev.push(big_row(row@)));
        perm.push(i);
        i += 1;
    }
    let ghost aug = big_rows(u@);
    assert(aug =~= augmented(aa, bb));
    assert(big_rows(u@)[0].len() == w);
    let wd = u[0].len();
    assert forall|k: int| 0 <= k < n implies (#[trigger] aug[k]).len() == w by {}
    assert(width(aa, n as nat));
    let red = big_reduce(&mut u, &mut perm, n, wd);
    let ghost uu = big_rows(u@);
    assert forall|k: int| 0 <= k < n implies (#[trigger] u@[k])@.len() == w by {
        assert(uu[k].len() == w);
    }
    let c = match red {
        Reduction::NoPivot(c) => c,
        _ => {
            assert(false);
            return false;
        },
    };
    if c < n {
        let mut rhs: Vec<BigInt> = Vec::new();
        let zero = big_from(0);
        let mut j: usize = 0;
        while j < c
            invariant
                j <= c,
                c < n,
                u.len() == n,
                uu == big_rows(u@),
                big_value(zero) == 0,
                forall|q: int| 0 <= q < n ==> (#[trigger] u@[q])@.len() == w,
                w == n + 1,
                rhs.len() == j,
                forall|q: int| 0 <= q < j ==> #[trigger] big_row(rhs@)[q] == -uu[q][c as int],
            decreases c - j,
        {
            let v = big_sub(&zero, &u[j][c]);
            let ghost prev = big_row(rhs@);
            rhs.push(v);
            assert(big_row(rhs@) =~= prev.push(big_value(v)));
            j += 1;
        }
        let (x, den) = big_back_substitute(&u, c, &rhs);
        proof {
            let xs = big_row(x@);
            let dv = big_value(den);
            let y = xs.push(dv) + Seq::new((n - c) as nat, |q: int| 0int);
            assert(y.len() == w);
            assert forall|q: int| 0 <= q < n implies #[trigger] dot(uu[q], y) == 0 by {
                let rr = uu[q];
                lemma_dot_n_zero_tail(rr, y, (c + 1) as nat, w);
                if q < c {
                    lemma_dot_n_ext(rr, rr, y, xs, c as nat);
                    assert(dot_n(rr, xs, c as nat) == dv * big_row(rhs@)[q]);
                    assert(dot_n(rr, y, (c + 1) as nat) == dot_n(rr, y, c as nat) + rr[c as int] * dv);
                    assert(dv * (-rr[c as int]) + rr[c as int] * dv == 0) by (nonlinear_arith);
                } else {
                    assert forall|j2: int| 0 <= j2 < c + 1 implies rr[j2] == 0 || y[j2] == 0 by {
                        if j2 < c {
                            assert(uu[q][j2] == 0);
                        }
                    }
                    lemma_dot_n_zero_tail(rr, y, 0, (c + 1) as nat);
                }
            }
            assert(kills(uu, y));
            assert(kills(aug, y));
            let z = y.take(n as int);
            assert(y =~= z.push(0));
            assert forall|q: int| 0 <= q < aa.len() implies #[trigger] dot(aa[q], z) == 0 by {
                assert(dot(aug[q], y) == 0);
                assert(aug[q] == aa[q].push(bb[q]));
                assert(aa[q].len() == n);
                assert(z.len() == n);
                lemma_dot_push(aa[q], bb[q], z, 0, n as nat);
                assert(dot(aa[q].push(bb[q]), z.push(0)) == dot(aa[q], z) + bb[q] * 0);
            }
            assert(kills(aa, z));
            assert(z[c as int] == dv);
            assert(!all_zero(z));
        }
        return false;
    }
    assert(triangular_upto(uu, n as int));
    let mut rhs: Vec<BigInt> = Vec::new();
    let mut j: usize = 0;
    while j < n
        invariant
            j <= n,
            u.len() == n,
            uu == big_rows(u@),
            forall|q: int| 0 <= q < n ==> (#[trigger] u@[q])@.len() == w,
            w == n + 1,
            rhs.len() == j,
            forall|q: int| 0 <= q < j ==> #[trigger] big_row(rhs@)[q] == uu[q][n as int],
        decreases n - j,
    {
        let v = big_clone(&u[j][n]);
        let ghost prev = big_row(rhs@);
        rhs.push(v);
        assert(big_row(rhs@) =~= prev.push(big_value(v)));
        j += 1;
    }
    let (x, den) = big_back_substitute(&u, n, &rhs);
    let ghost xs = big_row(x@);
    let ghost dv = big_value(den);
    proof {
        let y = xs.push(-dv);
        assert forall|q: int| 0 <= q < n implies #[trigger] dot(uu[q], y) == 0 by {
            let rr = uu[q];
            assert(rr =~= rr.take(n as int).push(rr[n as int]));
            lemma_dot_push(rr.take(n as int), rr[n as int], xs, -dv, n as nat);
            lemma_dot_n_ext(rr.take(n as int), rr, xs, xs, n as nat);
            assert(dot_n(rr, xs, n as nat) == dv * big_row(rhs@)[q]);
            assert(dv * rr[n as int] + rr[n as int] * (-dv) == 0) by (nonlinear_arith);
        }
        assert(kills(uu, y));
        assert(kills(aug, y));
        assert forall|q: int| 0 <= q < aa.len() implies #[trigger] dot(aa[q], xs) == dv * bb[q] by {
            assert(dot(aug[q], y) == 0);
            lemma_dot_push(aa[q], bb[q], xs, -dv, n as nat);
            assert(bb[q] * (-dv) == -(dv * bb[q])) by (nonlinear_arith);
        }
        assert(solves(aa, bb, xs, dv));
        assert forall|z: Seq<int>| #![trigger kills(aa, z)] z.len() == n && kills(aa, z) implies all_zero(z) by {
            let y2 = z.push(0);
            assert forall|q: int| 0 <= q < aug.len() implies #[trigger] dot(aug[q], y2) == 0 by {
                lemma_dot_push(aa[q], bb[q], z, 0, n as nat);
                assert(dot(aa[q], z) == 0);
            }
            assert(kills(aug, y2));
            assert(kills(uu, y2));
            assert forall|q: int| 0 <= q < n implies #[trigger] dot_n(uu[q], z, n as nat) == 0 by {
                let rr = uu[q];
                assert(dot(uu[q], y2) == 0);
                assert(rr.len() == w);
                assert(rr =~= rr.take(n as int).push(rr[n as int]));
                lemma_dot_push(rr.take(n as int), rr[n as int], z, 0, n as nat);
                lemma_dot_n_ext(rr.take(n as int), rr, z, z, n as nat);
                assert(rr[n as int] * 0 == 0);
                assert(dot(rr.take(n as int), z) == dot_n(rr, z, n as nat));
            }
            lemma_triangular_kernel(uu, n as nat, z);
        }
        assert(nonsingular(aa, n as nat));
    }
    let ghost x2 = Seq::new(n as nat, |q: int| xs[q] * dv);
    let ghost d2 = dv * dv;
    proof {
        assert(d2 > 0) by (nonlinear_arith)
            requires
                dv != 0,
                d2 == dv * dv,
        ;
        assert forall|q: int| 0 <= q < aa.len() implies #[trigger] dot(aa[q], x2) == d2 * bb[q] by {
            assert forall|k: int| 0 <= k < n implies #[trigger] x2[k] == dv * xs[k] by {
                assert(xs[k] * dv == dv * xs[k]) by (nonlinear_arith);
            }
            lemma_dot_n_scale_vec(aa[q], xs, x2, dv, n as nat);
            assert(aa[q].len() == n);
            assert(dot(aa[q], xs) == dv * bb[q]);
            assert(dv * (dv * bb[q]) == d2 * bb[q]) by (nonlinear_arith)
                requires
                    d2 == dv * dv,
            ;
        }
        assert(solves(aa, bb, x2, d2));
    }
    let mut ok = true;
    let mut j: usize = 0;
    while j < n
        invariant
            j <= n,
            x.len() == n,
            xs == big_row(x@),
            dv == big_value(den),
            x2 == Seq::new(n as nat, |q: int| xs[q] * dv),
            ok == (forall|q: int| 0 <= q < j ==> #[trigger] x2[q] >= 0),
        decreases n - j,
    {
        let p = big_mul(&x[j], &den);
        assert(xs[j as int] == big_value(x@[j as int]));
        assert(x2[j as int] == big_value(p));
        if big_is_negative(&p) {
            ok = false;
        }
        j += 1;
    }
    proof {
        if ok {
            assert(has_nonneg_solution(aa, bb, n as nat)) by {
                assert(solves(aa, bb, x2, d2));
            }
        } else {
            let q = choose|q: int| 0 <= q < n && #[trigger] x2[q] < 0;
            if has_nonneg_solution(aa, bb, n as nat) {
                let (y2, e2) = choose|y2: Seq<int>, e2: int|
                    #![trigger solves(aa, bb, y2, e2)]
                    e2 > 0 && y2.len() == n && (forall|j2: int| 0 <= j2 < n ==> #[trigger] y2[j2] >= 0)
                        && solves(aa, bb, y2, e2);
                lemma_unique_solution(aa, bb, n as nat, x2, d2, y2, e2);
                assert(e2 * x2[q] == d2 * y2[q]);
                assert(y2[q] >= 0);
                assert(false) by (nonlinear_arith)
                    requires
                        e2 * x2[q] == d2 * y2[q],
                        e2 > 0,
                        d2 > 0,
                        x2[q] < 0,
                        y2[q] >= 0,
                ;
            }
        }
    }
    ok
}

} // verus!
