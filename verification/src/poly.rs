//! Polynomials over the scalar field: evaluation, and Lagrange interpolation at zero.
//!
//! A polynomial is a sequence of integer coefficients, lowest degree first.
//! Congruence modulo the field order is written with `% fq()`.

use vstd::prelude::*;
use vstd::arithmetic::power::pow;
use vstd::arithmetic::div_mod::*;
use crate::field::{lemma_value_bound, modulus, Fr, fr_add, fr_from_u64, fr_invert, fr_mul, fr_pow, fr_sub, fr_zero};

verus! {

/// The field order as an integer.
pub open spec fn fq() -> int {
    modulus() as int
}

/// `c[0] + c[1]*x + ... + c[n-1]*x^(n-1)`, evaluated by Horner's rule.
pub open spec fn poly_eval(c: Seq<int>, x: int) -> int
    decreases c.len(),
{
    if c.len() == 0 {
        0
    } else {
        c[0] + x * poly_eval(c.drop_first(), x)
    }
}

/// The sum of the first `k` terms `c[j] * x^j`.
pub open spec fn power_sum(c: Seq<int>, x: int, k: nat) -> int
    decreases k,
{
    if k == 0 {
        0
    } else {
        power_sum(c, x, (k - 1) as nat) + c[k - 1] * pow(x, (k - 1) as nat)
    }
}

/// Dividing `c(X)` by `X - a` (synthetic division): the quotient's coefficients.
pub open spec fn poly_div(c: Seq<int>, a: int) -> Seq<int>
    decreases c.len(),
{
    if c.len() <= 1 {
        Seq::empty()
    } else {
        seq![poly_eval(c.drop_first(), a)] + poly_div(c.drop_first(), a)
    }
}

/// `s * c(X)`.
pub open spec fn poly_scale(c: Seq<int>, s: int) -> Seq<int> {
    c.map_values(|v: int| v * s)
}

/// `c(X) + d(X)`.
pub open spec fn poly_add(c: Seq<int>, d: Seq<int>) -> Seq<int>
    decreases c.len() + d.len(),
{
    if c.len() == 0 {
        d
    } else if d.len() == 0 {
        c
    } else {
        seq![c[0] + d[0]] + poly_add(c.drop_first(), d.drop_first())
    }
}

/// `(a0 + a1 * X) * c(X)`.
pub open spec fn poly_mul_linear(c: Seq<int>, a0: int, a1: int) -> Seq<int> {
    poly_add(poly_scale(c, a0), seq![0int] + poly_scale(c, a1))
}

/// `b` is a multiplicative inverse of `a` modulo the field order.
pub open spec fn is_inverse(a: int, b: int) -> bool {
    (a * b) % fq() == 1
}

/// `a` has a multiplicative inverse modulo the field order.
pub open spec fn invertible(a: int) -> bool {
    exists|b: int| #[trigger] is_inverse(a, b)
}

/// The inverse of `a` modulo the field order, as a number in `[0, fq())`.
pub open spec fn inverse(a: int) -> int {
    choose|b: int| 0 <= b < fq() && is_inverse(a, b)
}

proof fn lemma_fq_pos()
    ensures
        fq() > 1,
{
}

proof fn lemma_seq_cons_drop(h: int, t: Seq<int>)
    ensures
        (seq![h] + t).drop_first() =~= t,
        (seq![h] + t)[0] == h,
        (seq![h] + t).len() == t.len() + 1,
{
}

/// Horner evaluation and the sum of powers agree.
pub proof fn lemma_power_sum_is_eval(c: Seq<int>, x: int)
    ensures
        power_sum(c, x, c.len()) == poly_eval(c, x),
    decreases c.len(),
{
    if c.len() > 0 {
        lemma_power_sum_is_eval(c.drop_first(), x);
        lemma_power_sum_shift(c, x, c.len());
    }
}

proof fn lemma_power_sum_shift(c: Seq<int>, x: int, k: nat)
    requires
        1 <= k <= c.len(),
    ensures
        power_sum(c, x, k) == c[0] + x * power_sum(c.drop_first(), x, (k - 1) as nat),
    decreases k,
{
    reveal(pow);
    let d = c.drop_first();
    if k == 1 {
        assert(pow(x, 0) == 1);
        assert(power_sum(c, x, 0) == 0);
        assert(power_sum(d, x, 0) == 0);
    } else {
        lemma_power_sum_shift(c, x, (k - 1) as nat);
        let a = power_sum(d, x, (k - 2) as nat);
        let t = d[k - 2];
        let p = pow(x, (k - 2) as nat);
        assert(c[k - 1] == t);
        assert(pow(x, (k - 1) as nat) == x * p);
        assert(power_sum(d, x, (k - 1) as nat) == a + t * p);
        assert(c[0] + x * a + t * (x * p) == c[0] + x * (a + t * p)) by (nonlinear_arith);
    }
}

/// Synthetic division: `c(z) == (z - a) * q(z) + c(a)` for the quotient `q`.
pub proof fn lemma_poly_div(c: Seq<int>, a: int, z: int)
    requires
        c.len() >= 1,
    ensures
        poly_div(c, a).len() == c.len() - 1,
        poly_eval(c, z) == (z - a) * poly_eval(poly_div(c, a), z) + poly_eval(c, a),
    decreases c.len(),
{
    let d = c.drop_first();
    if c.len() == 1 {
        assert(poly_eval(d, z) == 0);
        assert(poly_eval(d, a) == 0);
        assert(poly_eval(poly_div(c, a), z) == 0);
    } else {
        lemma_poly_div(d, a, z);
        let qd = poly_div(d, a);
        let r = poly_eval(d, a);
        lemma_seq_cons_drop(r, qd);
        let q = poly_div(c, a);
        assert(q == seq![r] + qd);
        assert(poly_eval(q, z) == r + z * poly_eval(qd, z));
        let e = poly_eval(qd, z);
        assert(poly_eval(d, z) == (z - a) * e + r);
        assert(poly_eval(c, z) == c[0] + z * poly_eval(d, z));
        assert(poly_eval(c, a) == c[0] + a * r);
        assert(c[0] + z * ((z - a) * e + r) == (z - a) * (r + z * e) + (c[0] + a * r))
            by (nonlinear_arith);
    }
}

/// If `a * b` is 1 and `a * v` is 0 modulo the order, then `v` is 0 modulo the order.
proof fn lemma_cancel(a: int, b: int, v: int)
    requires
        (a * b) % fq() == 1,
        (a * v) % fq() == 0,
    ensures
        v % fq() == 0,
{
    let m = fq();
    lemma_mul_mod_noop_left(a * b, v, m);
    assert(((a * b) % m) * v == v);
    assert((a * b) * v == b * (a * v)) by (nonlinear_arith);
    lemma_mul_mod_noop_right(b, a * v, m);
    assert(b * ((a * v) % m) == 0);
}

/// A polynomial with no more coefficients than it has roots at points whose
/// differences are invertible vanishes everywhere.
pub proof fn lemma_vanishing(c: Seq<int>, xs: Seq<int>, z: int)
    requires
        c.len() <= xs.len(),
        forall|i: int| 0 <= i < xs.len() ==> #[trigger] poly_eval(c, xs[i]) % fq() == 0,
        forall|i: int, j: int|
            0 <= i < xs.len() && 0 <= j < xs.len() && i != j ==> #[trigger] invertible(
                xs[i] - xs[j],
            ),
    ensures
        poly_eval(c, z) % fq() == 0,
    decreases xs.len(),
{
    let m = fq();
    if c.len() == 0 {
        assert(poly_eval(c, z) == 0);
    } else {
        let x0 = xs[0];
        let q = poly_div(c, x0);
        let ys = xs.drop_first();
        lemma_poly_div(c, x0, z);
        assert(poly_eval(c, x0) % m == 0);
        assert forall|i: int| 0 <= i < ys.len() implies #[trigger] poly_eval(q, ys[i]) % m == 0 by {
            lemma_poly_div(c, x0, ys[i]);
            assert(ys[i] == xs[i + 1]);
            assert(poly_eval(c, xs[i + 1]) % m == 0);
            let d = ys[i] - x0;
            assert(invertible(xs[i + 1] - xs[0]));
            let b = choose|b: int| is_inverse(d, b);
            let e = poly_eval(q, ys[i]);
            let r = poly_eval(c, x0);
            assert(poly_eval(c, ys[i]) == d * e + r);
            lemma_add_mod_noop(d * e, r, m);
            assert((d * e) % m == 0) by {
                lemma_mod_bound(d * e, m);
                assert(((d * e) % m + r % m) % m == 0);
                assert(r % m == 0);
                lemma_small_mod(((d * e) % m) as nat, m as nat);
            }
            lemma_cancel(d, b, e);
        }
        assert forall|i: int, j: int|
            0 <= i < ys.len() && 0 <= j < ys.len() && i != j implies #[trigger] invertible(
                ys[i] - ys[j],
            ) by {
            assert(ys[i] == xs[i + 1] && ys[j] == xs[j + 1]);
            assert(invertible(xs[i + 1] - xs[j + 1]));
        }
        lemma_vanishing(q, ys, z);
        let e = poly_eval(q, z);
        let r = poly_eval(c, x0);
        lemma_add_mod_noop((z - x0) * e, r, m);
        lemma_mul_mod_noop_right(z - x0, e, m);
        assert((z - x0) * (e % m) == 0);
    }
}

/// The Lagrange weight of point `i` at `z`, over the first `n` points: the product over
/// positions `p < n` with `xs[p] != xs[i]` of `(xs[p] - z) * inverse(xs[p] - xs[i])`.
pub open spec fn basis_value(xs: Seq<int>, i: int, z: int, n: nat) -> int
    decreases n,
{
    if n == 0 {
        1
    } else if xs[n - 1] != xs[i] {
        basis_value(xs, i, z, (n - 1) as nat) * ((xs[n - 1] - z) * inverse(xs[n - 1] - xs[i]))
    } else {
        basis_value(xs, i, z, (n - 1) as nat)
    }
}

/// The coefficients of the Lagrange basis polynomial whose values `basis_value` gives.
pub open spec fn basis_poly(xs: Seq<int>, i: int, n: nat) -> Seq<int>
    decreases n,
{
    if n == 0 {
        seq![1int]
    } else if xs[n - 1] != xs[i] {
        let v = inverse(xs[n - 1] - xs[i]);
        poly_mul_linear(basis_poly(xs, i, (n - 1) as nat), xs[n - 1] * v, -v)
    } else {
        basis_poly(xs, i, (n - 1) as nat)
    }
}

/// `sum_{i < k} ys[i] * basis_value(xs, i, z, |xs|)`.
pub open spec fn interp_value(xs: Seq<int>, ys: Seq<int>, z: int, k: nat) -> int
    decreases k,
{
    if k == 0 {
        0
    } else {
        interp_value(xs, ys, z, (k - 1) as nat) + ys[k - 1] * basis_value(
            xs,
            k - 1,
            z,
            xs.len(),
        )
    }
}

/// The coefficients of the interpolating polynomial whose values `interp_value` gives.
pub open spec fn interp_poly(xs: Seq<int>, ys: Seq<int>, k: nat) -> Seq<int>
    decreases k,
{
    if k == 0 {
        Seq::empty()
    } else {
        poly_add(
            interp_poly(xs, ys, (k - 1) as nat),
            poly_scale(basis_poly(xs, k - 1, xs.len()), ys[k - 1]),
        )
    }
}

/// Lagrange interpolation at zero of the points `(xs[i], ys[i])`.
pub open spec fn lagrange_at_zero(xs: Seq<int>, ys: Seq<int>) -> int {
    interp_value(xs, ys, 0, xs.len())
}

proof fn lemma_eval_scale(c: Seq<int>, s: int, z: int)
    ensures
        poly_scale(c, s).len() == c.len(),
        poly_eval(poly_scale(c, s), z) == s * poly_eval(c, z),
    decreases c.len(),
{
    if c.len() > 0 {
        lemma_eval_scale(c.drop_first(), s, z);
        assert(poly_scale(c, s).drop_first() =~= poly_scale(c.drop_first(), s));
        let e = poly_eval(c.drop_first(), z);
        assert(c[0] * s + z * (s * e) == s * (c[0] + z * e)) by (nonlinear_arith);
    }
}

proof fn lemma_eval_add(c: Seq<int>, d: Seq<int>, z: int)
    ensures
        poly_add(c, d).len() == if c.len() >= d.len() { c.len() } else { d.len() },
        poly_eval(poly_add(c, d), z) == poly_eval(c, z) + poly_eval(d, z),
    decreases c.len() + d.len(),
{
    if c.len() > 0 && d.len() > 0 {
        lemma_eval_add(c.drop_first(), d.drop_first(), z);
        let t = poly_add(c.drop_first(), d.drop_first());
        lemma_seq_cons_drop(c[0] + d[0], t);
        let e1 = poly_eval(c.drop_first(), z);
        let e2 = poly_eval(d.drop_first(), z);
        assert(z * (e1 + e2) == z * e1 + z * e2) by (nonlinear_arith);
    }
}

proof fn lemma_eval_mul_linear(c: Seq<int>, a0: int, a1: int, z: int)
    requires
        c.len() >= 1,
    ensures
        poly_mul_linear(c, a0, a1).len() == c.len() + 1,
        poly_eval(poly_mul_linear(c, a0, a1), z) == (a0 + a1 * z) * poly_eval(c, z),
{
    lemma_eval_scale(c, a0, z);
    lemma_eval_scale(c, a1, z);
    let sh = seq![0int] + poly_scale(c, a1);
    lemma_seq_cons_drop(0int, poly_scale(c, a1));
    assert(poly_eval(sh, z) == 0 + z * poly_eval(poly_scale(c, a1), z));
    lemma_eval_add(poly_scale(c, a0), sh, z);
    let e = poly_eval(c, z);
    assert(a0 * e + z * (a1 * e) == (a0 + a1 * z) * e) by (nonlinear_arith);
}

proof fn lemma_basis_poly(xs: Seq<int>, i: int, n: nat, z: int)
    requires
        n <= xs.len(),
        0 <= i < xs.len(),
    ensures
        poly_eval(basis_poly(xs, i, n), z) == basis_value(xs, i, z, n),
        1 <= basis_poly(xs, i, n).len() <= n + 1,
        i < n ==> basis_poly(xs, i, n).len() <= n,
    decreases n,
{
    if n == 0 {
        lemma_seq_cons_drop(1int, Seq::empty());
        assert(poly_eval(Seq::<int>::empty(), z) == 0);
    } else {
        lemma_basis_poly(xs, i, (n - 1) as nat, z);
        if xs[n - 1] != xs[i] {
            let v = inverse(xs[n - 1] - xs[i]);
            let b = basis_poly(xs, i, (n - 1) as nat);
            lemma_eval_mul_linear(b, xs[n - 1] * v, -v, z);
            assert(xs[n - 1] * v + (-v) * z == (xs[n - 1] - z) * v) by (nonlinear_arith);
            let e = poly_eval(b, z);
            assert(((xs[n - 1] - z) * v) * e == e * ((xs[n - 1] - z) * v)) by (nonlinear_arith);
        }
    }
}

proof fn lemma_interp_poly(xs: Seq<int>, ys: Seq<int>, k: nat, z: int)
    requires
        k <= xs.len(),
        k <= ys.len(),
    ensures
        poly_eval(interp_poly(xs, ys, k), z) == interp_value(xs, ys, z, k),
        interp_poly(xs, ys, k).len() <= xs.len(),
    decreases k,
{
    if k > 0 {
        lemma_interp_poly(xs, ys, (k - 1) as nat, z);
        let b = basis_poly(xs, k - 1, xs.len());
        lemma_basis_poly(xs, k - 1, xs.len(), z);
        lemma_eval_scale(b, ys[k - 1], z);
        lemma_eval_add(interp_poly(xs, ys, (k - 1) as nat), poly_scale(b, ys[k - 1]), z);
    }
}

proof fn lemma_inverse_is_inverse(a: int)
    requires
        invertible(a),
    ensures
        0 <= inverse(a) < fq(),
        is_inverse(a, inverse(a)),
{
    let m = fq();
    let b = choose|b: int| #[trigger] is_inverse(a, b);
    let c = b % m;
    lemma_mul_mod_noop_right(a, b, m);
    lemma_mod_bound(b, m);
    assert(is_inverse(a, c));
}

/// Two inverses of the same number in `[0, fq())` coincide.
pub proof fn lemma_inverse_unique(a: int, b1: int, b2: int)
    requires
        is_inverse(a, b1),
        is_inverse(a, b2),
        0 <= b1 < fq(),
        0 <= b2 < fq(),
    ensures
        b1 == b2,
{
    let m = fq();
    lemma_small_mod(b1 as nat, m as nat);
    lemma_small_mod(b2 as nat, m as nat);
    lemma_mul_mod_noop_right(b1, a * b2, m);
    assert(b1 * ((a * b2) % m) == b1);
    assert(b1 * (a * b2) == (a * b1) * b2) by (nonlinear_arith);
    lemma_mul_mod_noop_left(a * b1, b2, m);
    assert(((a * b1) % m) * b2 == b2);
}

/// A product of factors each congruent to one is congruent to one.
proof fn lemma_basis_at_own_point(xs: Seq<int>, i: int, n: nat)
    requires
        n <= xs.len(),
        0 <= i < xs.len(),
        forall|p: int| 0 <= p < n && xs[p] != xs[i] ==> #[trigger] invertible(xs[p] - xs[i]),
    ensures
        basis_value(xs, i, xs[i], n) % fq() == 1,
    decreases n,
{
    let m = fq();
    if n == 0 {
        lemma_small_mod(1, m as nat);
    } else {
        lemma_basis_at_own_point(xs, i, (n - 1) as nat);
        if xs[n - 1] != xs[i] {
            let a = xs[n - 1] - xs[i];
            assert(invertible(a));
            lemma_inverse_is_inverse(a);
            let prev = basis_value(xs, i, xs[i], (n - 1) as nat);
            let f = a * inverse(a);
            lemma_mul_mod_noop(prev, f, m);
            assert((prev % m) * (f % m) == 1);
            lemma_small_mod(1, m as nat);
        }
    }
}

proof fn lemma_basis_at_other_point(xs: Seq<int>, i: int, mi: int, n: nat)
    requires
        n <= xs.len(),
        0 <= i < xs.len(),
        0 <= mi < n,
        xs[mi] != xs[i],
    ensures
        basis_value(xs, i, xs[mi], n) == 0,
    decreases n,
{
    if mi < n - 1 {
        lemma_basis_at_other_point(xs, i, mi, (n - 1) as nat);
        if xs[n - 1] != xs[i] {
            let prev = basis_value(xs, i, xs[mi], (n - 1) as nat);
            let f = (xs[n - 1] - xs[mi]) * inverse(xs[n - 1] - xs[i]);
            assert(prev * f == 0) by (nonlinear_arith)
                requires
                    prev == 0,
            ;
        }
    } else {
        let prev = basis_value(xs, i, xs[mi], (n - 1) as nat);
        let w = inverse(xs[n - 1] - xs[i]);
        assert((xs[n - 1] - xs[mi]) * w == 0) by (nonlinear_arith)
            requires
                xs[n - 1] == xs[mi],
        ;
        assert(prev * 0 == 0);
    }
}

proof fn lemma_interp_at_point(xs: Seq<int>, ys: Seq<int>, mi: int, k: nat)
    requires
        k <= xs.len(),
        xs.len() == ys.len(),
        0 <= mi < xs.len(),
        forall|i: int, j: int|
            0 <= i < xs.len() && 0 <= j < xs.len() && i != j ==> xs[i] != xs[j],
        forall|i: int, j: int|
            0 <= i < xs.len() && 0 <= j < xs.len() && i != j ==> #[trigger] invertible(
                xs[i] - xs[j],
            ),
    ensures
        interp_value(xs, ys, xs[mi], k) % fq() == (if mi < k {
            ys[mi]
        } else {
            0
        }) % fq(),
    decreases k,
{
    let m = fq();
    if k > 0 {
        lemma_interp_at_point(xs, ys, mi, (k - 1) as nat);
        let prev = interp_value(xs, ys, xs[mi], (k - 1) as nat);
        let b = basis_value(xs, k - 1, xs[mi], xs.len());
        let t = ys[k - 1] * b;
        lemma_add_mod_noop(prev, t, m);
        if k - 1 == mi {
            assert forall|p: int| 0 <= p < xs.len() && xs[p] != xs[mi] implies #[trigger] invertible(
                xs[p] - xs[mi],
            ) by {
                assert(p != mi);
            }
            lemma_basis_at_own_point(xs, mi, xs.len());
            lemma_mul_mod_noop_right(ys[mi], b, m);
            assert(prev % m == 0);
            lemma_mod_twice(t, m);
            lemma_mod_bound(t, m);
        } else {
            assert(xs[mi] != xs[k - 1]);
            lemma_basis_at_other_point(xs, k - 1, mi, xs.len());
            assert(t == 0) by (nonlinear_arith)
                requires
                    b == 0,
                    t == ys[k - 1] * b,
            ;
            lemma_mod_twice(prev, m);
            lemma_mod_bound(prev, m);
        }
    }
}

/// Lagrange interpolation at zero recovers the constant term: if `ys[i]` is the value
/// of a polynomial with at most `|xs|` coefficients at `xs[i]`, for distinct points whose
/// differences are invertible, then the interpolated value at zero is the polynomial's
/// value at zero, modulo the field order.
pub proof fn lemma_lagrange_recovers_constant(xs: Seq<int>, ys: Seq<int>, c: Seq<int>)
    requires
        xs.len() == ys.len(),
        c.len() <= xs.len(),
        forall|i: int, j: int|
            0 <= i < xs.len() && 0 <= j < xs.len() && i != j ==> xs[i] != xs[j],
        forall|i: int, j: int|
            0 <= i < xs.len() && 0 <= j < xs.len() && i != j ==> #[trigger] invertible(
                xs[i] - xs[j],
            ),
        forall|i: int| 0 <= i < xs.len() ==> #[trigger] ys[i] % fq() == poly_eval(c, xs[i]) % fq(),
    ensures
        lagrange_at_zero(xs, ys) % fq() == poly_eval(c, 0) % fq(),
{
    let m = fq();
    let n = xs.len();
    let l = interp_poly(xs, ys, n);
    let neg_l = poly_scale(l, -1);
    let d = poly_add(c, neg_l);
    lemma_interp_poly(xs, ys, n, 0);
    lemma_eval_scale(l, -1, 0);
    lemma_eval_add(c, neg_l, 0);
    assert forall|i: int| 0 <= i < xs.len() implies #[trigger] poly_eval(d, xs[i]) % m == 0 by {
        lemma_interp_poly(xs, ys, n, xs[i]);
        lemma_eval_scale(l, -1, xs[i]);
        lemma_eval_add(c, neg_l, xs[i]);
        lemma_interp_at_point(xs, ys, i, n);
        let lv = poly_eval(l, xs[i]);
        let cv = poly_eval(c, xs[i]);
        assert(poly_eval(d, xs[i]) == cv - lv);
        lemma_sub_mod_noop(cv, lv, m);
        assert(lv % m == ys[i] % m);
        assert(cv % m - lv % m == 0);
    }
    lemma_vanishing(d, xs, 0);
    let lz = poly_eval(l, 0);
    let cz = poly_eval(c, 0);
    assert(poly_eval(d, 0) == cz - lz);
    lemma_mod_equivalence(cz, lz, m);
}

/// The sum of several polynomials.
pub open spec fn poly_sum(cs: Seq<Seq<int>>) -> Seq<int>
    decreases cs.len(),
{
    if cs.len() == 0 {
        Seq::empty()
    } else {
        poly_add(poly_sum(cs.drop_last()), cs.last())
    }
}

/// The sum of several polynomials' values at `x`.
pub open spec fn eval_sum(cs: Seq<Seq<int>>, x: int) -> int
    decreases cs.len(),
{
    if cs.len() == 0 {
        0
    } else {
        eval_sum(cs.drop_last(), x) + poly_eval(cs.last(), x)
    }
}

proof fn lemma_poly_sum(cs: Seq<Seq<int>>, bound: nat, x: int)
    requires
        forall|d: int| 0 <= d < cs.len() ==> (#[trigger] cs[d]).len() <= bound,
    ensures
        poly_sum(cs).len() <= bound,
        poly_eval(poly_sum(cs), x) == eval_sum(cs, x),
    decreases cs.len(),
{
    if cs.len() > 0 {
        let t = cs.drop_last();
        assert forall|d: int| 0 <= d < t.len() implies (#[trigger] t[d]).len() <= bound by {
            assert(t[d] == cs[d]);
        }
        lemma_poly_sum(t, bound, x);
        assert(cs.last() == cs[cs.len() - 1]);
        lemma_eval_add(poly_sum(t), cs.last(), x);
    }
}

/// Shares that are sums of several dealers' shares reconstruct the sum of the dealers'
/// secrets: if each `ys[i]` is the sum of the dealers' polynomials at `xs[i]`, each
/// polynomial having at most `|xs|` coefficients, then for distinct points whose
/// differences are invertible, Lagrange interpolation at zero gives the sum of the
/// polynomials' values at zero, modulo the field order.
pub proof fn lemma_combined_shares_recover_sum(xs: Seq<int>, ys: Seq<int>, cs: Seq<Seq<int>>)
    requires
        xs.len() == ys.len(),
        forall|d: int| 0 <= d < cs.len() ==> (#[trigger] cs[d]).len() <= xs.len(),
        forall|i: int, j: int|
            0 <= i < xs.len() && 0 <= j < xs.len() && i != j ==> xs[i] != xs[j],
        forall|i: int, j: int|
            0 <= i < xs.len() && 0 <= j < xs.len() && i != j ==> #[trigger] invertible(
                xs[i] - xs[j],
            ),
        forall|i: int| 0 <= i < xs.len() ==> #[trigger] ys[i] % fq() == eval_sum(cs, xs[i]) % fq(),
    ensures
        lagrange_at_zero(xs, ys) % fq() == eval_sum(cs, 0) % fq(),
{
    let c = poly_sum(cs);
    lemma_poly_sum(cs, xs.len(), 0);
    assert forall|i: int| 0 <= i < xs.len() implies #[trigger] ys[i] % fq() == poly_eval(
        c,
        xs[i],
    ) % fq() by {
        lemma_poly_sum(cs, xs.len(), xs[i]);
    }
    lemma_lagrange_recovers_constant(xs, ys, c);
}

/// The values of a sequence of field elements, as integers.
pub open spec fn fr_values(s: Seq<Fr>) -> Seq<int> {
    s.map_values(|f: Fr| f@ as int)
}

/// The indices of `(index, share)` pairs, as integers.
pub open spec fn share_indices(s: Seq<(u64, Fr)>) -> Seq<int> {
    s.map_values(|p: (u64, Fr)| p.0 as int)
}

/// The share values of `(index, share)` pairs, as integers.
pub open spec fn share_values(s: Seq<(u64, Fr)>) -> Seq<int> {
    s.map_values(|p: (u64, Fr)| p.1@ as int)
}

/// The polynomial with coefficients `coeffs` evaluated at `i`, in the field.
pub fn evaluate_polynomial(coeffs: &[Fr], i: u64) -> (res: Fr)
    ensures
        res@ == poly_eval(fr_values(coeffs@), i as int) % fq(),
{
    let ghost cs = fr_values(coeffs@);
    let ghost m = fq();
    let x = fr_from_u64(i);
    let mut result = fr_zero();
    proof {
        lemma_small_mod(0, m as nat);
    }
    for j in 0..coeffs.len()
        invariant
            cs == fr_values(coeffs@),
            m == fq(),
            x@ == i,
            result@ == power_sum(cs, i as int, j as nat) % m,
    {
        let p = fr_pow(&x, j as u64);
        let term = fr_mul(&coeffs[j], &p);
        let ghost old_result = result@;
        result = fr_add(&result, &term);
        proof {
            let c = cs[j as int];
            let pw = pow(i as int, j as nat);
            let ps = power_sum(cs, i as int, j as nat);
            assert(coeffs@[j as int]@ == c);
            lemma_mul_mod_noop_right(c, pw, m);
            assert(term@ == (c * pw) % m);
            lemma_add_mod_noop(ps, c * pw, m);
            lemma_mod_twice(ps, m);
            lemma_mod_twice(c * pw, m);
            assert(power_sum(cs, i as int, (j + 1) as nat) == ps + c * pw);
        }
    }
    proof {
        lemma_power_sum_is_eval(cs, i as int);
    }
    result
}

proof fn lemma_u64_difference_nonzero(j: u64, i: u64)
    requires
        j != i,
    ensures
        (j - i) % fq() != 0,
        (j - i) % fq() == ((j as int) - (i as int)) % fq(),
{
    let m = fq();
    let d = (j as int) - (i as int);
    assert(m > 0x1_0000_0000_0000_0000);
    if d > 0 {
        lemma_small_mod(d as nat, m as nat);
    } else {
        lemma_fundamental_div_mod_converse_mod(d, m, -1, d + m);
    }
}

/// Lagrange interpolation at zero of `(index, share)` pairs, in the field: the sum over
/// the pairs of `share_i * prod_j (j / (j - i))`, the product running over the pairs whose
/// index `j` differs from `i`.
///
/// When the indices are distinct and the shares are the values of a polynomial with at
/// most as many coefficients as there are pairs, the result is that polynomial's value
/// at zero (its constant term).
pub fn interpolate_at_zero(shares: &[(u64, Fr)]) -> (res: Fr)
    ensures
        res@ == lagrange_at_zero(share_indices(shares@), share_values(shares@)) % fq(),
        forall|c: Seq<int>|
            c.len() <= shares@.len() && (forall|a: int, b: int|
                0 <= a < shares@.len() && 0 <= b < shares@.len() && a != b ==> shares@[a].0
                    != shares@[b].0) && (forall|a: int|
                0 <= a < shares@.len() ==> (#[trigger] shares@[a].1@ as int) % fq() == poly_eval(
                    c,
                    shares@[a].0 as int,
                ) % fq()) ==> res@ == poly_eval(c, 0) % fq(),
{
    let ghost xs = share_indices(shares@);
    let ghost ys = share_values(shares@);
    let ghost m = fq();
    let n = shares.len();
    let mut secret = fr_zero();
    proof {
        lemma_small_mod(0, m as nat);
    }
    for a in 0..n
        invariant
            n == shares@.len(),
            xs == share_indices(shares@),
            ys == share_values(shares@),
            m == fq(),
            secret@ == interp_value(xs, ys, 0, a as nat) % m,
            forall|a2: int, b2: int|
                0 <= a2 < a && 0 <= b2 < n && xs[b2] != xs[a2] ==> #[trigger] invertible(
                    xs[b2] - xs[a2],
                ),
    {
        let (i, share) = shares[a];
        let mut term = share;
        proof {
            use_type_invariant(&share);
            lemma_value_bound(share);
            lemma_small_mod(share@, m as nat);
            assert(basis_value(xs, a as int, 0, 0) == 1);
        }
        for b in 0..n
            invariant
                n == shares@.len(),
                xs == share_indices(shares@),
                ys == share_values(shares@),
                m == fq(),
                0 <= a < n,
                i == shares@[a as int].0,
                xs[a as int] == i,
                ys[a as int] == share@,
                term@ == (ys[a as int] * basis_value(xs, a as int, 0, b as nat)) % m,
                forall|b2: int|
                    0 <= b2 < b && xs[b2] != xs[a as int] ==> #[trigger] invertible(
                        xs[b2] - xs[a as int],
                    ),
        {
            let (j, _) = shares[b];
            proof {
                assert(xs[b as int] == j);
            }
            if j != i {
                let num = fr_from_u64(j);
                let den = fr_sub(&num, &fr_from_u64(i));
                proof {
                    lemma_u64_difference_nonzero(j, i);
                }
                match fr_invert(&den) {
                    Some(inv) => {
                        let f = fr_mul(&num, &inv);
                        let ghost old_term = term@;
                        term = fr_mul(&term, &f);
                        proof {
                            let d = (j as int) - (i as int);
                            use_type_invariant(&inv);
                            lemma_value_bound(inv);
                            lemma_mul_mod_noop_left(d, inv@ as int, m);
                            assert(is_inverse(d, inv@ as int));
                            assert(invertible(d));
                            lemma_inverse_is_inverse(d);
                            lemma_inverse_unique(d, inv@ as int, inverse(d));
                            let bv = basis_value(xs, a as int, 0, b as nat);
                            let y = ys[a as int];
                            let w = (j as int) * inverse(d);
                            assert(f@ == w % m);
                            assert(basis_value(xs, a as int, 0, (b + 1) as nat) == bv * ((
                            xs[b as int] - 0) * inverse(xs[b as int] - xs[a as int])));
                            assert(basis_value(xs, a as int, 0, (b + 1) as nat) == bv * w);
                            lemma_mul_mod_noop(y * bv, w, m);
                            lemma_mod_twice(y * bv, m);
                            lemma_mod_twice(w, m);
                            lemma_mul_mod_noop(old_term as int, f@ as int, m);
                            assert((y * bv) * w == y * (bv * w)) by (nonlinear_arith);
                        }
                    },
                    None => {
                        proof {
                            assert(false);
                        }
                    },
                }
            }
        }
        let ghost old_secret = secret@;
        secret = fr_add(&secret, &term);
        proof {
            let t = ys[a as int] * basis_value(xs, a as int, 0, n as nat);
            let prev = interp_value(xs, ys, 0, a as nat);
            assert(xs.len() == n);
            lemma_add_mod_noop(prev, t, m);
            lemma_mod_twice(prev, m);
            lemma_mod_twice(t, m);
            assert(interp_value(xs, ys, 0, (a + 1) as nat) == prev + t);
        }
    }
    proof {
        assert forall|c: Seq<int>|
            c.len() <= shares@.len() && (forall|a: int, b: int|
                0 <= a < shares@.len() && 0 <= b < shares@.len() && a != b ==> shares@[a].0
                    != shares@[b].0) && (forall|a: int|
                0 <= a < shares@.len() ==> (#[trigger] shares@[a].1@ as int) % fq() == poly_eval(
                    c,
                    shares@[a].0 as int,
                ) % fq()) implies secret@ == poly_eval(c, 0) % fq() by {
            assert forall|i2: int, j2: int|
                0 <= i2 < xs.len() && 0 <= j2 < xs.len() && i2 != j2 implies #[trigger] invertible(
                xs[i2] - xs[j2]) by {
                assert(shares@[i2].0 != shares@[j2].0);
            }
            assert forall|i2: int| 0 <= i2 < xs.len() implies #[trigger] ys[i2] % fq() == poly_eval(
                c,
                xs[i2],
            ) % fq() by {
                assert((shares@[i2].1@ as int) % fq() == poly_eval(c, shares@[i2].0 as int) % fq());
            }
            lemma_lagrange_recovers_constant(xs, ys, c);
            lemma_mod_twice(lagrange_at_zero(xs, ys), m);
        }
    }
    secret
}

} // verus!
