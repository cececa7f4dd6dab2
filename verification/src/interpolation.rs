//! Exactness of Lagrange interpolation through the nodes `0, 1, ..., n - 1`
//! for `n <= 6`: the interpolated value at any point of a polynomial with at
//! most `n` coefficients, given by its values at the nodes, is its value.
use crate::coefficients::{lemma_padd, padd, peval};
use crate::field::{congruent, fmul, fsub, lemma_congruent_ops, lemma_ops_congruent, modulus};
use crate::unipoly::{basis_upto, finv, lagrange_eval, lagrange_sum};
use vstd::prelude::*;

verus! {
/// `prod_{k < n, k != j} (j - k)`.
pub open spec fn diff_prod(j: nat, n: nat) -> int
    decreases n,
{
    if n == 0 {
        1
    } else {
        let k = (n - 1) as nat;
        if k == j {
            diff_prod(j, k)
        } else {
            diff_prod(j, k) * (j - k)
        }
    }
}

/// `prod_{k < n, k != j} (r - k)`.
pub open spec fn node_prod(j: nat, r: int, n: nat) -> int
    decreases n,
{
    if n == 0 {
        1
    } else {
        let k = (n - 1) as nat;
        if k == j {
            node_prod(j, r, k)
        } else {
            node_prod(j, r, k) * (r - k)
        }
    }
}

/// One step of clearing denominators: multiplying by `j - k` and by the
/// factor `(r - k) / (j - k)`.
proof fn lemma_scaled_step(d: int, b: int, nd: int, r: int, j: int, k: int, f: int, bnew: int)
    requires
        congruent(d * b, nd),
        congruent(bnew, b * ((r - k) * f)),
        congruent((j - k) * f, 1),
    ensures
        congruent(d * (j - k) * bnew, nd * (r - k)),
{
    lemma_congruent_ops(d * (j - k), bnew, d * (j - k), b * ((r - k) * f));
    assert(d * (j - k) * (b * ((r - k) * f)) == (d * b) * (r - k) * ((j - k) * f)) by (nonlinear_arith);
    lemma_congruent_ops(d * b, r - k, nd, r - k);
    lemma_congruent_ops((d * b) * (r - k), (j - k) * f, nd * (r - k), 1);
}

/// Clearing the denominators of a Lagrange basis value: `L_j(r)` times
/// `prod_{k != j} (j - k)` is `prod_{k != j} (r - k)` modulo the field order.
proof fn lemma_basis_scaled(j: nat, r: nat, n: nat)
    requires
        j <= 5,
        n <= 6,
    ensures
        congruent(diff_prod(j, n) * basis_upto(j, r, n), node_prod(j, r as int, n)),
    decreases n,
{
    if n > 0 {
        let k = (n - 1) as nat;
        lemma_basis_scaled(j, r, k);
        if k != j {
            let b = basis_upto(j, r, k);
            let f = finv(fsub(j, k));
            let rk = fsub(r, k);
            let g = fmul(rk, f);
            lemma_ops_congruent(b, g);
            lemma_ops_congruent(rk, f);
            lemma_ops_congruent(r, k);
            lemma_ops_congruent(j, k);
            lemma_ops_congruent(fsub(j, k), f);
            crate::unipoly::lemma_small_difference_invertible(j, k);
            lemma_congruent_ops(rk as int, f as int, r - k, f as int);
            lemma_congruent_ops(fsub(j, k) as int, f as int, j - k, f as int);
            lemma_congruent_ops(b as int, g as int, b as int, (r - k) * f);
            lemma_scaled_step(diff_prod(j, k), b as int, node_prod(j, r as int, k), r as int, j as int, k as int, f as int,
                basis_upto(j, r, n) as int);
        }
    }
}

/// `sum_{j < m} e[j] * L_j(r)` over the integers.
pub open spec fn lsum(e: Seq<nat>, r: nat, m: nat) -> int
    decreases m,
{
    if m == 0 {
        0
    } else {
        lsum(e, r, (m - 1) as nat) + e[m - 1] as int * basis_upto((m - 1) as nat, r, e.len()) as int
    }
}

proof fn lemma_lagrange_sum_lsum(e: Seq<nat>, r: nat, m: nat)
    requires
        m <= e.len(),
    ensures
        congruent(lagrange_sum(e, r, m) as int, lsum(e, r, m)),
    decreases m,
{
    if m > 0 {
        let k = (m - 1) as nat;
        lemma_lagrange_sum_lsum(e, r, k);
        let b = basis_upto(k, r, e.len());
        let t = fmul(e[k as int], b);
        lemma_ops_congruent(lagrange_sum(e, r, k), t);
        lemma_ops_congruent(e[k as int], b);
        lemma_congruent_ops(lagrange_sum(e, r, k) as int, t as int, lsum(e, r, k), e[k as int] as int * b as int);
    }
}

/// One term of an interpolation sum with its denominator cleared.
proof fn lemma_scaled_term(x: int, y: int, v: int, np: int, diff: int, w: int, dd: int)
    requires
        congruent(x, v),
        congruent(diff * y, np),
        dd == w * diff,
    ensures
        congruent(dd * (x * y), v * (w * np)),
{
    lemma_congruent_ops(w, diff * y, w, np);
    lemma_congruent_ops(x, w * (diff * y), v, w * np);
    assert(dd * (x * y) == x * (w * (diff * y))) by (nonlinear_arith)
        requires
            dd == w * diff,
    ;
}

/// A list of `n` zero coefficients.
pub open spec fn zeros(n: nat) -> Seq<int> {
    Seq::new(n, |i: int| 0int)
}

proof fn lemma_zeros(n: nat, x: int)
    ensures
        peval(zeros(n), x) == 0,
    decreases n,
{
    if n > 0 {
        assert(zeros(n).drop_first() =~= zeros((n - 1) as nat));
        lemma_zeros((n - 1) as nat, x);
    }
}

/// Padding with zero coefficients keeps the polynomial.
proof fn lemma_pad(c: Seq<int>, n: nat, x: int)
    requires
        c.len() <= n,
    ensures
        peval(padd(c, zeros(n)), x) == peval(c, x),
        padd(c, zeros(n)).len() == n,
{
    lemma_padd(c, zeros(n), x);
    lemma_zeros(n, x);
}

/// Interpolation through the 3 nodes `0, ..., 2` is exact for
/// polynomials with at most 3 coefficients.
pub proof fn lemma_lagrange_exact_3(e: Seq<nat>, c: Seq<int>, r: nat)
    requires
        e.len() == 3,
        c.len() <= 3,
        forall|j: int| 0 <= j < 3 ==> congruent(#[trigger] e[j] as int, peval(c, j)),
    ensures
        congruent(lagrange_eval(e, r) as int, peval(c, r as int)),
{
    let ri = r as int;
    let cc = padd(c, zeros(3));
    let s0 = cc;
    let s1 = s0.drop_first();
    let s2 = s1.drop_first();
    let s3 = s2.drop_first();
    let a0 = cc[0];
    let a1 = cc[1];
    let a2 = cc[2];
    assert(s1[0] == a1);
    assert(s2[0] == a2);
    assert(s3.len() == 0);
    assert forall|x: int| #[trigger] peval(cc, x) == a0 + x * (a1 + x * (a2)) by {
        assert(peval(s3, x) == 0);
        assert(peval(s2, x) == s2[0] + x * peval(s3, x));
        assert(peval(s1, x) == s1[0] + x * peval(s2, x));
        assert(peval(s0, x) == s0[0] + x * peval(s1, x));
    }
    lemma_pad(c, 3, ri);
    lemma_pad(c, 3, 0);
    assert(congruent(e[0] as int, peval(cc, 0)));
    lemma_pad(c, 3, 1);
    assert(congruent(e[1] as int, peval(cc, 1)));
    lemma_pad(c, 3, 2);
    assert(congruent(e[2] as int, peval(cc, 2)));
    lemma_prods_3(ri);
    lemma_basis_scaled(0, r, 3);
    lemma_basis_scaled(1, r, 3);
    lemma_basis_scaled(2, r, 3);
    lemma_lagrange_sum_lsum(e, r, 3);
    assert(lsum(e, r, 3) == e[0] as int * basis_upto(0, r, 3) as int + e[1] as int * basis_upto(1, r, 3) as int + e[2] as int * basis_upto(2, r, 3) as int) by {
        reveal_with_fuel(lsum, 4);
    }
    let x0 = e[0] as int;
    let y0 = basis_upto(0, r, 3) as int;
    let v0 = peval(cc, 0);
    let n0 = node_prod(0, ri, 3);
    lemma_scaled_term(x0, y0, v0, n0, 2, 1, 2);
    let x1 = e[1] as int;
    let y1 = basis_upto(1, r, 3) as int;
    let v1 = peval(cc, 1);
    let n1 = node_prod(1, ri, 3);
    lemma_scaled_term(x1, y1, v1, n1, -1, -2, 2);
    let x2 = e[2] as int;
    let y2 = basis_upto(2, r, 3) as int;
    let v2 = peval(cc, 2);
    let n2 = node_prod(2, ri, 3);
    lemma_scaled_term(x2, y2, v2, n2, 2, 1, 2);
    lemma_congruent_ops(2 * (x0 * y0), 2 * (x1 * y1), v0 * (1 * n0), v1 * (-2 * n1));
    lemma_congruent_ops(2 * (x0 * y0) + 2 * (x1 * y1), 2 * (x2 * y2), v0 * (1 * n0) + v1 * (-2 * n1), v2 * (1 * n2));
    let total = lsum(e, r, 3);
    assert(2 * total == 2 * (x0 * y0) + 2 * (x1 * y1) + 2 * (x2 * y2));
    lemma_nodes_identity_3(a0, a1, a2, ri);
    let inv = 26217937587563095239723870254092982918845276250263818911301829349969290592257int;
    assert((inv * 2) % (modulus() as int) == 1);
    lemma_congruent_ops(inv, 2 * total, inv, 2 * peval(cc, ri));
    lemma_congruent_ops(inv * 2, total, 1, total);
    lemma_congruent_ops(inv * 2, peval(cc, ri), 1, peval(cc, ri));
    assert(inv * (2 * total) == (inv * 2) * total) by (nonlinear_arith);
    assert(inv * (2 * peval(cc, ri)) == (inv * 2) * peval(cc, ri)) by (nonlinear_arith);
}

/// The products of the node differences for 3 nodes.
proof fn lemma_prods_3(ri: int)
    ensures
        diff_prod(0, 3) == 2,
        node_prod(0, ri, 3) == (ri - 1) * (ri - 2),
        diff_prod(1, 3) == -1,
        node_prod(1, ri, 3) == (ri - 0) * (ri - 2),
        diff_prod(2, 3) == 2,
        node_prod(2, ri, 3) == (ri - 0) * (ri - 1),
{
    assert(diff_prod(0, 0) == 1);
    assert(node_prod(0, ri, 0) == 1);
    assert(diff_prod(0, 1) == 1);
    assert(node_prod(0, ri, 1) == 1);
    assert(diff_prod(0, 2) == -1);
    assert(node_prod(0, ri, 2) == (ri - 1));
    assert(diff_prod(0, 3) == 2);
    assert(node_prod(0, ri, 3) == (ri - 1) * (ri - 2));
    assert(diff_prod(1, 0) == 1);
    assert(node_prod(1, ri, 0) == 1);
    assert(diff_prod(1, 1) == 1);
    assert(node_prod(1, ri, 1) == (ri - 0));
    assert(diff_prod(1, 2) == 1);
    assert(node_prod(1, ri, 2) == (ri - 0));
    assert(diff_prod(1, 3) == -1);
    assert(node_prod(1, ri, 3) == (ri - 0) * (ri - 2));
    assert(diff_prod(2, 0) == 1);
    assert(node_prod(2, ri, 0) == 1);
    assert(diff_prod(2, 1) == 2);
    assert(node_prod(2, ri, 1) == (ri - 0));
    assert(diff_prod(2, 2) == 2);
    assert(node_prod(2, ri, 2) == (ri - 0) * (ri - 1));
    assert(diff_prod(2, 3) == 2);
    assert(node_prod(2, ri, 3) == (ri - 0) * (ri - 1));
}

/// The identity behind interpolation through 3 nodes, with the
/// denominators cleared.
proof fn lemma_nodes_identity_3(a0: int, a1: int, a2: int, ri: int)
    ensures
        (a0 + 0 * (a1 + 0 * (a2))) * (1 * ((ri - 1) * (ri - 2))) + (a0 + 1 * (a1 + 1 * (a2))) * (-2 * ((ri - 0) * (ri - 2))) + (a0 + 2 * (a1 + 2 * (a2))) * (1 * ((ri - 0) * (ri - 1))) == 2 * (a0 + ri * (a1 + ri * (a2))),
{
    let p0: int = 1;
    let p1: int = ri;
    let p2: int = ri * p1;
    let n0: int = (ri - 1) * (ri - 2);
    assert(n0 == 2 * p0 + -3 * p1 + 1 * p2) by (nonlinear_arith)
        requires
            n0 == (ri - 1) * (ri - 2),
            p0 == 1,
            p1 == ri,
            p2 == ri * p1,
    ;
    let n1: int = (ri - 0) * (ri - 2);
    assert(n1 == 0 * p0 + -2 * p1 + 1 * p2) by (nonlinear_arith)
        requires
            n1 == (ri - 0) * (ri - 2),
            p0 == 1,
            p1 == ri,
            p2 == ri * p1,
    ;
    let n2: int = (ri - 0) * (ri - 1);
    assert(n2 == 0 * p0 + -1 * p1 + 1 * p2) by (nonlinear_arith)
        requires
            n2 == (ri - 0) * (ri - 1),
            p0 == 1,
            p1 == ri,
            p2 == ri * p1,
    ;
    let v0: int = a0 + 0 * (a1 + 0 * (a2));
    assert(v0 == 1 * a0 + 0 * a1 + 0 * a2);
    let v1: int = a0 + 1 * (a1 + 1 * (a2));
    assert(v1 == 1 * a0 + 1 * a1 + 1 * a2);
    let v2: int = a0 + 2 * (a1 + 2 * (a2));
    assert(v2 == 1 * a0 + 2 * a1 + 4 * a2);
    let t0_0: int = a0 * n0;
    let t0_1: int = a0 * n1;
    let t0_2: int = a0 * n2;
    let t1_0: int = a1 * n0;
    let t1_1: int = a1 * n1;
    let t1_2: int = a1 * n2;
    let t2_0: int = a2 * n0;
    let t2_1: int = a2 * n1;
    let t2_2: int = a2 * n2;
    assert(v0 * (1 * n0) == 1 * t0_0 + 0 * t1_0 + 0 * t2_0) by (nonlinear_arith)
        requires
            v0 == 1 * a0 + 0 * a1 + 0 * a2,
            t0_0 == a0 * n0,
            t1_0 == a1 * n0,
            t2_0 == a2 * n0,
    ;
    assert(v1 * (-2 * n1) == -2 * t0_1 + -2 * t1_1 + -2 * t2_1) by (nonlinear_arith)
        requires
            v1 == 1 * a0 + 1 * a1 + 1 * a2,
            t0_1 == a0 * n1,
            t1_1 == a1 * n1,
            t2_1 == a2 * n1,
    ;
    assert(v2 * (1 * n2) == 1 * t0_2 + 2 * t1_2 + 4 * t2_2) by (nonlinear_arith)
        requires
            v2 == 1 * a0 + 2 * a1 + 4 * a2,
            t0_2 == a0 * n2,
            t1_2 == a1 * n2,
            t2_2 == a2 * n2,
    ;
    let m0: int = 1 * n0 + -2 * n1 + 1 * n2;
    assert(m0 == 2 * p0);
    assert(a0 * m0 == 1 * t0_0 + -2 * t0_1 + 1 * t0_2) by (nonlinear_arith)
        requires
            m0 == 1 * n0 + -2 * n1 + 1 * n2,
            t0_0 == a0 * n0,
            t0_1 == a0 * n1,
            t0_2 == a0 * n2,
    ;
    assert(a0 * m0 == 2 * (a0 * p0)) by (nonlinear_arith)
        requires
            m0 == 2 * p0,
    ;
    let m1: int = 0 * n0 + -2 * n1 + 2 * n2;
    assert(m1 == 2 * p1);
    assert(a1 * m1 == 0 * t1_0 + -2 * t1_1 + 2 * t1_2) by (nonlinear_arith)
        requires
            m1 == 0 * n0 + -2 * n1 + 2 * n2,
            t1_0 == a1 * n0,
            t1_1 == a1 * n1,
            t1_2 == a1 * n2,
    ;
    assert(a1 * m1 == 2 * (a1 * p1)) by (nonlinear_arith)
        requires
            m1 == 2 * p1,
    ;
    let m2: int = 0 * n0 + -2 * n1 + 4 * n2;
    assert(m2 == 2 * p2);
    assert(a2 * m2 == 0 * t2_0 + -2 * t2_1 + 4 * t2_2) by (nonlinear_arith)
        requires
            m2 == 0 * n0 + -2 * n1 + 4 * n2,
            t2_0 == a2 * n0,
            t2_1 == a2 * n1,
            t2_2 == a2 * n2,
    ;
    assert(a2 * m2 == 2 * (a2 * p2)) by (nonlinear_arith)
        requires
            m2 == 2 * p2,
    ;
    assert(a0 + ri * (a1 + ri * (a2)) == a0 * p0 + a1 * p1 + a2 * p2) by (nonlinear_arith)
        requires
            p0 == 1,
            p1 == ri,
            p2 == ri * p1,
    ;
}

/// Interpolation through the 4 nodes `0, ..., 3` is exact for
/// polynomials with at most 4 coefficients.
pub proof fn lemma_lagrange_exact_4(e: Seq<nat>, c: Seq<int>, r: nat)
    requires
        e.len() == 4,
        c.len() <= 4,
        forall|j: int| 0 <= j < 4 ==> congruent(#[trigger] e[j] as int, peval(c, j)),
    ensures
        congruent(lagrange_eval(e, r) as int, peval(c, r as int)),
{
    let ri = r as int;
    let cc = padd(c, zeros(4));
    let s0 = cc;
    let s1 = s0.drop_first();
    let s2 = s1.drop_first();
    let s3 = s2.drop_first();
    let s4 = s3.drop_first();
    let a0 = cc[0];
    let a1 = cc[1];
    let a2 = cc[2];
    let a3 = cc[3];
    assert(s1[0] == a1);
    assert(s2[0] == a2);
    assert(s3[0] == a3);
    assert(s4.len() == 0);
    assert forall|x: int| #[trigger] peval(cc, x) == a0 + x * (a1 + x * (a2 + x * (a3))) by {
        assert(peval(s4, x) == 0);
        assert(peval(s3, x) == s3[0] + x * peval(s4, x));
        assert(peval(s2, x) == s2[0] + x * peval(s3, x));
        assert(peval(s1, x) == s1[0] + x * peval(s2, x));
        assert(peval(s0, x) == s0[0] + x * peval(s1, x));
    }
    lemma_pad(c, 4, ri);
    lemma_pad(c, 4, 0);
    assert(congruent(e[0] as int, peval(cc, 0)));
    lemma_pad(c, 4, 1);
    assert(congruent(e[1] as int, peval(cc, 1)));
    lemma_pad(c, 4, 2);
    assert(congruent(e[2] as int, peval(cc, 2)));
    lemma_pad(c, 4, 3);
    assert(congruent(e[3] as int, peval(cc, 3)));
    lemma_prods_4(ri);
    lemma_basis_scaled(0, r, 4);
    lemma_basis_scaled(1, r, 4);
    lemma_basis_scaled(2, r, 4);
    lemma_basis_scaled(3, r, 4);
    lemma_lagrange_sum_lsum(e, r, 4);
    assert(lsum(e, r, 4) == e[0] as int * basis_upto(0, r, 4) as int + e[1] as int * basis_upto(1, r, 4) as int + e[2] as int * basis_upto(2, r, 4) as int + e[3] as int * basis_upto(3, r, 4) as int) by {
        reveal_with_fuel(lsum, 5);
    }
    let x0 = e[0] as int;
    let y0 = basis_upto(0, r, 4) as int;
    let v0 = peval(cc, 0);
    let n0 = node_prod(0, ri, 4);
    lemma_scaled_term(x0, y0, v0, n0, -6, -1, 6);
    let x1 = e[1] as int;
    let y1 = basis_upto(1, r, 4) as int;
    let v1 = peval(cc, 1);
    let n1 = node_prod(1, ri, 4);
    lemma_scaled_term(x1, y1, v1, n1, 2, 3, 6);
    let x2 = e[2] as int;
    let y2 = basis_upto(2, r, 4) as int;
    let v2 = peval(cc, 2);
    let n2 = node_prod(2, ri, 4);
    lemma_scaled_term(x2, y2, v2, n2, -2, -3, 6);
    let x3 = e[3] as int;
    let y3 = basis_upto(3, r, 4) as int;
    let v3 = peval(cc, 3);
    let n3 = node_prod(3, ri, 4);
    lemma_scaled_term(x3, y3, v3, n3, 6, 1, 6);
    lemma_congruent_ops(6 * (x0 * y0), 6 * (x1 * y1), v0 * (-1 * n0), v1 * (3 * n1));
    lemma_congruent_ops(6 * (x0 * y0) + 6 * (x1 * y1), 6 * (x2 * y2), v0 * (-1 * n0) + v1 * (3 * n1), v2 * (-3 * n2));
    lemma_congruent_ops(6 * (x0 * y0) + 6 * (x1 * y1) + 6 * (x2 * y2), 6 * (x3 * y3), v0 * (-1 * n0) + v1 * (3 * n1) + v2 * (-3 * n2), v3 * (1 * n3));
    let total = lsum(e, r, 4);
    assert(6 * total == 6 * (x0 * y0) + 6 * (x1 * y1) + 6 * (x2 * y2) + 6 * (x3 * y3));
    lemma_nodes_identity_4(a0, a1, a2, a3, ri);
    let inv = 43696562645938492066206450423488304864742127083773031518836382249948817653761int;
    assert((inv * 6) % (modulus() as int) == 1);
    lemma_congruent_ops(inv, 6 * total, inv, 6 * peval(cc, ri));
    lemma_congruent_ops(inv * 6, total, 1, total);
    lemma_congruent_ops(inv * 6, peval(cc, ri), 1, peval(cc, ri));
    assert(inv * (6 * total) == (inv * 6) * total) by (nonlinear_arith);
    assert(inv * (6 * peval(cc, ri)) == (inv * 6) * peval(cc, ri)) by (nonlinear_arith);
}

/// The products of the node differences for 4 nodes.
proof fn lemma_prods_4(ri: int)
    ensures
        diff_prod(0, 4) == -6,
        node_prod(0, ri, 4) == (ri - 1) * (ri - 2) * (ri - 3),
        diff_prod(1, 4) == 2,
        node_prod(1, ri, 4) == (ri - 0) * (ri - 2) * (ri - 3),
        diff_prod(2, 4) == -2,
        node_prod(2, ri, 4) == (ri - 0) * (ri - 1) * (ri - 3),
        diff_prod(3, 4) == 6,
        node_prod(3, ri, 4) == (ri - 0) * (ri - 1) * (ri - 2),
{
    assert(diff_prod(0, 0) == 1);
    assert(node_prod(0, ri, 0) == 1);
    assert(diff_prod(0, 1) == 1);
    assert(node_prod(0, ri, 1) == 1);
    assert(diff_prod(0, 2) == -1);
    assert(node_prod(0, ri, 2) == (ri - 1));
    assert(diff_prod(0, 3) == 2);
    assert(node_prod(0, ri, 3) == (ri - 1) * (ri - 2));
    assert(diff_prod(0, 4) == -6);
    assert(node_prod(0, ri, 4) == (ri - 1) * (ri - 2) * (ri - 3));
    assert(diff_prod(1, 0) == 1);
    assert(node_prod(1, ri, 0) == 1);
    assert(diff_prod(1, 1) == 1);
    assert(node_prod(1, ri, 1) == (ri - 0));
    assert(diff_prod(1, 2) == 1);
    assert(node_prod(1, ri, 2) == (ri - 0));
    assert(diff_prod(1, 3) == -1);
    assert(node_prod(1, ri, 3) == (ri - 0) * (ri - 2));
    assert(diff_prod(1, 4) == 2);
    assert(node_prod(1, ri, 4) == (ri - 0) * (ri - 2) * (ri - 3));
    assert(diff_prod(2, 0) == 1);
    assert(node_prod(2, ri, 0) == 1);
    assert(diff_prod(2, 1) == 2);
    assert(node_prod(2, ri, 1) == (ri - 0));
    assert(diff_prod(2, 2) == 2);
    assert(node_prod(2, ri, 2) == (ri - 0) * (ri - 1));
    assert(diff_prod(2, 3) == 2);
    assert(node_prod(2, ri, 3) == (ri - 0) * (ri - 1));
    assert(diff_prod(2, 4) == -2);
    assert(node_prod(2, ri, 4) == (ri - 0) * (ri - 1) * (ri - 3));
    assert(diff_prod(3, 0) == 1);
    assert(node_prod(3, ri, 0) == 1);
    assert(diff_prod(3, 1) == 3);
    assert(node_prod(3, ri, 1) == (ri - 0));
    assert(diff_prod(3, 2) == 6);
    assert(node_prod(3, ri, 2) == (ri - 0) * (ri - 1));
    assert(diff_prod(3, 3) == 6);
    assert(node_prod(3, ri, 3) == (ri - 0) * (ri - 1) * (ri - 2));
    assert(diff_prod(3, 4) == 6);
    assert(node_prod(3, ri, 4) == (ri - 0) * (ri - 1) * (ri - 2));
}

/// The identity behind interpolation through 4 nodes, with the
/// denominators cleared.
proof fn lemma_nodes_identity_4(a0: int, a1: int, a2: int, a3: int, ri: int)
    ensures
        (a0 + 0 * (a1 + 0 * (a2 + 0 * (a3)))) * (-1 * ((ri - 1) * (ri - 2) * (ri - 3))) + (a0 + 1 * (a1 + 1 * (a2 + 1 * (a3)))) * (3 * ((ri - 0) * (ri - 2) * (ri - 3))) + (a0 + 2 * (a1 + 2 * (a2 + 2 * (a3)))) * (-3 * ((ri - 0) * (ri - 1) * (ri - 3))) + (a0 + 3 * (a1 + 3 * (a2 + 3 * (a3)))) * (1 * ((ri - 0) * (ri - 1) * (ri - 2))) == 6 * (a0 + ri * (a1 + ri * (a2 + ri * (a3)))),
{
    let p0: int = 1;
    let p1: int = ri;
    let p2: int = ri * p1;
    let p3: int = ri * p2;
    let n0: int = (ri - 1) * (ri - 2) * (ri - 3);
    assert(n0 == -6 * p0 + 11 * p1 + -6 * p2 + 1 * p3) by (nonlinear_arith)
        requires
            n0 == (ri - 1) * (ri - 2) * (ri - 3),
            p0 == 1,
            p1 == ri,
            p2 == ri * p1,
            p3 == ri * p2,
    ;
    let n1: int = (ri - 0) * (ri - 2) * (ri - 3);
    assert(n1 == 0 * p0 + 6 * p1 + -5 * p2 + 1 * p3) by (nonlinear_arith)
        requires
            n1 == (ri - 0) * (ri - 2) * (ri - 3),
            p0 == 1,
            p1 == ri,
            p2 == ri * p1,
            p3 == ri * p2,
    ;
    let n2: int = (ri - 0) * (ri - 1) * (ri - 3);
    assert(n2 == 0 * p0 + 3 * p1 + -4 * p2 + 1 * p3) by (nonlinear_arith)
        requires
            n2 == (ri - 0) * (ri - 1) * (ri - 3),
            p0 == 1,
            p1 == ri,
            p2 == ri * p1,
            p3 == ri * p2,
    ;
    let n3: int = (ri - 0) * (ri - 1) * (ri - 2);
    assert(n3 == 0 * p0 + 2 * p1 + -3 * p2 + 1 * p3) by (nonlinear_arith)
        requires
            n3 == (ri - 0) * (ri - 1) * (ri - 2),
            p0 == 1,
            p1 == ri,
            p2 == ri * p1,
            p3 == ri * p2,
    ;
    let v0: int = a0 + 0 * (a1 + 0 * (a2 + 0 * (a3)));
    assert(v0 == 1 * a0 + 0 * a1 + 0 * a2 + 0 * a3);
    let v1: int = a0 + 1 * (a1 + 1 * (a2 + 1 * (a3)));
    assert(v1 == 1 * a0 + 1 * a1 + 1 * a2 + 1 * a3);
    let v2: int = a0 + 2 * (a1 + 2 * (a2 + 2 * (a3)));
    assert(v2 == 1 * a0 + 2 * a1 + 4 * a2 + 8 * a3);
    let v3: int = a0 + 3 * (a1 + 3 * (a2 + 3 * (a3)));
    assert(v3 == 1 * a0 + 3 * a1 + 9 * a2 + 27 * a3);
    let t0_0: int = a0 * n0;
    let t0_1: int = a0 * n1;
    let t0_2: int = a0 * n2;
    let t0_3: int = a0 * n3;
    let t1_0: int = a1 * n0;
    let t1_1: int = a1 * n1;
    let t1_2: int = a1 * n2;
    let t1_3: int = a1 * n3;
    let t2_0: int = a2 * n0;
    let t2_1: int = a2 * n1;
    let t2_2: int = a2 * n2;
    let t2_3: int = a2 * n3;
    let t3_0: int = a3 * n0;
    let t3_1: int = a3 * n1;
    let t3_2: int = a3 * n2;
    let t3_3: int = a3 * n3;
    assert(v0 * (-1 * n0) == -1 * t0_0 + 0 * t1_0 + 0 * t2_0 + 0 * t3_0) by (nonlinear_arith)
        requires
            v0 == 1 * a0 + 0 * a1 + 0 * a2 + 0 * a3,
            t0_0 == a0 * n0,
            t1_0 == a1 * n0,
            t2_0 == a2 * n0,
            t3_0 == a3 * n0,
    ;
    assert(v1 * (3 * n1) == 3 * t0_1 + 3 * t1_1 + 3 * t2_1 + 3 * t3_1) by (nonlinear_arith)
        requires
            v1 == 1 * a0 + 1 * a1 + 1 * a2 + 1 * a3,
            t0_1 == a0 * n1,
            t1_1 == a1 * n1,
            t2_1 == a2 * n1,
            t3_1 == a3 * n1,
    ;
    assert(v2 * (-3 * n2) == -3 * t0_2 + -6 * t1_2 + -12 * t2_2 + -24 * t3_2) by (nonlinear_arith)
        requires
            v2 == 1 * a0 + 2 * a1 + 4 * a2 + 8 * a3,
            t0_2 == a0 * n2,
            t1_2 == a1 * n2,
            t2_2 == a2 * n2,
            t3_2 == a3 * n2,
    ;
    assert(v3 * (1 * n3) == 1 * t0_3 + 3 * t1_3 + 9 * t2_3 + 27 * t3_3) by (nonlinear_arith)
        requires
            v3 == 1 * a0 + 3 * a1 + 9 * a2 + 27 * a3,
            t0_3 == a0 * n3,
            t1_3 == a1 * n3,
            t2_3 == a2 * n3,
            t3_3 == a3 * n3,
    ;
    let m0: int = -1 * n0 + 3 * n1 + -3 * n2 + 1 * n3;
    assert(m0 == 6 * p0);
    assert(a0 * m0 == -1 * t0_0 + 3 * t0_1 + -3 * t0_2 + 1 * t0_3) by (nonlinear_arith)
        requires
            m0 == -1 * n0 + 3 * n1 + -3 * n2 + 1 * n3,
            t0_0 == a0 * n0,
            t0_1 == a0 * n1,
            t0_2 == a0 * n2,
            t0_3 == a0 * n3,
    ;
    assert(a0 * m0 == 6 * (a0 * p0)) by (nonlinear_arith)
        requires
            m0 == 6 * p0,
    ;
    let m1: int = 0 * n0 + 3 * n1 + -6 * n2 + 3 * n3;
    assert(m1 == 6 * p1);
    assert(a1 * m1 == 0 * t1_0 + 3 * t1_1 + -6 * t1_2 + 3 * t1_3) by (nonlinear_arith)
        requires
            m1 == 0 * n0 + 3 * n1 + -6 * n2 + 3 * n3,
            t1_0 == a1 * n0,
            t1_1 == a1 * n1,
            t1_2 == a1 * n2,
            t1_3 == a1 * n3,
    ;
    assert(a1 * m1 == 6 * (a1 * p1)) by (nonlinear_arith)
        requires
            m1 == 6 * p1,
    ;
    let m2: int = 0 * n0 + 3 * n1 + -12 * n2 + 9 * n3;
    assert(m2 == 6 * p2);
    assert(a2 * m2 == 0 * t2_0 + 3 * t2_1 + -12 * t2_2 + 9 * t2_3) by (nonlinear_arith)
        requires
            m2 == 0 * n0 + 3 * n1 + -12 * n2 + 9 * n3,
            t2_0 == a2 * n0,
            t2_1 == a2 * n1,
            t2_2 == a2 * n2,
            t2_3 == a2 * n3,
    ;
    assert(a2 * m2 == 6 * (a2 * p2)) by (nonlinear_arith)
        requires
            m2 == 6 * p2,
    ;
    let m3: int = 0 * n0 + 3 * n1 + -24 * n2 + 27 * n3;
    assert(m3 == 6 * p3);
    assert(a3 * m3 == 0 * t3_0 + 3 * t3_1 + -24 * t3_2 + 27 * t3_3) by (nonlinear_arith)
        requires
            m3 == 0 * n0 + 3 * n1 + -24 * n2 + 27 * n3,
            t3_0 == a3 * n0,
            t3_1 == a3 * n1,
            t3_2 == a3 * n2,
            t3_3 == a3 * n3,
    ;
    assert(a3 * m3 == 6 * (a3 * p3)) by (nonlinear_arith)
        requires
            m3 == 6 * p3,
    ;
    assert(a0 + ri * (a1 + ri * (a2 + ri * (a3))) == a0 * p0 + a1 * p1 + a2 * p2 + a3 * p3) by (nonlinear_arith)
        requires
            p0 == 1,
            p1 == ri,
            p2 == ri * p1,
            p3 == ri * p2,
    ;
}

/// Interpolation through the 5 nodes `0, ..., 4` is exact for
/// polynomials with at most 5 coefficients.
pub proof fn lemma_lagrange_exact_5(e: Seq<nat>, c: Seq<int>, r: nat)
    requires
        e.len() == 5,
        c.len() <= 5,
        forall|j: int| 0 <= j < 5 ==> congruent(#[trigger] e[j] as int, peval(c, j)),
    ensures
        congruent(lagrange_eval(e, r) as int, peval(c, r as int)),
{
    let ri = r as int;
    let cc = padd(c, zeros(5));
    let s0 = cc;
    let s1 = s0.drop_first();
    let s2 = s1.drop_first();
    let s3 = s2.drop_first();
    let s4 = s3.drop_first();
    let s5 = s4.drop_first();
    let a0 = cc[0];
    let a1 = cc[1];
    let a2 = cc[2];
    let a3 = cc[3];
    let a4 = cc[4];
    assert(s1[0] == a1);
    assert(s2[0] == a2);
    assert(s3[0] == a3);
    assert(s4[0] == a4);
    assert(s5.len() == 0);
    assert forall|x: int| #[trigger] peval(cc, x) == a0 + x * (a1 + x * (a2 + x * (a3 + x * (a4)))) by {
        assert(peval(s5, x) == 0);
        assert(peval(s4, x) == s4[0] + x * peval(s5, x));
        assert(peval(s3, x) == s3[0] + x * peval(s4, x));
        assert(peval(s2, x) == s2[0] + x * peval(s3, x));
        assert(peval(s1, x) == s1[0] + x * peval(s2, x));
        assert(peval(s0, x) == s0[0] + x * peval(s1, x));
    }
    lemma_pad(c, 5, ri);
    lemma_pad(c, 5, 0);
    assert(congruent(e[0] as int, peval(cc, 0)));
    lemma_pad(c, 5, 1);
    assert(congruent(e[1] as int, peval(cc, 1)));
    lemma_pad(c, 5, 2);
    assert(congruent(e[2] as int, peval(cc, 2)));
    lemma_pad(c, 5, 3);
    assert(congruent(e[3] as int, peval(cc, 3)));
    lemma_pad(c, 5, 4);
    assert(congruent(e[4] as int, peval(cc, 4)));
    lemma_prods_5(ri);
    lemma_basis_scaled(0, r, 5);
    lemma_basis_scaled(1, r, 5);
    lemma_basis_scaled(2, r, 5);
    lemma_basis_scaled(3, r, 5);
    lemma_basis_scaled(4, r, 5);
    lemma_lagrange_sum_lsum(e, r, 5);
    assert(lsum(e, r, 5) == e[0] as int * basis_upto(0, r, 5) as int + e[1] as int * basis_upto(1, r, 5) as int + e[2] as int * basis_upto(2, r, 5) as int + e[3] as int * basis_upto(3, r, 5) as int + e[4] as int * basis_upto(4, r, 5) as int) by {
        reveal_with_fuel(lsum, 6);
    }
    let x0 = e[0] as int;
    let y0 = basis_upto(0, r, 5) as int;
    let v0 = peval(cc, 0);
    let n0 = node_prod(0, ri, 5);
    lemma_scaled_term(x0, y0, v0, n0, 24, 1, 24);
    let x1 = e[1] as int;
    let y1 = basis_upto(1, r, 5) as int;
    let v1 = peval(cc, 1);
    let n1 = node_prod(1, ri, 5);
    lemma_scaled_term(x1, y1, v1, n1, -6, -4, 24);
    let x2 = e[2] as int;
    let y2 = basis_upto(2, r, 5) as int;
    let v2 = peval(cc, 2);
    let n2 = node_prod(2, ri, 5);
    lemma_scaled_term(x2, y2, v2, n2, 4, 6, 24);
    let x3 = e[3] as int;
    let y3 = basis_upto(3, r, 5) as int;
    let v3 = peval(cc, 3);
    let n3 = node_prod(3, ri, 5);
    lemma_scaled_term(x3, y3, v3, n3, -6, -4, 24);
    let x4 = e[4] as int;
    let y4 = basis_upto(4, r, 5) as int;
    let v4 = peval(cc, 4);
    let n4 = node_prod(4, ri, 5);
    lemma_scaled_term(x4, y4, v4, n4, 24, 1, 24);
    lemma_congruent_ops(24 * (x0 * y0), 24 * (x1 * y1), v0 * (1 * n0), v1 * (-4 * n1));
    lemma_congruent_ops(24 * (x0 * y0) + 24 * (x1 * y1), 24 * (x2 * y2), v0 * (1 * n0) + v1 * (-4 * n1), v2 * (6 * n2));
    lemma_congruent_ops(24 * (x0 * y0) + 24 * (x1 * y1) + 24 * (x2 * y2), 24 * (x3 * y3), v0 * (1 * n0) + v1 * (-4 * n1) + v2 * (6 * n2), v3 * (-4 * n3));
    lemma_congruent_ops(24 * (x0 * y0) + 24 * (x1 * y1) + 24 * (x2 * y2) + 24 * (x3 * y3), 24 * (x4 * y4), v0 * (1 * n0) + v1 * (-4 * n1) + v2 * (6 * n2) + v3 * (-4 * n3), v4 * (1 * n4));
    let total = lsum(e, r, 5);
    assert(24 * total == 24 * (x0 * y0) + 24 * (x1 * y1) + 24 * (x2 * y2) + 24 * (x3 * y3) + 24 * (x4 * y4));
    lemma_nodes_identity_5(a0, a1, a2, a3, a4, ri);
    let inv = 50251047042829265876137417987011550594453446146338986246661839587441140301825int;
    assert((inv * 24) % (modulus() as int) == 1);
    lemma_congruent_ops(inv, 24 * total, inv, 24 * peval(cc, ri));
    lemma_congruent_ops(inv * 24, total, 1, total);
    lemma_congruent_ops(inv * 24, peval(cc, ri), 1, peval(cc, ri));
    assert(inv * (24 * total) == (inv * 24) * total) by (nonlinear_arith);
    assert(inv * (24 * peval(cc, ri)) == (inv * 24) * peval(cc, ri)) by (nonlinear_arith);
}

/// The products of the node differences for 5 nodes.
proof fn lemma_prods_5(ri: int)
    ensures
        diff_prod(0, 5) == 24,
        node_prod(0, ri, 5) == (ri - 1) * (ri - 2) * (ri - 3) * (ri - 4),
        diff_prod(1, 5) == -6,
        node_prod(1, ri, 5) == (ri - 0) * (ri - 2) * (ri - 3) * (ri - 4),
        diff_prod(2, 5) == 4,
        node_prod(2, ri, 5) == (ri - 0) * (ri - 1) * (ri - 3) * (ri - 4),
        diff_prod(3, 5) == -6,
        node_prod(3, ri, 5) == (ri - 0) * (ri - 1) * (ri - 2) * (ri - 4),
        diff_prod(4, 5) == 24,
        node_prod(4, ri, 5) == (ri - 0) * (ri - 1) * (ri - 2) * (ri - 3),
{
    assert(diff_prod(0, 0) == 1);
    assert(node_prod(0, ri, 0) == 1);
    assert(diff_prod(0, 1) == 1);
    assert(node_prod(0, ri, 1) == 1);
    assert(diff_prod(0, 2) == -1);
    assert(node_prod(0, ri, 2) == (ri - 1));
    assert(diff_prod(0, 3) == 2);
    assert(node_prod(0, ri, 3) == (ri - 1) * (ri - 2));
    assert(diff_prod(0, 4) == -6);
    assert(node_prod(0, ri, 4) == (ri - 1) * (ri - 2) * (ri - 3));
    assert(diff_prod(0, 5) == 24);
    assert(node_prod(0, ri, 5) == (ri - 1) * (ri - 2) * (ri - 3) * (ri - 4));
    assert(diff_prod(1, 0) == 1);
    assert(node_prod(1, ri, 0) == 1);
    assert(diff_prod(1, 1) == 1);
    assert(node_prod(1, ri, 1) == (ri - 0));
    assert(diff_prod(1, 2) == 1);
    assert(node_prod(1, ri, 2) == (ri - 0));
    assert(diff_prod(1, 3) == -1);
    assert(node_prod(1, ri, 3) == (ri - 0) * (ri - 2));
    assert(diff_prod(1, 4) == 2);
    assert(node_prod(1, ri, 4) == (ri - 0) * (ri - 2) * (ri - 3));
    assert(diff_prod(1, 5) == -6);
    assert(node_prod(1, ri, 5) == (ri - 0) * (ri - 2) * (ri - 3) * (ri - 4));
    assert(diff_prod(2, 0) == 1);
    assert(node_prod(2, ri, 0) == 1);
    assert(diff_prod(2, 1) == 2);
    assert(node_prod(2, ri, 1) == (ri - 0));
    assert(diff_prod(2, 2) == 2);
    assert(node_prod(2, ri, 2) == (ri - 0) * (ri - 1));
    assert(diff_prod(2, 3) == 2);
    assert(node_prod(2, ri, 3) == (ri - 0) * (ri - 1));
    assert(diff_prod(2, 4) == -2);
    assert(node_prod(2, ri, 4) == (ri - 0) * (ri - 1) * (ri - 3));
    assert(diff_prod(2, 5) == 4);
    assert(node_prod(2, ri, 5) == (ri - 0) * (ri - 1) * (ri - 3) * (ri - 4));
    assert(diff_prod(3, 0) == 1);
    assert(node_prod(3, ri, 0) == 1);
    assert(diff_prod(3, 1) == 3);
    assert(node_prod(3, ri, 1) == (ri - 0));
    assert(diff_prod(3, 2) == 6);
    assert(node_prod(3, ri, 2) == (ri - 0) * (ri - 1));
    assert(diff_prod(3, 3) == 6);
    assert(node_prod(3, ri, 3) == (ri - 0) * (ri - 1) * (ri - 2));
    assert(diff_prod(3, 4) == 6);
    assert(node_prod(3, ri, 4) == (ri - 0) * (ri - 1) * (ri - 2));
    assert(diff_prod(3, 5) == -6);
    assert(node_prod(3, ri, 5) == (ri - 0) * (ri - 1) * (ri - 2) * (ri - 4));
    assert(diff_prod(4, 0) == 1);
    assert(node_prod(4, ri, 0) == 1);
    assert(diff_prod(4, 1) == 4);
    assert(node_prod(4, ri, 1) == (ri - 0));
    assert(diff_prod(4, 2) == 12);
    assert(node_prod(4, ri, 2) == (ri - 0) * (ri - 1));
    assert(diff_prod(4, 3) == 24);
    assert(node_prod(4, ri, 3) == (ri - 0) * (ri - 1) * (ri - 2));
    assert(diff_prod(4, 4) == 24);
    assert(node_prod(4, ri, 4) == (ri - 0) * (ri - 1) * (ri - 2) * (ri - 3));
    assert(diff_prod(4, 5) == 24);
    assert(node_prod(4, ri, 5) == (ri - 0) * (ri - 1) * (ri - 2) * (ri - 3));
}

/// The identity behind interpolation through 5 nodes, with the
/// denominators cleared.
proof fn lemma_nodes_identity_5(a0: int, a1: int, a2: int, a3: int, a4: int, ri: int)
    ensures
        (a0 + 0 * (a1 + 0 * (a2 + 0 * (a3 + 0 * (a4))))) * (1 * ((ri - 1) * (ri - 2) * (ri - 3) * (ri - 4))) + (a0 + 1 * (a1 + 1 * (a2 + 1 * (a3 + 1 * (a4))))) * (-4 * ((ri - 0) * (ri - 2) * (ri - 3) * (ri - 4))) + (a0 + 2 * (a1 + 2 * (a2 + 2 * (a3 + 2 * (a4))))) * (6 * ((ri - 0) * (ri - 1) * (ri - 3) * (ri - 4))) + (a0 + 3 * (a1 + 3 * (a2 + 3 * (a3 + 3 * (a4))))) * (-4 * ((ri - 0) * (ri - 1) * (ri - 2) * (ri - 4))) + (a0 + 4 * (a1 + 4 * (a2 + 4 * (a3 + 4 * (a4))))) * (1 * ((ri - 0) * (ri - 1) * (ri - 2) * (ri - 3))) == 24 * (a0 + ri * (a1 + ri * (a2 + ri * (a3 + ri * (a4))))),
{
    let p0: int = 1;
    let p1: int = ri;
    let p2: int = ri * p1;
    let p3: int = ri * p2;
    let p4: int = ri * p3;
    let n0: int = (ri - 1) * (ri - 2) * (ri - 3) * (ri - 4);
    assert(n0 == 24 * p0 + -50 * p1 + 35 * p2 + -10 * p3 + 1 * p4) by (nonlinear_arith)
        requires
            n0 == (ri - 1) * (ri - 2) * (ri - 3) * (ri - 4),
            p0 == 1,
            p1 == ri,
            p2 == ri * p1,
            p3 == ri * p2,
            p4 == ri * p3,
    ;
    let n1: int = (ri - 0) * (ri - 2) * (ri - 3) * (ri - 4);
    assert(n1 == 0 * p0 + -24 * p1 + 26 * p2 + -9 * p3 + 1 * p4) by (nonlinear_arith)
        requires
            n1 == (ri - 0) * (ri - 2) * (ri - 3) * (ri - 4),
            p0 == 1,
            p1 == ri,
            p2 == ri * p1,
            p3 == ri * p2,
            p4 == ri * p3,
    ;
    let n2: int = (ri - 0) * (ri - 1) * (ri - 3) * (ri - 4);
    assert(n2 == 0 * p0 + -12 * p1 + 19 * p2 + -8 * p3 + 1 * p4) by (nonlinear_arith)
        requires
            n2 == (ri - 0) * (ri - 1) * (ri - 3) * (ri - 4),
            p0 == 1,
            p1 == ri,
            p2 == ri * p1,
            p3 == ri * p2,
            p4 == ri * p3,
    ;
    let n3: int = (ri - 0) * (ri - 1) * (ri - 2) * (ri - 4);
    assert(n3 == 0 * p0 + -8 * p1 + 14 * p2 + -7 * p3 + 1 * p4) by (nonlinear_arith)
        requires
            n3 == (ri - 0) * (ri - 1) * (ri - 2) * (ri - 4),
            p0 == 1,
            p1 == ri,
            p2 == ri * p1,
            p3 == ri * p2,
            p4 == ri * p3,
    ;
    let n4: int = (ri - 0) * (ri - 1) * (ri - 2) * (ri - 3);
    assert(n4 == 0 * p0 + -6 * p1 + 11 * p2 + -6 * p3 + 1 * p4) by (nonlinear_arith)
        requires
            n4 == (ri - 0) * (ri - 1) * (ri - 2) * (ri - 3),
            p0 == 1,
            p1 == ri,
            p2 == ri * p1,
            p3 == ri * p2,
            p4 == ri * p3,
    ;
    let v0: int = a0 + 0 * (a1 + 0 * (a2 + 0 * (a3 + 0 * (a4))));
    assert(v0 == 1 * a0 + 0 * a1 + 0 * a2 + 0 * a3 + 0 * a4);
    let v1: int = a0 + 1 * (a1 + 1 * (a2 + 1 * (a3 + 1 * (a4))));
    assert(v1 == 1 * a0 + 1 * a1 + 1 * a2 + 1 * a3 + 1 * a4);
    let v2: int = a0 + 2 * (a1 + 2 * (a2 + 2 * (a3 + 2 * (a4))));
    assert(v2 == 1 * a0 + 2 * a1 + 4 * a2 + 8 * a3 + 16 * a4);
    let v3: int = a0 + 3 * (a1 + 3 * (a2 + 3 * (a3 + 3 * (a4))));
    assert(v3 == 1 * a0 + 3 * a1 + 9 * a2 + 27 * a3 + 81 * a4);
    let v4: int = a0 + 4 * (a1 + 4 * (a2 + 4 * (a3 + 4 * (a4))));
    assert(v4 == 1 * a0 + 4 * a1 + 16 * a2 + 64 * a3 + 256 * a4);
    let t0_0: int = a0 * n0;
    let t0_1: int = a0 * n1;
    let t0_2: int = a0 * n2;
    let t0_3: int = a0 * n3;
    let t0_4: int = a0 * n4;
    let t1_0: int = a1 * n0;
    let t1_1: int = a1 * n1;
    let t1_2: int = a1 * n2;
    let t1_3: int = a1 * n3;
    let t1_4: int = a1 * n4;
    let t2_0: int = a2 * n0;
    let t2_1: int = a2 * n1;
    let t2_2: int = a2 * n2;
    let t2_3: int = a2 * n3;
    let t2_4: int = a2 * n4;
    let t3_0: int = a3 * n0;
    let t3_1: int = a3 * n1;
    let t3_2: int = a3 * n2;
    let t3_3: int = a3 * n3;
    let t3_4: int = a3 * n4;
    let t4_0: int = a4 * n0;
    let t4_1: int = a4 * n1;
    let t4_2: int = a4 * n2;
    let t4_3: int = a4 * n3;
    let t4_4: int = a4 * n4;
    assert(v0 * (1 * n0) == 1 * t0_0 + 0 * t1_0 + 0 * t2_0 + 0 * t3_0 + 0 * t4_0) by (nonlinear_arith)
        requires
            v0 == 1 * a0 + 0 * a1 + 0 * a2 + 0 * a3 + 0 * a4,
            t0_0 == a0 * n0,
            t1_0 == a1 * n0,
            t2_0 == a2 * n0,
            t3_0 == a3 * n0,
            t4_0 == a4 * n0,
    ;
    assert(v1 * (-4 * n1) == -4 * t0_1 + -4 * t1_1 + -4 * t2_1 + -4 * t3_1 + -4 * t4_1) by (nonlinear_arith)
        requires
            v1 == 1 * a0 + 1 * a1 + 1 * a2 + 1 * a3 + 1 * a4,
            t0_1 == a0 * n1,
            t1_1 == a1 * n1,
            t2_1 == a2 * n1,
            t3_1 == a3 * n1,
            t4_1 == a4 * n1,
    ;
    assert(v2 * (6 * n2) == 6 * t0_2 + 12 * t1_2 + 24 * t2_2 + 48 * t3_2 + 96 * t4_2) by (nonlinear_arith)
        requires
            v2 == 1 * a0 + 2 * a1 + 4 * a2 + 8 * a3 + 16 * a4,
            t0_2 == a0 * n2,
            t1_2 == a1 * n2,
            t2_2 == a2 * n2,
            t3_2 == a3 * n2,
            t4_2 == a4 * n2,
    ;
    assert(v3 * (-4 * n3) == -4 * t0_3 + -12 * t1_3 + -36 * t2_3 + -108 * t3_3 + -324 * t4_3) by (nonlinear_arith)
        requires
            v3 == 1 * a0 + 3 * a1 + 9 * a2 + 27 * a3 + 81 * a4,
            t0_3 == a0 * n3,
            t1_3 == a1 * n3,
            t2_3 == a2 * n3,
            t3_3 == a3 * n3,
            t4_3 == a4 * n3,
    ;
    assert(v4 * (1 * n4) == 1 * t0_4 + 4 * t1_4 + 16 * t2_4 + 64 * t3_4 + 256 * t4_4) by (nonlinear_arith)
        requires
            v4 == 1 * a0 + 4 * a1 + 16 * a2 + 64 * a3 + 256 * a4,
            t0_4 == a0 * n4,
            t1_4 == a1 * n4,
            t2_4 == a2 * n4,
            t3_4 == a3 * n4,
            t4_4 == a4 * n4,
    ;
    let m0: int = 1 * n0 + -4 * n1 + 6 * n2 + -4 * n3 + 1 * n4;
    assert(m0 == 24 * p0);
    assert(a0 * m0 == 1 * t0_0 + -4 * t0_1 + 6 * t0_2 + -4 * t0_3 + 1 * t0_4) by (nonlinear_arith)
        requires
            m0 == 1 * n0 + -4 * n1 + 6 * n2 + -4 * n3 + 1 * n4,
            t0_0 == a0 * n0,
            t0_1 == a0 * n1,
            t0_2 == a0 * n2,
            t0_3 == a0 * n3,
            t0_4 == a0 * n4,
    ;
    assert(a0 * m0 == 24 * (a0 * p0)) by (nonlinear_arith)
        requires
            m0 == 24 * p0,
    ;
    let m1: int = 0 * n0 + -4 * n1 + 12 * n2 + -12 * n3 + 4 * n4;
    assert(m1 == 24 * p1);
    assert(a1 * m1 == 0 * t1_0 + -4 * t1_1 + 12 * t1_2 + -12 * t1_3 + 4 * t1_4) by (nonlinear_arith)
        requires
            m1 == 0 * n0 + -4 * n1 + 12 * n2 + -12 * n3 + 4 * n4,
            t1_0 == a1 * n0,
            t1_1 == a1 * n1,
            t1_2 == a1 * n2,
            t1_3 == a1 * n3,
            t1_4 == a1 * n4,
    ;
    assert(a1 * m1 == 24 * (a1 * p1)) by (nonlinear_arith)
        requires
            m1 == 24 * p1,
    ;
    let m2: int = 0 * n0 + -4 * n1 + 24 * n2 + -36 * n3 + 16 * n4;
    assert(m2 == 24 * p2);
    assert(a2 * m2 == 0 * t2_0 + -4 * t2_1 + 24 * t2_2 + -36 * t2_3 + 16 * t2_4) by (nonlinear_arith)
        requires
            m2 == 0 * n0 + -4 * n1 + 24 * n2 + -36 * n3 + 16 * n4,
            t2_0 == a2 * n0,
            t2_1 == a2 * n1,
            t2_2 == a2 * n2,
            t2_3 == a2 * n3,
            t2_4 == a2 * n4,
    ;
    assert(a2 * m2 == 24 * (a2 * p2)) by (nonlinear_arith)
        requires
            m2 == 24 * p2,
    ;
    let m3: int = 0 * n0 + -4 * n1 + 48 * n2 + -108 * n3 + 64 * n4;
    assert(m3 == 24 * p3);
    assert(a3 * m3 == 0 * t3_0 + -4 * t3_1 + 48 * t3_2 + -108 * t3_3 + 64 * t3_4) by (nonlinear_arith)
        requires
            m3 == 0 * n0 + -4 * n1 + 48 * n2 + -108 * n3 + 64 * n4,
            t3_0 == a3 * n0,
            t3_1 == a3 * n1,
            t3_2 == a3 * n2,
            t3_3 == a3 * n3,
            t3_4 == a3 * n4,
    ;
    assert(a3 * m3 == 24 * (a3 * p3)) by (nonlinear_arith)
        requires
            m3 == 24 * p3,
    ;
    let m4: int = 0 * n0 + -4 * n1 + 96 * n2 + -324 * n3 + 256 * n4;
    assert(m4 == 24 * p4);
    assert(a4 * m4 == 0 * t4_0 + -4 * t4_1 + 96 * t4_2 + -324 * t4_3 + 256 * t4_4) by (nonlinear_arith)
        requires
            m4 == 0 * n0 + -4 * n1 + 96 * n2 + -324 * n3 + 256 * n4,
            t4_0 == a4 * n0,
            t4_1 == a4 * n1,
            t4_2 == a4 * n2,
            t4_3 == a4 * n3,
            t4_4 == a4 * n4,
    ;
    assert(a4 * m4 == 24 * (a4 * p4)) by (nonlinear_arith)
        requires
            m4 == 24 * p4,
    ;
    assert(a0 + ri * (a1 + ri * (a2 + ri * (a3 + ri * (a4)))) == a0 * p0 + a1 * p1 + a2 * p2 + a3 * p3 + a4 * p4) by (nonlinear_arith)
        requires
            p0 == 1,
            p1 == ri,
            p2 == ri * p1,
            p3 == ri * p2,
            p4 == ri * p3,
    ;
}

/// Interpolation through the 6 nodes `0, ..., 5` is exact for
/// polynomials with at most 6 coefficients.
pub proof fn lemma_lagrange_exact_6(e: Seq<nat>, c: Seq<int>, r: nat)
    requires
        e.len() == 6,
        c.len() <= 6,
        forall|j: int| 0 <= j < 6 ==> congruent(#[trigger] e[j] as int, peval(c, j)),
    ensures
        congruent(lagrange_eval(e, r) as int, peval(c, r as int)),
{
    let ri = r as int;
    let cc = padd(c, zeros(6));
    let s0 = cc;
    let s1 = s0.drop_first();
    let s2 = s1.drop_first();
    let s3 = s2.drop_first();
    let s4 = s3.drop_first();
    let s5 = s4.drop_first();
    let s6 = s5.drop_first();
    let a0 = cc[0];
    let a1 = cc[1];
    let a2 = cc[2];
    let a3 = cc[3];
    let a4 = cc[4];
    let a5 = cc[5];
    assert(s1[0] == a1);
    assert(s2[0] == a2);
    assert(s3[0] == a3);
    assert(s4[0] == a4);
    assert(s5[0] == a5);
    assert(s6.len() == 0);
    assert forall|x: int| #[trigger] peval(cc, x) == a0 + x * (a1 + x * (a2 + x * (a3 + x * (a4 + x * (a5))))) by {
        assert(peval(s6, x) == 0);
        assert(peval(s5, x) == s5[0] + x * peval(s6, x));
        assert(peval(s4, x) == s4[0] + x * peval(s5, x));
        assert(peval(s3, x) == s3[0] + x * peval(s4, x));
        assert(peval(s2, x) == s2[0] + x * peval(s3, x));
        assert(peval(s1, x) == s1[0] + x * peval(s2, x));
        assert(peval(s0, x) == s0[0] + x * peval(s1, x));
    }
    lemma_pad(c, 6, ri);
    lemma_pad(c, 6, 0);
    assert(congruent(e[0] as int, peval(cc, 0)));
    lemma_pad(c, 6, 1);
    assert(congruent(e[1] as int, peval(cc, 1)));
    lemma_pad(c, 6, 2);
    assert(congruent(e[2] as int, peval(cc, 2)));
    lemma_pad(c, 6, 3);
    assert(congruent(e[3] as int, peval(cc, 3)));
    lemma_pad(c, 6, 4);
    assert(congruent(e[4] as int, peval(cc, 4)));
    lemma_pad(c, 6, 5);
    assert(congruent(e[5] as int, peval(cc, 5)));
    lemma_prods_6(ri);
    lemma_basis_scaled(0, r, 6);
    lemma_basis_scaled(1, r, 6);
    lemma_basis_scaled(2, r, 6);
    lemma_basis_scaled(3, r, 6);
    lemma_basis_scaled(4, r, 6);
    lemma_basis_scaled(5, r, 6);
    lemma_lagrange_sum_lsum(e, r, 6);
    assert(lsum(e, r, 6) == e[0] as int * basis_upto(0, r, 6) as int + e[1] as int * basis_upto(1, r, 6) as int + e[2] as int * basis_upto(2, r, 6) as int + e[3] as int * basis_upto(3, r, 6) as int + e[4] as int * basis_upto(4, r, 6) as int + e[5] as int * basis_upto(5, r, 6) as int) by {
        reveal_with_fuel(lsum, 7);
    }
    let x0 = e[0] as int;
    let y0 = basis_upto(0, r, 6) as int;
    let v0 = peval(cc, 0);
    let n0 = node_prod(0, ri, 6);
    lemma_scaled_term(x0, y0, v0, n0, -120, -1, 120);
    let x1 = e[1] as int;
    let y1 = basis_upto(1, r, 6) as int;
    let v1 = peval(cc, 1);
    let n1 = node_prod(1, ri, 6);
    lemma_scaled_term(x1, y1, v1, n1, 24, 5, 120);
    let x2 = e[2] as int;
    let y2 = basis_upto(2, r, 6) as int;
    let v2 = peval(cc, 2);
    let n2 = node_prod(2, ri, 6);
    lemma_scaled_term(x2, y2, v2, n2, -12, -10, 120);
    let x3 = e[3] as int;
    let y3 = basis_upto(3, r, 6) as int;
    let v3 = peval(cc, 3);
    let n3 = node_prod(3, ri, 6);
    lemma_scaled_term(x3, y3, v3, n3, 12, 10, 120);
    let x4 = e[4] as int;
    let y4 = basis_upto(4, r, 6) as int;
    let v4 = peval(cc, 4);
    let n4 = node_prod(4, ri, 6);
    lemma_scaled_term(x4, y4, v4, n4, -24, -5, 120);
    let x5 = e[5] as int;
    let y5 = basis_upto(5, r, 6) as int;
    let v5 = peval(cc, 5);
    let n5 = node_prod(5, ri, 6);
    lemma_scaled_term(x5, y5, v5, n5, 120, 1, 120);
    lemma_congruent_ops(120 * (x0 * y0), 120 * (x1 * y1), v0 * (-1 * n0), v1 * (5 * n1));
    lemma_congruent_ops(120 * (x0 * y0) + 120 * (x1 * y1), 120 * (x2 * y2), v0 * (-1 * n0) + v1 * (5 * n1), v2 * (-10 * n2));
    lemma_congruent_ops(120 * (x0 * y0) + 120 * (x1 * y1) + 120 * (x2 * y2), 120 * (x3 * y3), v0 * (-1 * n0) + v1 * (5 * n1) + v2 * (-10 * n2), v3 * (10 * n3));
    lemma_congruent_ops(120 * (x0 * y0) + 120 * (x1 * y1) + 120 * (x2 * y2) + 120 * (x3 * y3), 120 * (x4 * y4), v0 * (-1 * n0) + v1 * (5 * n1) + v2 * (-10 * n2) + v3 * (10 * n3), v4 * (-5 * n4));
    lemma_congruent_ops(120 * (x0 * y0) + 120 * (x1 * y1) + 120 * (x2 * y2) + 120 * (x3 * y3) + 120 * (x4 * y4), 120 * (x5 * y5), v0 * (-1 * n0) + v1 * (5 * n1) + v2 * (-10 * n2) + v3 * (10 * n3) + v4 * (-5 * n4), v5 * (1 * n5));
    let total = lsum(e, r, 6);
    assert(120 * total == 120 * (x0 * y0) + 120 * (x1 * y1) + 120 * (x2 * y2) + 120 * (x3 * y3) + 120 * (x4 * y4) + 120 * (x5 * y5));
    lemma_nodes_identity_6(a0, a1, a2, a3, a4, a5, ri);
    let inv = 10050209408565853175227483597402310118890689229267797249332367917488228060365int;
    assert((inv * 120) % (modulus() as int) == 1);
    lemma_congruent_ops(inv, 120 * total, inv, 120 * peval(cc, ri));
    lemma_congruent_ops(inv * 120, total, 1, total);
    lemma_congruent_ops(inv * 120, peval(cc, ri), 1, peval(cc, ri));
    assert(inv * (120 * total) == (inv * 120) * total) by (nonlinear_arith);
    assert(inv * (120 * peval(cc, ri)) == (inv * 120) * peval(cc, ri)) by (nonlinear_arith);
}

/// The products of the node differences for 6 nodes.
proof fn lemma_prods_6(ri: int)
    ensures
        diff_prod(0, 6) == -120,
        node_prod(0, ri, 6) == (ri - 1) * (ri - 2) * (ri - 3) * (ri - 4) * (ri - 5),
        diff_prod(1, 6) == 24,
        node_prod(1, ri, 6) == (ri - 0) * (ri - 2) * (ri - 3) * (ri - 4) * (ri - 5),
        diff_prod(2, 6) == -12,
        node_prod(2, ri, 6) == (ri - 0) * (ri - 1) * (ri - 3) * (ri - 4) * (ri - 5),
        diff_prod(3, 6) == 12,
        node_prod(3, ri, 6) == (ri - 0) * (ri - 1) * (ri - 2) * (ri - 4) * (ri - 5),
        diff_prod(4, 6) == -24,
        node_prod(4, ri, 6) == (ri - 0) * (ri - 1) * (ri - 2) * (ri - 3) * (ri - 5),
        diff_prod(5, 6) == 120,
        node_prod(5, ri, 6) == (ri - 0) * (ri - 1) * (ri - 2) * (ri - 3) * (ri - 4),
{
    assert(diff_prod(0, 0) == 1);
    assert(node_prod(0, ri, 0) == 1);
    assert(diff_prod(0, 1) == 1);
    assert(node_prod(0, ri, 1) == 1);
    assert(diff_prod(0, 2) == -1);
    assert(node_prod(0, ri, 2) == (ri - 1));
    assert(diff_prod(0, 3) == 2);
    assert(node_prod(0, ri, 3) == (ri - 1) * (ri - 2));
    assert(diff_prod(0, 4) == -6);
    assert(node_prod(0, ri, 4) == (ri - 1) * (ri - 2) * (ri - 3));
    assert(diff_prod(0, 5) == 24);
    assert(node_prod(0, ri, 5) == (ri - 1) * (ri - 2) * (ri - 3) * (ri - 4));
    assert(diff_prod(0, 6) == -120);
    assert(node_prod(0, ri, 6) == (ri - 1) * (ri - 2) * (ri - 3) * (ri - 4) * (ri - 5));
    assert(diff_prod(1, 0) == 1);
    assert(node_prod(1, ri, 0) == 1);
    assert(diff_prod(1, 1) == 1);
    assert(node_prod(1, ri, 1) == (ri - 0));
    assert(diff_prod(1, 2) == 1);
    assert(node_prod(1, ri, 2) == (ri - 0));
    assert(diff_prod(1, 3) == -1);
    assert(node_prod(1, ri, 3) == (ri - 0) * (ri - 2));
    assert(diff_prod(1, 4) == 2);
    assert(node_prod(1, ri, 4) == (ri - 0) * (ri - 2) * (ri - 3));
    assert(diff_prod(1, 5) == -6);
    assert(node_prod(1, ri, 5) == (ri - 0) * (ri - 2) * (ri - 3) * (ri - 4));
    assert(diff_prod(1, 6) == 24);
    assert(node_prod(1, ri, 6) == (ri - 0) * (ri - 2) * (ri - 3) * (ri - 4) * (ri - 5));
    assert(diff_prod(2, 0) == 1);
    assert(node_prod(2, ri, 0) == 1);
    assert(diff_prod(2, 1) == 2);
    assert(node_prod(2, ri, 1) == (ri - 0));
    assert(diff_prod(2, 2) == 2);
    assert(node_prod(2, ri, 2) == (ri - 0) * (ri - 1));
    assert(diff_prod(2, 3) == 2);
    assert(node_prod(2, ri, 3) == (ri - 0) * (ri - 1));
    assert(diff_prod(2, 4) == -2);
    assert(node_prod(2, ri, 4) == (ri - 0) * (ri - 1) * (ri - 3));
    assert(diff_prod(2, 5) == 4);
    assert(node_prod(2, ri, 5) == (ri - 0) * (ri - 1) * (ri - 3) * (ri - 4));
    assert(diff_prod(2, 6) == -12);
    assert(node_prod(2, ri, 6) == (ri - 0) * (ri - 1) * (ri - 3) * (ri - 4) * (ri - 5));
    assert(diff_prod(3, 0) == 1);
    assert(node_prod(3, ri, 0) == 1);
    assert(diff_prod(3, 1) == 3);
    assert(node_prod(3, ri, 1) == (ri - 0));
    assert(diff_prod(3, 2) == 6);
    assert(node_prod(3, ri, 2) == (ri - 0) * (ri - 1));
    assert(diff_prod(3, 3) == 6);
    assert(node_prod(3, ri, 3) == (ri - 0) * (ri - 1) * (ri - 2));
    assert(diff_prod(3, 4) == 6);
    assert(node_prod(3, ri, 4) == (ri - 0) * (ri - 1) * (ri - 2));
    assert(diff_prod(3, 5) == -6);
    assert(node_prod(3, ri, 5) == (ri - 0) * (ri - 1) * (ri - 2) * (ri - 4));
    assert(diff_prod(3, 6) == 12);
    assert(node_prod(3, ri, 6) == (ri - 0) * (ri - 1) * (ri - 2) * (ri - 4) * (ri - 5));
    assert(diff_prod(4, 0) == 1);
    assert(node_prod(4, ri, 0) == 1);
    assert(diff_prod(4, 1) == 4);
    assert(node_prod(4, ri, 1) == (ri - 0));
    assert(diff_prod(4, 2) == 12);
    assert(node_prod(4, ri, 2) == (ri - 0) * (ri - 1));
    assert(diff_prod(4, 3) == 24);
    assert(node_prod(4, ri, 3) == (ri - 0) * (ri - 1) * (ri - 2));
    assert(diff_prod(4, 4) == 24);
    assert(node_prod(4, ri, 4) == (ri - 0) * (ri - 1) * (ri - 2) * (ri - 3));
    assert(diff_prod(4, 5) == 24);
    assert(node_prod(4, ri, 5) == (ri - 0) * (ri - 1) * (ri - 2) * (ri - 3));
    assert(diff_prod(4, 6) == -24);
    assert(node_prod(4, ri, 6) == (ri - 0) * (ri - 1) * (ri - 2) * (ri - 3) * (ri - 5));
    assert(diff_prod(5, 0) == 1);
    assert(node_prod(5, ri, 0) == 1);
    assert(diff_prod(5, 1) == 5);
    assert(node_prod(5, ri, 1) == (ri - 0));
    assert(diff_prod(5, 2) == 20);
    assert(node_prod(5, ri, 2) == (ri - 0) * (ri - 1));
    assert(diff_prod(5, 3) == 60);
    assert(node_prod(5, ri, 3) == (ri - 0) * (ri - 1) * (ri - 2));
    assert(diff_prod(5, 4) == 120);
    assert(node_prod(5, ri, 4) == (ri - 0) * (ri - 1) * (ri - 2) * (ri - 3));
    assert(diff_prod(5, 5) == 120);
    assert(node_prod(5, ri, 5) == (ri - 0) * (ri - 1) * (ri - 2) * (ri - 3) * (ri - 4));
    assert(diff_prod(5, 6) == 120);
    assert(node_prod(5, ri, 6) == (ri - 0) * (ri - 1) * (ri - 2) * (ri - 3) * (ri - 4));
}

/// The identity behind interpolation through 6 nodes, with the
/// denominators cleared.
proof fn lemma_nodes_identity_6(a0: int, a1: int, a2: int, a3: int, a4: int, a5: int, ri: int)
    ensures
        (a0 + 0 * (a1 + 0 * (a2 + 0 * (a3 + 0 * (a4 + 0 * (a5)))))) * (-1 * ((ri - 1) * (ri - 2) * (ri - 3) * (ri - 4) * (ri - 5))) + (a0 + 1 * (a1 + 1 * (a2 + 1 * (a3 + 1 * (a4 + 1 * (a5)))))) * (5 * ((ri - 0) * (ri - 2) * (ri - 3) * (ri - 4) * (ri - 5))) + (a0 + 2 * (a1 + 2 * (a2 + 2 * (a3 + 2 * (a4 + 2 * (a5)))))) * (-10 * ((ri - 0) * (ri - 1) * (ri - 3) * (ri - 4) * (ri - 5))) + (a0 + 3 * (a1 + 3 * (a2 + 3 * (a3 + 3 * (a4 + 3 * (a5)))))) * (10 * ((ri - 0) * (ri - 1) * (ri - 2) * (ri - 4) * (ri - 5))) + (a0 + 4 * (a1 + 4 * (a2 + 4 * (a3 + 4 * (a4 + 4 * (a5)))))) * (-5 * ((ri - 0) * (ri - 1) * (ri - 2) * (ri - 3) * (ri - 5))) + (a0 + 5 * (a1 + 5 * (a2 + 5 * (a3 + 5 * (a4 + 5 * (a5)))))) * (1 * ((ri - 0) * (ri - 1) * (ri - 2) * (ri - 3) * (ri - 4))) == 120 * (a0 + ri * (a1 + ri * (a2 + ri * (a3 + ri * (a4 + ri * (a5)))))),
{
    let p0: int = 1;
    let p1: int = ri;
    let p2: int = ri * p1;
    let p3: int = ri * p2;
    let p4: int = ri * p3;
    let p5: int = ri * p4;
    let n0: int = (ri - 1) * (ri - 2) * (ri - 3) * (ri - 4) * (ri - 5);
    assert(n0 == -120 * p0 + 274 * p1 + -225 * p2 + 85 * p3 + -15 * p4 + 1 * p5) by (nonlinear_arith)
        requires
            n0 == (ri - 1) * (ri - 2) * (ri - 3) * (ri - 4) * (ri - 5),
            p0 == 1,
            p1 == ri,
            p2 == ri * p1,
            p3 == ri * p2,
            p4 == ri * p3,
            p5 == ri * p4,
    ;
    let n1: int = (ri - 0) * (ri - 2) * (ri - 3) * (ri - 4) * (ri - 5);
    assert(n1 == 0 * p0 + 120 * p1 + -154 * p2 + 71 * p3 + -14 * p4 + 1 * p5) by (nonlinear_arith)
        requires
            n1 == (ri - 0) * (ri - 2) * (ri - 3) * (ri - 4) * (ri - 5),
            p0 == 1,
            p1 == ri,
            p2 == ri * p1,
            p3 == ri * p2,
            p4 == ri * p3,
            p5 == ri * p4,
    ;
    let n2: int = (ri - 0) * (ri - 1) * (ri - 3) * (ri - 4) * (ri - 5);
    assert(n2 == 0 * p0 + 60 * p1 + -107 * p2 + 59 * p3 + -13 * p4 + 1 * p5) by (nonlinear_arith)
        requires
            n2 == (ri - 0) * (ri - 1) * (ri - 3) * (ri - 4) * (ri - 5),
            p0 == 1,
            p1 == ri,
            p2 == ri * p1,
            p3 == ri * p2,
            p4 == ri * p3,
            p5 == ri * p4,
    ;
    let n3: int = (ri - 0) * (ri - 1) * (ri - 2) * (ri - 4) * (ri - 5);
    assert(n3 == 0 * p0 + 40 * p1 + -78 * p2 + 49 * p3 + -12 * p4 + 1 * p5) by (nonlinear_arith)
        requires
            n3 == (ri - 0) * (ri - 1) * (ri - 2) * (ri - 4) * (ri - 5),
            p0 == 1,
            p1 == ri,
            p2 == ri * p1,
            p3 == ri * p2,
            p4 == ri * p3,
            p5 == ri * p4,
    ;
    let n4: int = (ri - 0) * (ri - 1) * (ri - 2) * (ri - 3) * (ri - 5);
    assert(n4 == 0 * p0 + 30 * p1 + -61 * p2 + 41 * p3 + -11 * p4 + 1 * p5) by (nonlinear_arith)
        requires
            n4 == (ri - 0) * (ri - 1) * (ri - 2) * (ri - 3) * (ri - 5),
            p0 == 1,
            p1 == ri,
            p2 == ri * p1,
            p3 == ri * p2,
            p4 == ri * p3,
            p5 == ri * p4,
    ;
    let n5: int = (ri - 0) * (ri - 1) * (ri - 2) * (ri - 3) * (ri - 4);
    assert(n5 == 0 * p0 + 24 * p1 + -50 * p2 + 35 * p3 + -10 * p4 + 1 * p5) by (nonlinear_arith)
        requires
            n5 == (ri - 0) * (ri - 1) * (ri - 2) * (ri - 3) * (ri - 4),
            p0 == 1,
            p1 == ri,
            p2 == ri * p1,
            p3 == ri * p2,
            p4 == ri * p3,
            p5 == ri * p4,
    ;
    let v0: int = a0 + 0 * (a1 + 0 * (a2 + 0 * (a3 + 0 * (a4 + 0 * (a5)))));
    assert(v0 == 1 * a0 + 0 * a1 + 0 * a2 + 0 * a3 + 0 * a4 + 0 * a5);
    let v1: int = a0 + 1 * (a1 + 1 * (a2 + 1 * (a3 + 1 * (a4 + 1 * (a5)))));
    assert(v1 == 1 * a0 + 1 * a1 + 1 * a2 + 1 * a3 + 1 * a4 + 1 * a5);
    let v2: int = a0 + 2 * (a1 + 2 * (a2 + 2 * (a3 + 2 * (a4 + 2 * (a5)))));
    assert(v2 == 1 * a0 + 2 * a1 + 4 * a2 + 8 * a3 + 16 * a4 + 32 * a5);
    let v3: int = a0 + 3 * (a1 + 3 * (a2 + 3 * (a3 + 3 * (a4 + 3 * (a5)))));
    assert(v3 == 1 * a0 + 3 * a1 + 9 * a2 + 27 * a3 + 81 * a4 + 243 * a5);
    let v4: int = a0 + 4 * (a1 + 4 * (a2 + 4 * (a3 + 4 * (a4 + 4 * (a5)))));
    assert(v4 == 1 * a0 + 4 * a1 + 16 * a2 + 64 * a3 + 256 * a4 + 1024 * a5);
    let v5: int = a0 + 5 * (a1 + 5 * (a2 + 5 * (a3 + 5 * (a4 + 5 * (a5)))));
    assert(v5 == 1 * a0 + 5 * a1 + 25 * a2 + 125 * a3 + 625 * a4 + 3125 * a5);
    let t0_0: int = a0 * n0;
    let t0_1: int = a0 * n1;
    let t0_2: int = a0 * n2;
    let t0_3: int = a0 * n3;
    let t0_4: int = a0 * n4;
    let t0_5: int = a0 * n5;
    let t1_0: int = a1 * n0;
    let t1_1: int = a1 * n1;
    let t1_2: int = a1 * n2;
    let t1_3: int = a1 * n3;
    let t1_4: int = a1 * n4;
    let t1_5: int = a1 * n5;
    let t2_0: int = a2 * n0;
    let t2_1: int = a2 * n1;
    let t2_2: int = a2 * n2;
    let t2_3: int = a2 * n3;
    let t2_4: int = a2 * n4;
    let t2_5: int = a2 * n5;
    let t3_0: int = a3 * n0;
    let t3_1: int = a3 * n1;
    let t3_2: int = a3 * n2;
    let t3_3: int = a3 * n3;
    let t3_4: int = a3 * n4;
    let t3_5: int = a3 * n5;
    let t4_0: int = a4 * n0;
    let t4_1: int = a4 * n1;
    let t4_2: int = a4 * n2;
    let t4_3: int = a4 * n3;
    let t4_4: int = a4 * n4;
    let t4_5: int = a4 * n5;
    let t5_0: int = a5 * n0;
    let t5_1: int = a5 * n1;
    let t5_2: int = a5 * n2;
    let t5_3: int = a5 * n3;
    let t5_4: int = a5 * n4;
    let t5_5: int = a5 * n5;
    assert(v0 * (-1 * n0) == -1 * t0_0 + 0 * t1_0 + 0 * t2_0 + 0 * t3_0 + 0 * t4_0 + 0 * t5_0) by (nonlinear_arith)
        requires
            v0 == 1 * a0 + 0 * a1 + 0 * a2 + 0 * a3 + 0 * a4 + 0 * a5,
            t0_0 == a0 * n0,
            t1_0 == a1 * n0,
            t2_0 == a2 * n0,
            t3_0 == a3 * n0,
            t4_0 == a4 * n0,
            t5_0 == a5 * n0,
    ;
    assert(v1 * (5 * n1) == 5 * t0_1 + 5 * t1_1 + 5 * t2_1 + 5 * t3_1 + 5 * t4_1 + 5 * t5_1) by (nonlinear_arith)
        requires
            v1 == 1 * a0 + 1 * a1 + 1 * a2 + 1 * a3 + 1 * a4 + 1 * a5,
            t0_1 == a0 * n1,
            t1_1 == a1 * n1,
            t2_1 == a2 * n1,
            t3_1 == a3 * n1,
            t4_1 == a4 * n1,
            t5_1 == a5 * n1,
    ;
    assert(v2 * (-10 * n2) == -10 * t0_2 + -20 * t1_2 + -40 * t2_2 + -80 * t3_2 + -160 * t4_2 + -320 * t5_2) by (nonlinear_arith)
        requires
            v2 == 1 * a0 + 2 * a1 + 4 * a2 + 8 * a3 + 16 * a4 + 32 * a5,
            t0_2 == a0 * n2,
            t1_2 == a1 * n2,
            t2_2 == a2 * n2,
            t3_2 == a3 * n2,
            t4_2 == a4 * n2,
            t5_2 == a5 * n2,
    ;
    assert(v3 * (10 * n3) == 10 * t0_3 + 30 * t1_3 + 90 * t2_3 + 270 * t3_3 + 810 * t4_3 + 2430 * t5_3) by (nonlinear_arith)
        requires
            v3 == 1 * a0 + 3 * a1 + 9 * a2 + 27 * a3 + 81 * a4 + 243 * a5,
            t0_3 == a0 * n3,
            t1_3 == a1 * n3,
            t2_3 == a2 * n3,
            t3_3 == a3 * n3,
            t4_3 == a4 * n3,
            t5_3 == a5 * n3,
    ;
    assert(v4 * (-5 * n4) == -5 * t0_4 + -20 * t1_4 + -80 * t2_4 + -320 * t3_4 + -1280 * t4_4 + -5120 * t5_4) by (nonlinear_arith)
        requires
            v4 == 1 * a0 + 4 * a1 + 16 * a2 + 64 * a3 + 256 * a4 + 1024 * a5,
            t0_4 == a0 * n4,
            t1_4 == a1 * n4,
            t2_4 == a2 * n4,
            t3_4 == a3 * n4,
            t4_4 == a4 * n4,
            t5_4 == a5 * n4,
    ;
    assert(v5 * (1 * n5) == 1 * t0_5 + 5 * t1_5 + 25 * t2_5 + 125 * t3_5 + 625 * t4_5 + 3125 * t5_5) by (nonlinear_arith)
        requires
            v5 == 1 * a0 + 5 * a1 + 25 * a2 + 125 * a3 + 625 * a4 + 3125 * a5,
            t0_5 == a0 * n5,
            t1_5 == a1 * n5,
            t2_5 == a2 * n5,
            t3_5 == a3 * n5,
            t4_5 == a4 * n5,
            t5_5 == a5 * n5,
    ;
    let m0: int = -1 * n0 + 5 * n1 + -10 * n2 + 10 * n3 + -5 * n4 + 1 * n5;
    assert(m0 == 120 * p0);
    assert(a0 * m0 == -1 * t0_0 + 5 * t0_1 + -10 * t0_2 + 10 * t0_3 + -5 * t0_4 + 1 * t0_5) by (nonlinear_arith)
        requires
            m0 == -1 * n0 + 5 * n1 + -10 * n2 + 10 * n3 + -5 * n4 + 1 * n5,
            t0_0 == a0 * n0,
            t0_1 == a0 * n1,
            t0_2 == a0 * n2,
            t0_3 == a0 * n3,
            t0_4 == a0 * n4,
            t0_5 == a0 * n5,
    ;
    assert(a0 * m0 == 120 * (a0 * p0)) by (nonlinear_arith)
        requires
            m0 == 120 * p0,
    ;
    let m1: int = 0 * n0 + 5 * n1 + -20 * n2 + 30 * n3 + -20 * n4 + 5 * n5;
    assert(m1 == 120 * p1);
    assert(a1 * m1 == 0 * t1_0 + 5 * t1_1 + -20 * t1_2 + 30 * t1_3 + -20 * t1_4 + 5 * t1_5) by (nonlinear_arith)
        requires
            m1 == 0 * n0 + 5 * n1 + -20 * n2 + 30 * n3 + -20 * n4 + 5 * n5,
            t1_0 == a1 * n0,
            t1_1 == a1 * n1,
            t1_2 == a1 * n2,
            t1_3 == a1 * n3,
            t1_4 == a1 * n4,
            t1_5 == a1 * n5,
    ;
    assert(a1 * m1 == 120 * (a1 * p1)) by (nonlinear_arith)
        requires
            m1 == 120 * p1,
    ;
    let m2: int = 0 * n0 + 5 * n1 + -40 * n2 + 90 * n3 + -80 * n4 + 25 * n5;
    assert(m2 == 120 * p2);
    assert(a2 * m2 == 0 * t2_0 + 5 * t2_1 + -40 * t2_2 + 90 * t2_3 + -80 * t2_4 + 25 * t2_5) by (nonlinear_arith)
        requires
            m2 == 0 * n0 + 5 * n1 + -40 * n2 + 90 * n3 + -80 * n4 + 25 * n5,
            t2_0 == a2 * n0,
            t2_1 == a2 * n1,
            t2_2 == a2 * n2,
            t2_3 == a2 * n3,
            t2_4 == a2 * n4,
            t2_5 == a2 * n5,
    ;
    assert(a2 * m2 == 120 * (a2 * p2)) by (nonlinear_arith)
        requires
            m2 == 120 * p2,
    ;
    let m3: int = 0 * n0 + 5 * n1 + -80 * n2 + 270 * n3 + -320 * n4 + 125 * n5;
    assert(m3 == 120 * p3);
    assert(a3 * m3 == 0 * t3_0 + 5 * t3_1 + -80 * t3_2 + 270 * t3_3 + -320 * t3_4 + 125 * t3_5) by (nonlinear_arith)
        requires
            m3 == 0 * n0 + 5 * n1 + -80 * n2 + 270 * n3 + -320 * n4 + 125 * n5,
            t3_0 == a3 * n0,
            t3_1 == a3 * n1,
            t3_2 == a3 * n2,
            t3_3 == a3 * n3,
            t3_4 == a3 * n4,
            t3_5 == a3 * n5,
    ;
    assert(a3 * m3 == 120 * (a3 * p3)) by (nonlinear_arith)
        requires
            m3 == 120 * p3,
    ;
    let m4: int = 0 * n0 + 5 * n1 + -160 * n2 + 810 * n3 + -1280 * n4 + 625 * n5;
    assert(m4 == 120 * p4);
    assert(a4 * m4 == 0 * t4_0 + 5 * t4_1 + -160 * t4_2 + 810 * t4_3 + -1280 * t4_4 + 625 * t4_5) by (nonlinear_arith)
        requires
            m4 == 0 * n0 + 5 * n1 + -160 * n2 + 810 * n3 + -1280 * n4 + 625 * n5,
            t4_0 == a4 * n0,
            t4_1 == a4 * n1,
            t4_2 == a4 * n2,
            t4_3 == a4 * n3,
            t4_4 == a4 * n4,
            t4_5 == a4 * n5,
    ;
    assert(a4 * m4 == 120 * (a4 * p4)) by (nonlinear_arith)
        requires
            m4 == 120 * p4,
    ;
    let m5: int = 0 * n0 + 5 * n1 + -320 * n2 + 2430 * n3 + -5120 * n4 + 3125 * n5;
    assert(m5 == 120 * p5);
    assert(a5 * m5 == 0 * t5_0 + 5 * t5_1 + -320 * t5_2 + 2430 * t5_3 + -5120 * t5_4 + 3125 * t5_5) by (nonlinear_arith)
        requires
            m5 == 0 * n0 + 5 * n1 + -320 * n2 + 2430 * n3 + -5120 * n4 + 3125 * n5,
            t5_0 == a5 * n0,
            t5_1 == a5 * n1,
            t5_2 == a5 * n2,
            t5_3 == a5 * n3,
            t5_4 == a5 * n4,
            t5_5 == a5 * n5,
    ;
    assert(a5 * m5 == 120 * (a5 * p5)) by (nonlinear_arith)
        requires
            m5 == 120 * p5,
    ;
    assert(a0 + ri * (a1 + ri * (a2 + ri * (a3 + ri * (a4 + ri * (a5))))) == a0 * p0 + a1 * p1 + a2 * p2 + a3 * p3 + a4 * p4 + a5 * p5) by (nonlinear_arith)
        requires
            p0 == 1,
            p1 == ri,
            p2 == ri * p1,
            p3 == ri * p2,
            p4 == ri * p3,
            p5 == ri * p4,
    ;
}

} // verus!
