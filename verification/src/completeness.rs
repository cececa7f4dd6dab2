//! Completeness of the sum-checks of degree at most five: for every
//! combiner, the summand of a row is a polynomial in the round variable,
//! so the round polynomial sent as its values at `0, ..., d` gives, at the
//! challenge, the sum over the tables of the next round. A run started from
//! the true sum therefore keeps every running claim equal to the current
//! sum, and ends at the combination of the final values.
use crate::coefficients::{
    lemma_cong_add, lemma_cong_line_mul, lemma_cong_mul_line, lemma_cong_scale, lemma_padd, lemma_pline,
    lemma_pmul_line, lemma_pscale, padd, peval, pline, pmul_line, pscale,
};
use crate::field::{
    congruent, fadd, fmul, fpow, fsub, lemma_congruent_ops, lemma_congruent_values, lemma_fadd_zero,
    lemma_ops_congruent, modulus, values,
};
use crate::interpolation::{
    lemma_lagrange_exact_3, lemma_lagrange_exact_4, lemma_lagrange_exact_5, lemma_lagrange_exact_6,
};
use crate::mle::bind_top;
use crate::sumcheck_utils::{
    column, hypercube_sum, line_point, low_high_spec, product, range_sum, round_evals, row_points, rows_sum,
    uniform_tables, weighted_pair_sum, Combiner,
};
use crate::circuit::verify_run;
use crate::sumchecks::{
    plonkish_outcome, poly_values, PlonkishSumcheckResult, final_values, lemma_round_tables_uniform, round_challenge, round_poly, round_tables, state_before, sumcheck_run,
};
use crate::unipoly::{basis_upto, lagrange_eval, lagrange_sum};
use vstd::arithmetic::power2::pow2;
use vstd::prelude::*;

verus! {

/// `line_point` walks the line: its value at `k` is `low + k * delta`.
proof fn lemma_line_point(low: nat, delta: nat, k: nat)
    ensures
        congruent(line_point(low, delta, k) as int, low as int + k as int * delta as int),
    decreases k,
{
    if k == 0 {
        assert(0 * delta == 0) by (nonlinear_arith);
    } else {
        let km = (k - 1) as nat;
        lemma_line_point(low, delta, km);
        let prev = line_point(low, delta, km);
        lemma_ops_congruent(prev, delta);
        lemma_congruent_ops(prev as int, delta as int, low as int + km as int * delta as int, delta as int);
        assert(low as int + km as int * delta as int + delta as int == low as int + k as int * delta as int) by (nonlinear_arith)
            requires
                km + 1 == k,
        ;
    }
}

/// The coefficients of the product of the lines `lo[j] + X dl[j]` for
/// `a <= j < b`.
pub open spec fn prod_lines(lo: Seq<int>, dl: Seq<int>, a: nat, b: nat) -> Seq<int>
    decreases (if b > a { b - a } else { 0 }),
{
    if b <= a {
        seq![1int]
    } else {
        let k = (b - 1) as nat;
        pmul_line(prod_lines(lo, dl, a, k), lo[k as int], dl[k as int])
    }
}

/// The coefficients of
/// `sum_{i < m} (lo_i + X dl_i) (lo_{i + off} + X dl_{i + off}) s^i`.
pub open spec fn pair_poly(lo: Seq<int>, dl: Seq<int>, m: nat, off: nat, s: nat) -> Seq<int>
    decreases m,
{
    if m == 0 {
        Seq::empty()
    } else {
        let i = (m - 1) as nat;
        let k = i + off;
        padd(
            pair_poly(lo, dl, i, off, s),
            pscale(pmul_line(pline(lo[i as int], dl[i as int]), lo[k as int], dl[k as int]), fpow(s, i) as int),
        )
    }
}

/// The coefficients, in the round variable `X`, of the summand of a row
/// whose tables run along the lines `lo[j] + X dl[j]`.
pub open spec fn comb_poly(comb: Combiner, lo: Seq<int>, dl: Seq<int>) -> Seq<int> {
    match comb {
        Combiner::Plonkish => {
            let t0 = pmul_line(pline(lo[0], dl[0]), lo[5], dl[5]);
            let t1 = pmul_line(pline(lo[1], dl[1]), lo[6], dl[6]);
            let t2 = pmul_line(pline(lo[2], dl[2]), lo[7], dl[7]);
            let t3 = pmul_line(pmul_line(pline(lo[3], dl[3]), lo[5], dl[5]), lo[6], dl[6]);
            let inner = padd(padd(padd(padd(t0, t1), t2), t3), pline(lo[4], dl[4]));
            pmul_line(inner, lo[8], dl[8])
        },
        Combiner::Addr { dimension, rho } => {
            let d = dimension as nat;
            let a = prod_lines(lo, dl, 0, d);
            let b = prod_lines(lo, dl, d, 2 * d);
            let c = prod_lines(lo, dl, 2 * d, 3 * d);
            let inner = padd(padd(a, pscale(b, rho@ as int)), pscale(c, fmul(rho@, rho@) as int));
            let (iz, ie) = ((3 * d) as int, (3 * d + 1) as int);
            pmul_line(pmul_line(inner, lo[iz], dl[iz]), lo[ie], dl[ie])
        },
        Combiner::Rerand { sigma } => pair_poly(lo, dl, 4, 4, sigma@),
        Combiner::RandomCombination { m, sigma } => pair_poly(lo, dl, m as nat, m as nat, sigma@),
    }
}

/// The degree of a combiner's summand in the round variable.
pub open spec fn comb_degree(comb: Combiner) -> nat {
    match comb {
        Combiner::Plonkish => 4,
        Combiner::Addr { dimension, .. } => (dimension + 2) as nat,
        _ => 2,
    }
}

/// The values `e` lie on the lines `lo[j] + x dl[j]`, for `j < n`.
pub open spec fn on_lines(e: Seq<nat>, lo: Seq<int>, dl: Seq<int>, x: int, n: nat) -> bool {
    &&& e.len() >= n
    &&& lo.len() >= n
    &&& dl.len() >= n
    &&& forall|j: int| 0 <= j < n ==> congruent(#[trigger] e[j] as int, lo[j] + x * dl[j])
}

proof fn lemma_line_value(e: Seq<nat>, lo: Seq<int>, dl: Seq<int>, x: int, n: nat, j: int)
    requires
        on_lines(e, lo, dl, x, n),
        0 <= j < n,
    ensures
        congruent(e[j] as int, peval(pline(lo[j], dl[j]), x)),
{
    lemma_pline(lo[j], dl[j], x);
}

/// A product of values on lines is congruent to the product of the lines.
proof fn lemma_product_lines(e: Seq<nat>, lo: Seq<int>, dl: Seq<int>, x: int, n: nat, a: nat, b: nat)
    requires
        on_lines(e, lo, dl, x, n),
        a <= b <= n,
    ensures
        congruent(product(e.subrange(a as int, b as int)) as int, peval(prod_lines(lo, dl, a, b), x)),
        prod_lines(lo, dl, a, b).len() == b - a + 1,
    decreases b - a,
{
    let s = e.subrange(a as int, b as int);
    if b == a {
        let one = seq![1int];
        assert(one.drop_first() =~= Seq::<int>::empty());
        assert(peval(one.drop_first(), x) == 0);
        assert(peval(one, x) == 1);
    } else {
        let k = (b - 1) as nat;
        lemma_product_lines(e, lo, dl, x, n, a, k);
        assert(s.drop_last() =~= e.subrange(a as int, k as int));
        assert(s.last() == e[k as int]);
        lemma_cong_mul_line(product(s.drop_last()), e[k as int], prod_lines(lo, dl, a, k), lo[k as int], dl[k as int], x);
        lemma_pmul_line(prod_lines(lo, dl, a, k), lo[k as int], dl[k as int], x);
    }
}

/// A weighted sum of products of pairs of values on lines is congruent to
/// the same sum of products of the lines.
proof fn lemma_pair_poly(e: Seq<nat>, lo: Seq<int>, dl: Seq<int>, x: int, m: nat, off: nat, s: nat)
    requires
        on_lines(e, lo, dl, x, m + off),
    ensures
        congruent(weighted_pair_sum(e, m, off, s) as int, peval(pair_poly(lo, dl, m, off, s), x)),
        pair_poly(lo, dl, m, off, s).len() <= 3,
        weighted_pair_sum(e, m, off, s) < modulus(),
    decreases m,
{
    if m > 0 {
        let i = (m - 1) as nat;
        let k = i + off;
        lemma_pair_poly(e, lo, dl, x, i, off, s);
        lemma_line_value(e, lo, dl, x, m + off, i as int);
        lemma_cong_mul_line(e[i as int], e[k as int], pline(lo[i as int], dl[i as int]), lo[k as int], dl[k as int], x);
        let pq = pmul_line(pline(lo[i as int], dl[i as int]), lo[k as int], dl[k as int]);
        lemma_pline(lo[i as int], dl[i as int], x);
        lemma_pmul_line(pline(lo[i as int], dl[i as int]), lo[k as int], dl[k as int], x);
        lemma_cong_scale(fmul(e[i as int], e[k as int]), fpow(s, i), pq, x);
        lemma_pscale(pq, fpow(s, i) as int, x);
        lemma_cong_add(
            weighted_pair_sum(e, i, off, s),
            fmul(fmul(e[i as int], e[k as int]), fpow(s, i)),
            pair_poly(lo, dl, i, off, s),
            pscale(pq, fpow(s, i) as int),
            x,
        );
        lemma_padd(pair_poly(lo, dl, i, off, s), pscale(pq, fpow(s, i) as int), x);
    } else {
        assert(peval(Seq::<int>::empty(), x) == 0);
    }
}

/// The summand of every combiner, on values that lie on lines, is congruent
/// to the value of its polynomial in the round variable.
proof fn lemma_comb_poly(comb: Combiner, e: Seq<nat>, lo: Seq<int>, dl: Seq<int>, x: int)
    requires
        on_lines(e, lo, dl, x, comb.arity()),
    ensures
        congruent(comb.combine(e) as int, peval(comb_poly(comb, lo, dl), x)),
        comb_poly(comb, lo, dl).len() <= comb_degree(comb) + 1,
        comb.combine(e) < modulus(),
{
    let n = comb.arity();
    match comb {
        Combiner::Plonkish => {
            lemma_line_value(e, lo, dl, x, n, 0);
            lemma_line_value(e, lo, dl, x, n, 1);
            lemma_line_value(e, lo, dl, x, n, 2);
            lemma_line_value(e, lo, dl, x, n, 3);
            lemma_line_value(e, lo, dl, x, n, 4);
            lemma_line_value(e, lo, dl, x, n, 5);
            lemma_line_value(e, lo, dl, x, n, 6);
            lemma_line_value(e, lo, dl, x, n, 7);
            lemma_line_value(e, lo, dl, x, n, 8);
            let l0 = pline(lo[0], dl[0]);
            let l1 = pline(lo[1], dl[1]);
            let l2 = pline(lo[2], dl[2]);
            let l3 = pline(lo[3], dl[3]);
            let l4 = pline(lo[4], dl[4]);
            lemma_pline(lo[0], dl[0], x);
            lemma_pline(lo[1], dl[1], x);
            lemma_pline(lo[2], dl[2], x);
            lemma_pline(lo[3], dl[3], x);
            lemma_pline(lo[4], dl[4], x);
            let t0 = pmul_line(l0, lo[5], dl[5]);
            let t1 = pmul_line(l1, lo[6], dl[6]);
            let t2 = pmul_line(l2, lo[7], dl[7]);
            let t3a = pmul_line(l3, lo[5], dl[5]);
            let t3 = pmul_line(t3a, lo[6], dl[6]);
            lemma_cong_mul_line(e[0], e[5], l0, lo[5], dl[5], x);
            lemma_cong_mul_line(e[1], e[6], l1, lo[6], dl[6], x);
            lemma_cong_mul_line(e[2], e[7], l2, lo[7], dl[7], x);
            lemma_cong_mul_line(e[3], e[5], l3, lo[5], dl[5], x);
            lemma_cong_mul_line(fmul(e[3], e[5]), e[6], t3a, lo[6], dl[6], x);
            lemma_pmul_line(l0, lo[5], dl[5], x);
            lemma_pmul_line(l1, lo[6], dl[6], x);
            lemma_pmul_line(l2, lo[7], dl[7], x);
            lemma_pmul_line(l3, lo[5], dl[5], x);
            lemma_pmul_line(t3a, lo[6], dl[6], x);
            let (f0, f1, f2, f3) = (fmul(e[0], e[5]), fmul(e[1], e[6]), fmul(e[2], e[7]), fmul(fmul(e[3], e[5]), e[6]));
            lemma_cong_add(f0, f1, t0, t1, x);
            lemma_padd(t0, t1, x);
            lemma_cong_add(fadd(f0, f1), f2, padd(t0, t1), t2, x);
            lemma_padd(padd(t0, t1), t2, x);
            lemma_cong_add(fadd(fadd(f0, f1), f2), f3, padd(padd(t0, t1), t2), t3, x);
            lemma_padd(padd(padd(t0, t1), t2), t3, x);
            let inner = padd(padd(padd(padd(t0, t1), t2), t3), l4);
            lemma_cong_add(fadd(fadd(fadd(f0, f1), f2), f3), e[4], padd(padd(padd(t0, t1), t2), t3), l4, x);
            lemma_padd(padd(padd(padd(t0, t1), t2), t3), l4, x);
            let iv = fadd(fadd(fadd(fadd(f0, f1), f2), f3), e[4]);
            lemma_cong_line_mul(e[8], iv, inner, lo[8], dl[8], x);
            lemma_pmul_line(inner, lo[8], dl[8], x);
        },
        Combiner::Addr { dimension, rho } => {
            let d = dimension as nat;
            let r = rho@;
            lemma_product_lines(e, lo, dl, x, n, 0, d);
            lemma_product_lines(e, lo, dl, x, n, d, 2 * d);
            lemma_product_lines(e, lo, dl, x, n, 2 * d, 3 * d);
            let (pa, pb, pc) = (prod_lines(lo, dl, 0, d), prod_lines(lo, dl, d, 2 * d), prod_lines(lo, dl, 2 * d, 3 * d));
            let (va, vb, vc) = (
                product(e.subrange(0, d as int)),
                product(e.subrange(d as int, 2 * d as int)),
                product(e.subrange(2 * d as int, 3 * d as int)),
            );
            let rr = fmul(r, r);
            lemma_cong_scale(vb, r, pb, x);
            lemma_cong_scale(vc, rr, pc, x);
            lemma_pscale(pb, r as int, x);
            lemma_pscale(pc, rr as int, x);
            lemma_cong_add(va, fmul(r, vb), pa, pscale(pb, r as int), x);
            lemma_padd(pa, pscale(pb, r as int), x);
            lemma_cong_add(fadd(va, fmul(r, vb)), fmul(rr, vc), padd(pa, pscale(pb, r as int)), pscale(pc, rr as int), x);
            lemma_padd(padd(pa, pscale(pb, r as int)), pscale(pc, rr as int), x);
            let inner = padd(padd(pa, pscale(pb, r as int)), pscale(pc, rr as int));
            let iv = fadd(fadd(va, fmul(r, vb)), fmul(rr, vc));
            let (iz, ie) = ((3 * d) as int, (3 * d + 1) as int);
            lemma_line_value(e, lo, dl, x, n, iz);
            lemma_line_value(e, lo, dl, x, n, ie);
            lemma_pline(lo[iz], dl[iz], x);
            lemma_pline(lo[ie], dl[ie], x);
            let zl = lo[iz] + x * dl[iz];
            let el = lo[ie] + x * dl[ie];
            lemma_ops_congruent(e[iz], e[ie]);
            lemma_congruent_ops(e[iz] as int, e[ie] as int, zl, el);
            let ze = fmul(e[iz], e[ie]);
            lemma_ops_congruent(ze, iv);
            lemma_congruent_ops(ze as int, iv as int, zl * el, peval(inner, x));
            lemma_pmul_line(inner, lo[iz], dl[iz], x);
            lemma_pmul_line(pmul_line(inner, lo[iz], dl[iz]), lo[ie], dl[ie], x);
            let pi = peval(inner, x);
            assert(zl * el * pi == pi * zl * el) by (nonlinear_arith);
        },
        Combiner::Rerand { sigma } => {
            lemma_pair_poly(e, lo, dl, x, 4, 4, sigma@);
        },
        Combiner::RandomCombination { m, sigma } => {
            lemma_pair_poly(e, lo, dl, x, m as nat, m as nat, sigma@);
        },
    }
}

/// The low entries of row `row`, one per table.
pub open spec fn row_lows(ts: Seq<Seq<nat>>, row: nat) -> Seq<int> {
    Seq::new(ts.len(), |j: int| ts[j][row as int] as int)
}

/// The differences between the high and low entries of row `row`.
pub open spec fn row_deltas(ts: Seq<Seq<nat>>, half: nat, row: nat) -> Seq<int> {
    Seq::new(ts.len(), |j: int| ts[j][(half + row) as int] - ts[j][row as int])
}

/// The coefficients of the round polynomial over the first `n` rows.
pub open spec fn round_coeffs(ts: Seq<Seq<nat>>, half: nat, comb: Combiner, n: nat) -> Seq<int>
    decreases n,
{
    if n == 0 {
        Seq::empty()
    } else {
        let row = (n - 1) as nat;
        padd(round_coeffs(ts, half, comb, row), comb_poly(comb, row_lows(ts, row), row_deltas(ts, half, row)))
    }
}

/// The combined row sums at any point `k` follow the round polynomial.
proof fn lemma_rows_sum_poly(ts: Seq<Seq<nat>>, len: nat, comb: Combiner, k: nat, n: nat)
    requires
        uniform_tables(ts, len),
        len >= 2,
        n <= len / 2,
        ts.len() >= comb.arity(),
    ensures
        congruent(rows_sum(ts, len, comb, k, n) as int, peval(round_coeffs(ts, len / 2, comb, n), k as int)),
        round_coeffs(ts, len / 2, comb, n).len() <= comb_degree(comb) + 1,
    decreases n,
{
    let half = len / 2;
    if n > 0 {
        let row = (n - 1) as nat;
        lemma_rows_sum_poly(ts, len, comb, k, row);
        let e = row_points(ts, row, len, k);
        let lo = row_lows(ts, row);
        let dl = row_deltas(ts, half, row);
        assert forall|j: int| 0 <= j < comb.arity() implies congruent(#[trigger] e[j] as int, lo[j] + k * dl[j]) by {
            let t = ts[j];
            assert(t.len() == len);
            let (l, h) = (t[row as int], t[(half + row) as int]);
            assert(low_high_spec(t, row, len) == (l, h));
            lemma_line_point(l, fsub(h, l), k);
            lemma_ops_congruent(h, l);
            lemma_congruent_ops(k as int, fsub(h, l) as int, k as int, h - l);
            lemma_congruent_ops(l as int, k as int * fsub(h, l) as int, l as int, k * (h - l));
        }
        lemma_comb_poly(comb, e, lo, dl, k as int);
        lemma_cong_add(rows_sum(ts, len, comb, k, row), comb.combine(e), round_coeffs(ts, half, comb, row),
            comb_poly(comb, lo, dl), k as int);
        lemma_padd(round_coeffs(ts, half, comb, row), comb_poly(comb, lo, dl), k as int);
    }
}

/// The tables with the top variable fixed to `r`.
pub open spec fn bound_top(ts: Seq<Seq<nat>>, r: nat) -> Seq<Seq<nat>> {
    ts.map_values(|t: Seq<nat>| bind_top(t, r))
}

/// The combined sums over the first `n` points of the tables bound at `r`
/// follow the same round polynomial, at `r`.
proof fn lemma_bound_sum_poly(ts: Seq<Seq<nat>>, len: nat, comb: Combiner, r: nat, n: nat)
    requires
        uniform_tables(ts, len),
        len >= 2,
        n <= len / 2,
        ts.len() >= comb.arity(),
    ensures
        congruent(range_sum(bound_top(ts, r), comb, 0, n) as int, peval(round_coeffs(ts, len / 2, comb, n), r as int)),
    decreases n,
{
    let half = len / 2;
    let bs = bound_top(ts, r);
    if n > 0 {
        let row = (n - 1) as nat;
        lemma_bound_sum_poly(ts, len, comb, r, row);
        let e = column(bs, row);
        let lo = row_lows(ts, row);
        let dl = row_deltas(ts, half, row);
        assert forall|j: int| 0 <= j < comb.arity() implies congruent(#[trigger] e[j] as int, lo[j] + r * dl[j]) by {
            let t = ts[j];
            assert(t.len() == len);
            let (l, h) = (t[row as int], t[(half + row) as int]);
            assert(e[j] == fadd(l, fmul(r, fsub(h, l))));
            lemma_ops_congruent(h, l);
            lemma_ops_congruent(r, fsub(h, l));
            lemma_ops_congruent(l, fmul(r, fsub(h, l)));
            lemma_congruent_ops(r as int, fsub(h, l) as int, r as int, h - l);
            lemma_congruent_ops(l as int, fmul(r, fsub(h, l)) as int, l as int, r * (h - l));
        }
        lemma_comb_poly(comb, e, lo, dl, r as int);
        lemma_cong_add(range_sum(bs, comb, 0, row), comb.combine(e), round_coeffs(ts, half, comb, row),
            comb_poly(comb, lo, dl), r as int);
    }
}

/// The round polynomial of an honest prover, sent as its values at
/// `0, ..., d` for the degree `d <= 5` of the combiner, takes at any `r` the
/// sum over the hypercube of the combined tables with the top variable fixed
/// to `r`: the claim the next round answers.
pub proof fn lemma_round_poly_at_challenge(ts: Seq<Seq<nat>>, len: nat, comb: Combiner, d: nat, r: nat)
    requires
        ts.len() > 0,
        uniform_tables(ts, len),
        len >= 2,
        len % 2 == 0,
        ts.len() >= comb.arity(),
        d == comb_degree(comb),
        d <= 5,
    ensures
        lagrange_eval(round_evals(ts, d, comb), r) == hypercube_sum(bound_top(ts, r), comb),
{
    let half = len / 2;
    let c = round_coeffs(ts, half, comb, half);
    assert forall|j: int| 0 <= j < ts.len() implies (#[trigger] ts[j]).len() == len by {}
    crate::sumcheck_utils::lemma_max_len_uniform(ts, len);
    let e = round_evals(ts, d, comb);
    assert forall|k: int| 0 <= k <= d implies congruent(#[trigger] e[k] as int, peval(c, k)) by {
        lemma_rows_sum_poly(ts, len, comb, k as nat, half);
    }
    lemma_rows_sum_poly(ts, len, comb, 0, half);
    if d == 2 {
        lemma_lagrange_exact_3(e, c, r);
    } else if d == 3 {
        lemma_lagrange_exact_4(e, c, r);
    } else if d == 4 {
        lemma_lagrange_exact_5(e, c, r);
    } else {
        lemma_lagrange_exact_6(e, c, r);
    }
    let bs = bound_top(ts, r);
    lemma_bound_sum_poly(ts, len, comb, r, half);
    assert forall|j: int| 0 <= j < bs.len() implies (#[trigger] bs[j]).len() == half by {
        assert(ts[j].len() == len);
    }
    crate::sumcheck_utils::lemma_max_len_uniform(bs, half);
    crate::sumcheck_utils::lemma_range_sum_canonical(bs, comb, 0, half);
    let l = lagrange_eval(e, r);
    assert(l == fadd(lagrange_sum(e, r, d), fmul(e[d as int], basis_upto(d, r, d + 1))));
    lemma_ops_congruent(lagrange_sum(e, r, d), fmul(e[d as int], basis_upto(d, r, d + 1)));
    lemma_congruent_values(l, range_sum(bs, comb, 0, half));
}

/// The tables of the next round are those of this round with the top
/// variable fixed to this round's challenge.
proof fn lemma_next_round_tables(ts0: Seq<Seq<nat>>, rs: Seq<nat>, i: nat)
    requires
        i < rs.len(),
    ensures
        round_tables(ts0, rs, i + 1) == bound_top(round_tables(ts0, rs, i), rs[i as int]),
{
    let pre = rs.take(i as int);
    crate::sumchecks::lemma_tables_step(ts0, pre, rs[i as int], i);
    assert(pre.take(i as int) =~= rs.take(i as int));
    assert(pre.push(rs[i as int]).take((i + 1) as int) =~= rs.take((i + 1) as int));
    assert(round_tables(ts0, pre, i) =~= round_tables(ts0, rs, i));
    assert(round_tables(ts0, pre.push(rs[i as int]), i + 1) =~= round_tables(ts0, rs, i + 1));
    assert(round_tables(ts0, rs, i + 1) =~= bound_top(round_tables(ts0, rs, i), rs[i as int]));
}

/// Each running claim after the first is the sum over the hypercube of the
/// combined tables of its round; so is the first when it is honest.
#[verifier::spinoff_prover]
#[verifier::rlimit(50)]
proof fn lemma_claims_track_sums(
    ts0: Seq<Seq<nat>>,
    comb: Combiner,
    st0: Seq<u8>,
    n: nat,
    claim: nat,
    polys: Seq<Seq<nat>>,
    claims: Seq<nat>,
    rs: Seq<nat>,
    i: nat,
)
    requires
        sumcheck_run(ts0, comb_degree(comb), comb, st0, n, claim, polys, claims, rs),
        comb_degree(comb) <= 5,
        ts0.len() >= comb.arity(),
        ts0.len() > 0,
        uniform_tables(ts0, pow2(n)),
        i > 0 || claim == hypercube_sum(ts0, comb),
        i <= n,
    ensures
        claims[i as int] == hypercube_sum(round_tables(ts0, rs, i), comb),
{
    let d = comb_degree(comb);
    if i == 0 {
        assert(rs.take(0) =~= Seq::<nat>::empty());
        assert(round_tables(ts0, rs, 0) =~= ts0);
    } else {
        let k = (i - 1) as nat;
        let ts = round_tables(ts0, rs, k);
        lemma_round_tables_uniform(ts0, rs, n, k);
        vstd::arithmetic::power2::lemma_pow2_unfold((n - k) as nat);
        vstd::arithmetic::power2::lemma_pow2_pos((n - k - 1) as nat);
        assert(polys[k as int] == round_evals(ts, d, comb));
        assert(claims[(k + 1) as int] == lagrange_eval(polys[k as int], rs[k as int]));
        lemma_round_poly_at_challenge(ts, pow2((n - k) as nat), comb, d, rs[k as int]);
        lemma_next_round_tables(ts0, rs, k);
    }
}

/// The last claim of a run of at least one round (or of an honest run) is
/// the combination of the values the tables take at the challenge point,
/// whatever the first claim was.
pub proof fn lemma_last_claim(
    ts0: Seq<Seq<nat>>,
    comb: Combiner,
    st0: Seq<u8>,
    n: nat,
    claim: nat,
    polys: Seq<Seq<nat>>,
    claims: Seq<nat>,
    rs: Seq<nat>,
)
    requires
        sumcheck_run(ts0, comb_degree(comb), comb, st0, n, claim, polys, claims, rs),
        comb_degree(comb) <= 5,
        ts0.len() >= comb.arity(),
        ts0.len() > 0,
        uniform_tables(ts0, pow2(n)),
        n > 0 || claim == hypercube_sum(ts0, comb),
    ensures
        claims[n as int] == comb.combine(final_values(ts0, rs)),
{
    lemma_claims_track_sums(ts0, comb, st0, n, claim, polys, claims, rs, n);
    let ts = round_tables(ts0, rs, n);
    lemma_round_tables_uniform(ts0, rs, n, n);
    assert(pow2(0) == 1) by {
        vstd::arithmetic::power2::lemma2_to64();
    }
    assert forall|j: int| 0 <= j < ts.len() implies (#[trigger] ts[j]).len() == 1 by {}
    crate::sumcheck_utils::lemma_max_len_uniform(ts, 1);
    assert(rs.take(n as int) =~= rs);
    let fv = final_values(ts0, rs);
    assert(column(ts, 0) =~= fv);
    let v = comb.combine(fv);
    let zs = Seq::new(fv.len(), |j: int| 0int);
    assert(on_lines(fv, Seq::new(fv.len(), |j: int| fv[j] as int), zs, 0, comb.arity()));
    lemma_comb_poly(comb, fv, Seq::new(fv.len(), |j: int| fv[j] as int), zs, 0);
    lemma_fadd_zero(v);
    assert(range_sum(ts, comb, 0, 1) == fadd(range_sum(ts, comb, 0, 0), comb.combine(column(ts, 0))));
}

/// Completeness of the sum-checks whose rounds have degree at most five
/// (the Plonkish, rerandomization and random-combination combiners, and the
/// address combiner up to dimension three): when a run over tables of `2^n`
/// field values, with rounds of the combiner's degree, starts from the true
/// sum over the hypercube, every round message adds up at `0` and `1` to the
/// running claim, and the last claim is the combination of the values the
/// tables take at the challenge point.
pub proof fn lemma_sumcheck_completeness(
    ts0: Seq<Seq<nat>>,
    comb: Combiner,
    st0: Seq<u8>,
    n: nat,
    claim: nat,
    polys: Seq<Seq<nat>>,
    claims: Seq<nat>,
    rs: Seq<nat>,
)
    requires
        sumcheck_run(ts0, comb_degree(comb), comb, st0, n, claim, polys, claims, rs),
        comb_degree(comb) <= 5,
        ts0.len() >= comb.arity(),
        ts0.len() > 0,
        uniform_tables(ts0, pow2(n)),
        claim == hypercube_sum(ts0, comb),
    ensures
        forall|i: int| 0 <= i < n ==> fadd(#[trigger] polys[i][0], polys[i][1]) == claims[i],
        claims[n as int] == comb.combine(final_values(ts0, rs)),
{
    let d = comb_degree(comb);
    assert forall|i: int| 0 <= i < n implies fadd(#[trigger] polys[i][0], polys[i][1]) == claims[i] by {
        crate::sumchecks::lemma_round_messages_answer_current_sum(ts0, d, comb, st0, n, claim, polys, claims, rs, i as nat);
        lemma_claims_track_sums(ts0, comb, st0, n, claim, polys, claims, rs, i as nat);
    }
    lemma_last_claim(ts0, comb, st0, n, claim, polys, claims, rs);
}

/// An honest run, started from the true sum, passes the verifier's rounds
/// on the same transcript state whenever every challenge already fits in
/// the 128 bits the verifier keeps: each round check holds, and the
/// verifier ends on the prover's last claim, challenges and transcript state.
pub proof fn lemma_verifier_accepts_honest_run(
    ts0: Seq<Seq<nat>>,
    comb: Combiner,
    st0: Seq<u8>,
    n: nat,
    claim: nat,
    polys: Seq<Seq<nat>>,
    claims: Seq<nat>,
    rs: Seq<nat>,
)
    requires
        sumcheck_run(ts0, comb_degree(comb), comb, st0, n, claim, polys, claims, rs),
        comb_degree(comb) <= 5,
        ts0.len() >= comb.arity(),
        ts0.len() > 0,
        uniform_tables(ts0, pow2(n)),
        claim == hypercube_sum(ts0, comb),
        forall|i: int| 0 <= i < n ==> #[trigger] rs[i] < pow2(128),
    ensures
        verify_run(polys, claim, st0, n) == (claims[n as int], rs, state_before(ts0, rs, comb_degree(comb), comb, st0, n), true),
{
    lemma_sumcheck_completeness(ts0, comb, st0, n, claim, polys, claims, rs);
    lemma_verifier_rounds(ts0, comb, st0, n, claim, polys, claims, rs, n);
    assert(rs.take(n as int) =~= rs);
}

proof fn lemma_verifier_rounds(
    ts0: Seq<Seq<nat>>,
    comb: Combiner,
    st0: Seq<u8>,
    n: nat,
    claim: nat,
    polys: Seq<Seq<nat>>,
    claims: Seq<nat>,
    rs: Seq<nat>,
    k: nat,
)
    requires
        sumcheck_run(ts0, comb_degree(comb), comb, st0, n, claim, polys, claims, rs),
        forall|i: int| 0 <= i < n ==> fadd(#[trigger] polys[i][0], polys[i][1]) == claims[i],
        forall|i: int| 0 <= i < n ==> #[trigger] rs[i] < pow2(128),
        k <= n,
    ensures
        verify_run(polys, claim, st0, k) == (claims[k as int], rs.take(k as int), state_before(ts0, rs, comb_degree(comb), comb, st0, k), true),
    decreases k,
{
    let d = comb_degree(comb);
    if k == 0 {
        assert(rs.take(0) =~= Seq::<nat>::empty());
    } else {
        let i = (k - 1) as nat;
        lemma_verifier_rounds(ts0, comb, st0, n, claim, polys, claims, rs, i);
        let p = polys[i as int];
        assert(p == round_poly(ts0, rs, i, d, comb));
        assert(fadd(polys[i as int][0], polys[i as int][1]) == claims[i as int]);
        assert(rs[i as int] == round_challenge(ts0, rs, d, comb, st0, i));
        assert(rs[i as int] < pow2(128));
        vstd::arithmetic::power2::lemma_pow2_pos(128);
        vstd::arithmetic::div_mod::lemma_small_mod(rs[i as int], pow2(128));
        assert(rs.take(i as int).push(rs[i as int]) =~= rs.take(k as int));
        assert(claims[k as int] == lagrange_eval(polys[i as int], rs[i as int]));
    }
}

/// The Plonkish closing claim: after at least one round over tables of one
/// length, `eq` at the challenges times `l a + r b + zc o + m a b + c` over
/// the final values (what `PlonkishClaim::compute_final_claim_noeq` computes
/// from them) is the last claim of the run.
pub proof fn lemma_plonkish_closing_claim(ts0: Seq<Seq<nat>>, st: Seq<u8>, claim: nat, res: PlonkishSumcheckResult)
    requires
        plonkish_outcome(ts0, st, claim, res),
        ts0.len() == 9,
        uniform_tables(ts0, pow2(res.challenge_points.len() as nat)),
        res.challenge_points.len() >= 1,
    ensures
        fmul(
            res.eq@,
            fadd(
                fadd(
                    fadd(fadd(fmul(res.v_l@, res.v_a@), fmul(res.v_r@, res.v_b@)), fmul(res.v_zc@, res.v_o@)),
                    fmul(fmul(res.v_m@, res.v_a@), res.v_b@),
                ),
                res.v_c@,
            ),
        ) == values(res.claims_per_round@)[res.challenge_points.len() as int],
{
    reveal(plonkish_outcome);
    let n = res.challenge_points.len() as nat;
    let rs = values(res.challenge_points@);
    lemma_last_claim(ts0, Combiner::Plonkish, st, n, claim, poly_values(res.polys@), values(res.claims_per_round@), rs);
    let fv = final_values(ts0, rs);
    assert(fv[0] == res.v_l@ && fv[1] == res.v_r@ && fv[2] == res.v_o@ && fv[3] == res.v_m@ && fv[4] == res.v_c@);
    assert(fv[5] == res.v_a@ && fv[6] == res.v_b@ && fv[7] == res.v_zc@ && fv[8] == res.eq@);
    assert(fmul(res.v_o@, res.v_zc@) == fmul(res.v_zc@, res.v_o@)) by (nonlinear_arith);
}

/// The Plonkish gate `q_l a + q_r b + q_o c + q_m a b + q_c` over the values
/// of one point, in the order of the Plonkish tables.
pub open spec fn plonkish_gate(e: Seq<nat>) -> nat {
    fadd(fadd(fadd(fadd(fmul(e[0], e[5]), fmul(e[1], e[6])), fmul(e[2], e[7])), fmul(fmul(e[3], e[5]), e[6])), e[4])
}

/// A circuit whose gates all hold has zero as its Plonkish sum.
proof fn lemma_satisfied_sum_zero(ts: Seq<Seq<nat>>, n: nat)
    requires
        ts.len() == 9,
        forall|x: nat| x < n ==> #[trigger] plonkish_gate(column(ts, x)) == 0,
    ensures
        range_sum(ts, Combiner::Plonkish, 0, n) == 0,
    decreases n,
{
    if n > 0 {
        let x = (n - 1) as nat;
        lemma_satisfied_sum_zero(ts, x);
        let e = column(ts, x);
        assert(plonkish_gate(e) == 0);
        assert(Combiner::Plonkish.combine(e) == fmul(e[8], 0));
        vstd::arithmetic::div_mod::lemma_small_mod(0, modulus());
        assert(fmul(e[8], 0) == 0);
        assert(fadd(0, 0) == 0);
    }
}

/// When every gate of the circuit holds, the Plonkish sum-check started
/// from the claim zero, over tables of one length, passes every round check.
pub proof fn lemma_satisfied_gates_pass(ts0: Seq<Seq<nat>>, st: Seq<u8>, res: PlonkishSumcheckResult)
    requires
        plonkish_outcome(ts0, st, 0, res),
        ts0.len() == 9,
        uniform_tables(ts0, pow2(res.challenge_points.len() as nat)),
        forall|x: nat| x < pow2(res.challenge_points.len() as nat) ==> #[trigger] plonkish_gate(column(ts0, x)) == 0,
    ensures
        forall|i: int|
            0 <= i < res.challenge_points.len() ==> fadd(
                #[trigger] poly_values(res.polys@)[i][0],
                poly_values(res.polys@)[i][1],
            ) == values(res.claims_per_round@)[i],
{
    reveal(plonkish_outcome);
    let n = res.challenge_points.len() as nat;
    lemma_satisfied_sum_zero(ts0, pow2(n));
    assert forall|j: int| 0 <= j < ts0.len() implies (#[trigger] ts0[j]).len() == pow2(n) by {}
    crate::sumcheck_utils::lemma_max_len_uniform(ts0, pow2(n));
    lemma_sumcheck_completeness(ts0, Combiner::Plonkish, st, n, 0, poly_values(res.polys@), values(res.claims_per_round@),
        values(res.challenge_points@));
}

} // verus!
