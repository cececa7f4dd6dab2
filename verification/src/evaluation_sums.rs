//! The sum of a table weighted by the equality table of a point is the
//! value of the table's multilinear extension at that point.
use crate::circuit::linear_combination;
use crate::completeness::lemma_sumcheck_completeness;
use crate::field::{
    congruent, fadd, fmul, fpow, fsub, lemma_congruent_ops, lemma_congruent_values, lemma_ops_congruent, modulus, values, Scalar,
};
use crate::folding::FoldedObject;
use crate::rerandomization::{object_claims, object_eq_tables, object_tables, rerandomizable, rerandomization_outcome, RerandomizationOutput};
use crate::sumcheck_utils::{column, hypercube_sum, range_sum, uniform_tables, weighted_pair_sum, Combiner};
use crate::sumchecks::{poly_values, random_combination_outcome};
use crate::transcript::{after_challenge, RERAND_RLC_LABEL};
use crate::mle::{bind_all, bind_top, canonical_table, eq_table, lemma_bind_entry_congruent, lemma_bind_top_canonical};
use crate::sumchecks::{lemma_bind_all_len, lemma_bind_all_push};
use vstd::arithmetic::power2::pow2;
use vstd::prelude::*;

verus! {

/// Fixes the least significant variable of `t` to `a`.
pub open spec fn bind_low(t: Seq<nat>, a: nat) -> Seq<nat> {
    Seq::new(t.len() / 2, |y: int| fadd(t[2 * y], fmul(a, fsub(t[2 * y + 1], t[2 * y]))))
}

/// `sum_{x < n} e[x] t[x]` over the integers.
pub open spec fn dot(e: Seq<nat>, t: Seq<nat>, n: nat) -> int
    decreases n,
{
    if n == 0 {
        0
    } else {
        dot(e, t, (n - 1) as nat) + e[n - 1] as int * t[n - 1] as int
    }
}

/// `lo + r (hi - lo)` in the field.
spec fn bind_pair(lo: nat, hi: nat, r: nat) -> nat {
    fadd(lo, fmul(r, fsub(hi, lo)))
}

/// Fixing two variables of a square of four values gives the same value in
/// either order.
proof fn lemma_bind_pair_commute(t00: nat, t01: nat, t10: nat, t11: nat, a: nat, c: nat)
    ensures
        bind_pair(bind_pair(t00, t01, a), bind_pair(t10, t11, a), c) == bind_pair(
            bind_pair(t00, t10, c),
            bind_pair(t01, t11, c),
            a,
        ),
{
    let (x0, x1) = (bind_pair(t00, t01, a), bind_pair(t10, t11, a));
    let (y0, y1) = (bind_pair(t00, t10, c), bind_pair(t01, t11, c));
    lemma_bind_entry_congruent(t00, t01, a);
    lemma_bind_entry_congruent(t10, t11, a);
    lemma_bind_entry_congruent(t00, t10, c);
    lemma_bind_entry_congruent(t01, t11, c);
    lemma_bind_entry_congruent(x0, x1, c);
    lemma_bind_entry_congruent(y0, y1, a);
    let (i00, i01, i10, i11) = (t00 as int, t01 as int, t10 as int, t11 as int);
    let (ai, ci) = (a as int, c as int);
    let xx0 = i00 + ai * (i01 - i00);
    let xx1 = i10 + ai * (i11 - i10);
    let yy0 = i00 + ci * (i10 - i00);
    let yy1 = i01 + ci * (i11 - i01);
    lemma_congruent_ops(x1 as int, x0 as int, xx1, xx0);
    lemma_congruent_ops(ci, x1 as int - x0 as int, ci, xx1 - xx0);
    lemma_congruent_ops(x0 as int, ci * (x1 as int - x0 as int), xx0, ci * (xx1 - xx0));
    lemma_congruent_ops(y1 as int, y0 as int, yy1, yy0);
    lemma_congruent_ops(ai, y1 as int - y0 as int, ai, yy1 - yy0);
    lemma_congruent_ops(y0 as int, ai * (y1 as int - y0 as int), yy0, ai * (yy1 - yy0));
    assert(xx0 + ci * (xx1 - xx0) == yy0 + ai * (yy1 - yy0)) by (nonlinear_arith)
        requires
            xx0 == i00 + ai * (i01 - i00),
            xx1 == i10 + ai * (i11 - i10),
            yy0 == i00 + ci * (i10 - i00),
            yy1 == i01 + ci * (i11 - i01),
    ;
    lemma_congruent_values(bind_pair(x0, x1, c), bind_pair(y0, y1, a));
}

/// Fixing the top and the bottom variable commute.
proof fn lemma_bind_top_low(t: Seq<nat>, a: nat, c: nat)
    requires
        t.len() % 4 == 0,
    ensures
        bind_top(bind_low(t, a), c) == bind_low(bind_top(t, c), a),
{
    let q = t.len() / 4;
    let lhs = bind_top(bind_low(t, a), c);
    let rhs = bind_low(bind_top(t, c), a);
    assert(lhs.len() == q && rhs.len() == q);
    assert forall|i: int| 0 <= i < q implies lhs[i] == rhs[i] by {
        lemma_bind_pair_commute(t[2 * i], t[2 * i + 1], t[2 * i + 2 * q], t[2 * i + 2 * q + 1], a, c);
        assert(bind_top(t, c)[2 * i] == bind_pair(t[2 * i], t[2 * i + 2 * q], c));
        assert(bind_top(t, c)[2 * i + 1] == bind_pair(t[2 * i + 1], t[2 * i + 1 + 2 * q], c));
        assert(bind_low(t, a)[i] == bind_pair(t[2 * i], t[2 * i + 1], a));
        assert(bind_low(t, a)[i + q] == bind_pair(t[2 * (i + q)], t[2 * (i + q) + 1], a));
    }
    assert(lhs =~= rhs);
}

/// Fixing the bottom variable commutes with fixing the top ones.
proof fn lemma_bind_all_low(t: Seq<nat>, a: nat, s: Seq<nat>)
    requires
        t.len() == pow2(s.len() + 1),
    ensures
        bind_all(bind_low(t, a), s) == bind_low(bind_all(t, s), a),
    decreases s.len(),
{
    if s.len() > 0 {
        vstd::arithmetic::power2::lemma_pow2_unfold(s.len() + 1);
        vstd::arithmetic::power2::lemma_pow2_unfold(s.len());
        lemma_bind_top_low(t, a, s[0]);
        lemma_bind_all_low(bind_top(t, s[0]), a, s.drop_first());
    }
}

/// The weighted sum of pairs of entries against a doubled equality table.
proof fn lemma_dot_pairs(e1: Seq<nat>, a: nat, t: Seq<nat>, m: nat)
    requires
        2 * m <= t.len(),
        m <= e1.len(),
        eq_table_step(e1, a).len() == 2 * e1.len(),
    ensures
        congruent(dot(eq_table_step(e1, a), t, 2 * m), dot(e1, bind_low(t, a), m)),
    decreases m,
{
    let e = eq_table_step(e1, a);
    if m > 0 {
        let y = (m - 1) as nat;
        lemma_dot_pairs(e1, a, t, y);
        let ev = e1[y as int];
        let (t0, t1) = (t[2 * y as int], t[(2 * y + 1) as int]);
        let bl = bind_low(t, a);
        assert(bl[y as int] == bind_pair(t0, t1, a));
        assert(e[2 * y as int] == fsub(ev, fmul(ev, a)));
        assert(e[(2 * y + 1) as int] == fmul(ev, a));
        lemma_ops_congruent(ev, a);
        lemma_ops_congruent(ev, fmul(ev, a));
        lemma_bind_entry_congruent(t0, t1, a);
        let (evi, ai, i0, i1) = (ev as int, a as int, t0 as int, t1 as int);
        lemma_congruent_ops(ev as int, fmul(ev, a) as int, evi, evi * ai);
        let x0 = fsub(ev, fmul(ev, a)) as int;
        let x1 = fmul(ev, a) as int;
        lemma_congruent_ops(x0, i0, evi - evi * ai, i0);
        lemma_congruent_ops(x1, i1, evi * ai, i1);
        lemma_congruent_ops(x0 * i0, x1 * i1, (evi - evi * ai) * i0, evi * ai * i1);
        lemma_congruent_ops(evi, bl[y as int] as int, evi, i0 + ai * (i1 - i0));
        assert((evi - evi * ai) * i0 + evi * ai * i1 == evi * (i0 + ai * (i1 - i0))) by (nonlinear_arith);
        let lhs_prev = dot(e, t, 2 * y);
        let rhs_prev = dot(e1, bl, y);
        assert(dot(e, t, (2 * y + 1) as nat) == lhs_prev + x0 * i0);
        assert(dot(e, t, 2 * m) == dot(e, t, (2 * y + 1) as nat) + x1 * i1);
        lemma_congruent_ops(lhs_prev, x0 * i0 + x1 * i1, rhs_prev, evi * (bl[y as int] as int));
    }
}

/// One step of the equality table: each entry split by the new coordinate.
pub open spec fn eq_table_step(e1: Seq<nat>, a: nat) -> Seq<nat> {
    Seq::new(
        2 * e1.len(),
        |x: int|
            if x % 2 == 1 {
                fmul(e1[x / 2], a)
            } else {
                fsub(e1[x / 2], fmul(e1[x / 2], a))
            },
    )
}

/// Summing a table against the equality table of `r` evaluates its
/// multilinear extension at `r`.
pub proof fn lemma_eq_sum_is_evaluation(r: Seq<nat>, t: Seq<nat>)
    requires
        t.len() == pow2(r.len()),
    ensures
        congruent(dot(eq_table(r), t, t.len()), bind_all(t, r)[0] as int),
    decreases r.len(),
{
    if r.len() == 0 {
        vstd::arithmetic::power2::lemma2_to64();
        assert(eq_table(r) == seq![1nat]);
        assert(dot(eq_table(r), t, 1) == dot(eq_table(r), t, 0) + 1 * (t[0] as int));
    } else {
        let r1 = r.drop_last();
        let a = r.last();
        let e1 = eq_table(r1);
        crate::mle::lemma_eq_table_len(r1);
        vstd::arithmetic::power2::lemma_pow2_unfold(r.len());
        assert(eq_table(r) =~= eq_table_step(e1, a));
        let m = e1.len();
        lemma_dot_pairs(e1, a, t, m);
        let bl = bind_low(t, a);
        lemma_eq_sum_is_evaluation(r1, bl);
        lemma_bind_all_low(t, a, r1);
        lemma_bind_all_len(t, r1, r.len());
        assert(pow2(1) == 2) by {
            vstd::arithmetic::power2::lemma2_to64();
        }
        let s = bind_all(t, r1);
        lemma_bind_all_push(t, r1, a);
        assert(r1.push(a) =~= r);
        assert(bind_low(s, a)[0] == bind_top(s, a)[0]);
    }
}

/// `sum_{i < k} ts[i][x] ts[i + m][x] s^i` over the integers.
spec fn pair_terms(ts: Seq<Seq<nat>>, m: nat, s: nat, x: nat, k: nat) -> int
    decreases k,
{
    if k == 0 {
        0
    } else {
        let i = (k - 1) as nat;
        pair_terms(ts, m, s, x, i) + ts[i as int][x as int] as int * ts[(i + m) as int][x as int] as int * fpow(s, i) as int
    }
}

/// `sum_{x < n} pair_terms(x, k)`.
spec fn rows_of(ts: Seq<Seq<nat>>, m: nat, s: nat, n: nat, k: nat) -> int
    decreases n,
{
    if n == 0 {
        0
    } else {
        rows_of(ts, m, s, (n - 1) as nat, k) + pair_terms(ts, m, s, (n - 1) as nat, k)
    }
}

/// `sum_{x < n} ts[i][x] ts[i + m][x] s^i`.
spec fn column_of(ts: Seq<Seq<nat>>, m: nat, s: nat, i: nat, n: nat) -> int
    decreases n,
{
    if n == 0 {
        0
    } else {
        let x = (n - 1) as nat;
        column_of(ts, m, s, i, x) + ts[i as int][x as int] as int * ts[(i + m) as int][x as int] as int * fpow(s, i) as int
    }
}

/// `sum_{i < k} column_of(i, n)`.
spec fn columns_of(ts: Seq<Seq<nat>>, m: nat, s: nat, n: nat, k: nat) -> int
    decreases k,
{
    if k == 0 {
        0
    } else {
        columns_of(ts, m, s, n, (k - 1) as nat) + column_of(ts, m, s, (k - 1) as nat, n)
    }
}

/// Adding one more pair to every row adds its column.
proof fn lemma_rows_step(ts: Seq<Seq<nat>>, m: nat, s: nat, n: nat, k: nat)
    ensures
        rows_of(ts, m, s, n, k + 1) == rows_of(ts, m, s, n, k) + column_of(ts, m, s, k, n),
    decreases n,
{
    if n > 0 {
        lemma_rows_step(ts, m, s, (n - 1) as nat, k);
    }
}

/// The double sum may be taken in either order.
proof fn lemma_rows_columns(ts: Seq<Seq<nat>>, m: nat, s: nat, n: nat, k: nat)
    ensures
        rows_of(ts, m, s, n, k) == columns_of(ts, m, s, n, k),
    decreases k,
{
    if k == 0 {
        lemma_rows_zero(ts, m, s, n);
    } else {
        lemma_rows_columns(ts, m, s, n, (k - 1) as nat);
        lemma_rows_step(ts, m, s, n, (k - 1) as nat);
    }
}

proof fn lemma_rows_zero(ts: Seq<Seq<nat>>, m: nat, s: nat, n: nat)
    ensures
        rows_of(ts, m, s, n, 0) == 0,
    decreases n,
{
    if n > 0 {
        lemma_rows_zero(ts, m, s, (n - 1) as nat);
    }
}

/// A column is its weight times the sum of its products.
proof fn lemma_column_factor(ts: Seq<Seq<nat>>, m: nat, s: nat, i: nat, n: nat)
    ensures
        column_of(ts, m, s, i, n) == fpow(s, i) as int * dot(ts[i as int], ts[(i + m) as int], n),
    decreases n,
{
    if n > 0 {
        let x = (n - 1) as nat;
        lemma_column_factor(ts, m, s, i, x);
        let w = fpow(s, i) as int;
        let d = dot(ts[i as int], ts[(i + m) as int], x);
        let (a, b) = (ts[i as int][x as int] as int, ts[(i + m) as int][x as int] as int);
        assert(w * d + a * b * w == w * (d + a * b)) by (nonlinear_arith);
    }
}

/// The pair combination of one column is congruent to its integer sum.
proof fn lemma_pair_terms(ts: Seq<Seq<nat>>, m: nat, s: nat, x: nat, k: nat)
    requires
        k + m <= ts.len(),
    ensures
        congruent(weighted_pair_sum(column(ts, x), k, m, s) as int, pair_terms(ts, m, s, x, k)),
    decreases k,
{
    if k > 0 {
        let i = (k - 1) as nat;
        lemma_pair_terms(ts, m, s, x, i);
        let e = column(ts, x);
        let (a, b) = (e[i as int], e[(i + m) as int]);
        assert(a == ts[i as int][x as int] && b == ts[(i + m) as int][x as int]);
        let w = fpow(s, i);
        lemma_ops_congruent(a, b);
        lemma_ops_congruent(fmul(a, b), w);
        lemma_congruent_ops(fmul(a, b) as int, w as int, a as int * b as int, w as int);
        let prev = weighted_pair_sum(e, i, m, s);
        lemma_ops_congruent(prev, fmul(fmul(a, b), w));
        lemma_congruent_ops(prev as int, fmul(fmul(a, b), w) as int, pair_terms(ts, m, s, x, i), a as int * b as int * w as int);
    }
}

/// The combined sum over the first `n` points is congruent to the integer sum.
proof fn lemma_range_rows(ts: Seq<Seq<nat>>, m: usize, sigma: Scalar, n: nat)
    requires
        2 * m <= ts.len(),
    ensures
        congruent(
            range_sum(ts, Combiner::RandomCombination { m, sigma }, 0, n) as int,
            rows_of(ts, m as nat, sigma@, n, m as nat),
        ),
    decreases n,
{
    if n > 0 {
        let x = (n - 1) as nat;
        let comb = Combiner::RandomCombination { m, sigma };
        lemma_range_rows(ts, m, sigma, x);
        lemma_pair_terms(ts, m as nat, sigma@, x, m as nat);
        let prev = range_sum(ts, comb, 0, x);
        let c = comb.combine(column(ts, x));
        lemma_ops_congruent(prev, c);
        lemma_congruent_ops(prev as int, c as int, rows_of(ts, m as nat, sigma@, x, m as nat), pair_terms(ts, m as nat, sigma@, x, m as nat));
    }
}

/// `sum_{i < k} s^i v[i]` over the integers.
spec fn powers_sum(v: Seq<nat>, s: nat, k: nat) -> int
    decreases k,
{
    if k == 0 {
        0
    } else {
        powers_sum(v, s, (k - 1) as nat) + fpow(s, (k - 1) as nat) as int * v[k - 1] as int
    }
}

proof fn lemma_powers_sum_prefix(v: Seq<nat>, w: Seq<nat>, s: nat, k: nat)
    requires
        k <= v.len(),
        k <= w.len(),
        forall|i: int| 0 <= i < k ==> v[i] == w[i],
    ensures
        powers_sum(v, s, k) == powers_sum(w, s, k),
    decreases k,
{
    if k > 0 {
        lemma_powers_sum_prefix(v, w, s, (k - 1) as nat);
    }
}

/// The linear combination is congruent to its integer sum.
proof fn lemma_linear_combination_sum(v: Seq<nat>, s: nat)
    ensures
        congruent(linear_combination(v, s) as int, powers_sum(v, s, v.len())),
        linear_combination(v, s) < modulus(),
    decreases v.len(),
{
    if v.len() > 0 {
        let k = (v.len() - 1) as nat;
        lemma_linear_combination_sum(v.drop_last(), s);
        lemma_powers_sum_prefix(v.drop_last(), v, s, k);
        let w = fpow(s, k);
        let prev = linear_combination(v.drop_last(), s);
        lemma_ops_congruent(w, v.last());
        lemma_ops_congruent(prev, fmul(w, v.last()));
        lemma_congruent_ops(prev as int, fmul(w, v.last()) as int, powers_sum(v, s, k), w as int * v.last() as int);
    } else {
        vstd::arithmetic::div_mod::lemma_small_mod(0, modulus());
    }
}

/// The columns summed against the equality tables give the claims.
proof fn lemma_columns_claims(ts: Seq<Seq<nat>>, m: nat, s: nat, n: nat, claims: Seq<nat>, k: nat)
    requires
        k <= m,
        claims.len() == m,
        forall|i: int| 0 <= i < m ==> congruent(dot(#[trigger] ts[i], ts[i + m], n), claims[i] as int),
    ensures
        congruent(columns_of(ts, m, s, n, k), powers_sum(claims, s, k)),
    decreases k,
{
    if k > 0 {
        let i = (k - 1) as nat;
        lemma_columns_claims(ts, m, s, n, claims, i);
        lemma_column_factor(ts, m, s, i, n);
        let w = fpow(s, i) as int;
        assert(congruent(dot(ts[i as int], ts[(i + m) as int], n), claims[i as int] as int));
        lemma_congruent_ops(w, dot(ts[i as int], ts[(i + m) as int], n), w, claims[i as int] as int);
        lemma_congruent_ops(columns_of(ts, m, s, n, i), column_of(ts, m, s, i, n), powers_sum(claims, s, i), w * claims[i as int] as int);
    }
}

/// The entries of an equality table are field values.
proof fn lemma_eq_table_canonical(r: Seq<nat>)
    ensures
        canonical_table(eq_table(r)),
    decreases r.len(),
{
    if r.len() == 0 {
        vstd::arithmetic::div_mod::lemma_small_mod(1, modulus());
    } else {
        let e1 = eq_table(r.drop_last());
        let a = r.last();
        assert forall|x: int| 0 <= x < eq_table(r).len() implies #[trigger] eq_table(r)[x] < modulus() by {
            lemma_ops_congruent(e1[x / 2], a);
            lemma_ops_congruent(e1[x / 2], fmul(e1[x / 2], a));
        }
    }
}

/// Rerandomization is complete: when every folded polynomial takes its claim
/// at its point, the merged claim `sum_i sigma^i claim_i` is the sum over the
/// hypercube of `sum_i sigma^i eq_i p_i`, the sum its sum-check proves, so
/// every round check of that sum-check passes.
pub proof fn lemma_rerandomization_round_checks(objs: Seq<FoldedObject>, st: Seq<u8>, out: RerandomizationOutput)
    requires
        rerandomizable(objs),
        rerandomization_outcome(objs, st, out),
        forall|i: int| 0 <= i < objs.len() ==> canonical_table(#[trigger] objs[i].polynomial.table()),
        forall|i: int|
            0 <= i < objs.len() ==> (#[trigger] objs[i]).claim@ == bind_all(
                objs[i].polynomial.table(),
                values(objs[i].random_point@),
            )[0],
    ensures
        values(out.sumcheck.claims_per_round@)[0] == linear_combination(object_claims(objs), out.folded_object.challenge@),
        forall|i: int|
            0 <= i < out.sumcheck.polys.len() ==> fadd(
                #[trigger] poly_values(out.sumcheck.polys@)[i][0],
                poly_values(out.sumcheck.polys@)[i][1],
            ) == values(out.sumcheck.claims_per_round@)[i],
{
    reveal(rerandomization_outcome);
    reveal(random_combination_outcome);
    let k = objs.len();
    let sigma = out.folded_object.challenge;
    let eqs = object_eq_tables(objs);
    let ps = object_tables(objs);
    let ts0 = eqs + ps;
    let comb = Combiner::RandomCombination { m: k as usize, sigma };
    let n = out.sumcheck.challenge_points.len() as nat;
    let rs = values(out.sumcheck.challenge_points@);
    let l = pow2(n);
    let claim = linear_combination(object_claims(objs), sigma@);
    let t1 = after_challenge(st, RERAND_RLC_LABEL@);
    let n0 = objs[0].random_point.len();
    assert(eqs[0] == eq_table(values(objs[0].random_point@)));
    crate::mle::lemma_eq_table_len(values(objs[0].random_point@));
    assert(l == pow2(n0 as nat));
    assert forall|j: int| 0 <= j < ts0.len() implies (#[trigger] ts0[j]).len() == l && forall|x: int|
        0 <= x < l ==> #[trigger] ts0[j][x] < modulus() by {
        if j < k {
            assert(ts0[j] == eq_table(values(objs[j].random_point@)));
            crate::mle::lemma_eq_table_len(values(objs[j].random_point@));
            lemma_eq_table_canonical(values(objs[j].random_point@));
        } else {
            assert(ts0[j] == objs[j - k].polynomial.table());
        }
    }
    assert(uniform_tables(ts0, l));
    // the merged claim is the true sum
    assert forall|i: int| 0 <= i < k implies congruent(dot(#[trigger] ts0[i], ts0[i + k], l), object_claims(objs)[i] as int) by {
        let pt = values(objs[i].random_point@);
        assert(ts0[i] == eq_table(pt));
        assert(ts0[i + k] == objs[i].polynomial.table());
        assert(pt.len() == n0);
        lemma_eq_sum_is_evaluation(pt, objs[i].polynomial.table());
    }
    lemma_range_rows(ts0, k as usize, sigma, l);
    lemma_rows_columns(ts0, k as nat, sigma@, l, k as nat);
    lemma_columns_claims(ts0, k as nat, sigma@, l, object_claims(objs), k as nat);
    lemma_linear_combination_sum(object_claims(objs), sigma@);
    crate::sumcheck_utils::lemma_range_sum_canonical(ts0, comb, 0, l);
    crate::sumcheck_utils::lemma_max_len_uniform(ts0, l);
    lemma_congruent_values(hypercube_sum(ts0, comb), claim);
    lemma_sumcheck_completeness(ts0, comb, t1, n, claim, poly_values(out.sumcheck.polys@), values(out.sumcheck.claims_per_round@), rs);
}

} // verus!
