//! The round computation shared by the sum-check provers, and random
//! linear combinations of claims and of polynomials.
use crate::field::{fadd, fmul, fpow, fsub, values, Scalar};
use crate::mle::MultilinearPolynomial;
use vstd::arithmetic::power2::pow2;
use vstd::prelude::*;

verus! {

/// Low and high entries of a table for row `i` of the current round, where
/// `len_max` is the length of the longest table: a table of length one is
/// constant, and a shorter table does not depend on the variable being
/// folded, so both are its entry `i` (taken modulo its length).
pub open spec fn low_high_spec(t: Seq<nat>, i: nat, len_max: nat) -> (nat, nat) {
    if t.len() == 1 {
        (t[0], t[0])
    } else if t.len() == len_max {
        let half = t.len() / 2;
        (t[i as int], t[(half + i) as int])
    } else {
        let local = i % t.len();
        (t[local as int], t[local as int])
    }
}

/// `low + k * delta`, computed by adding `delta` `k` times.
pub open spec fn line_point(low: nat, delta: nat, k: nat) -> nat
    decreases k,
{
    if k == 0 {
        low
    } else {
        fadd(line_point(low, delta, (k - 1) as nat), delta)
    }
}

/// The value at `X = k` of the line through a table's low and high entries of row `i`.
pub open spec fn poly_point(t: Seq<nat>, i: nat, len_max: nat, k: nat) -> nat {
    let (lo, hi) = low_high_spec(t, i, len_max);
    line_point(lo, fsub(hi, lo), k)
}

/// The product of the entries of `s`.
pub open spec fn product(s: Seq<nat>) -> nat
    decreases s.len(),
{
    if s.len() == 0 {
        1
    } else {
        fmul(product(s.drop_last()), s.last())
    }
}

/// `sum_{i < m} e[i] * e[i + offset] * sigma^i`.
pub open spec fn weighted_pair_sum(e: Seq<nat>, m: nat, offset: nat, sigma: nat) -> nat
    decreases m,
{
    if m == 0 {
        0
    } else {
        let i = (m - 1) as nat;
        fadd(
            weighted_pair_sum(e, i, offset, sigma),
            fmul(fmul(e[i as int], e[(i + offset) as int]), fpow(sigma, i)),
        )
    }
}

/// The functions that combine the values of several tables in one point
/// into the summand of a sum-check.
#[derive(Clone, Copy, Debug)]
pub enum Combiner {
    /// `eq * (q_l z_a + q_r z_b + q_o z_c + q_m z_a z_b + q_c)` over
    /// `[q_l, q_r, q_o, q_m, q_c, z_a, z_b, z_c, eq]`.
    Plonkish,
    /// `z * eq * (prod a + rho prod b + rho^2 prod c)` over `dimension`
    /// values of each of `a`, `b`, `c`, then `z` and `eq`.
    Addr { dimension: usize, rho: Scalar },
    /// `sum_{i < 4} e[i] * e[i + 4] * sigma^i`.
    Rerand { sigma: Scalar },
    /// `sum_{i < m} eq_i * p_i * sigma^i` over `[eq_0..eq_m, p_0..p_m]`.
    RandomCombination { m: usize, sigma: Scalar },
}

impl Combiner {
    /// The number of values the combiner reads.
    pub open spec fn arity(self) -> nat {
        match self {
            Combiner::Plonkish => 9,
            Combiner::Addr { dimension, .. } => (3 * dimension + 2) as nat,
            Combiner::Rerand { .. } => 8,
            Combiner::RandomCombination { m, .. } => (2 * m) as nat,
        }
    }

    /// The combined value of `e`.
    pub open spec fn combine(self, e: Seq<nat>) -> nat {
        match self {
            Combiner::Plonkish => fmul(
                e[8],
                fadd(
                    fadd(fadd(fadd(fmul(e[0], e[5]), fmul(e[1], e[6])), fmul(e[2], e[7])), fmul(fmul(e[3], e[5]), e[6])),
                    e[4],
                ),
            ),
            Combiner::Addr { dimension, rho } => {
                let d = dimension as int;
                let a = product(e.subrange(0, d));
                let b = product(e.subrange(d, 2 * d));
                let c = product(e.subrange(2 * d, 3 * d));
                fmul(
                    fmul(e[3 * d], e[3 * d + 1]),
                    fadd(fadd(a, fmul(rho@, b)), fmul(fmul(rho@, rho@), c)),
                )
            },
            Combiner::Rerand { sigma } => weighted_pair_sum(e, 4, 4, sigma@),
            Combiner::RandomCombination { m, sigma } => weighted_pair_sum(e, m as nat, m as nat, sigma@),
        }
    }

    /// Combines the values `e`, one per table.
    pub fn apply(&self, e: &[Scalar]) -> (r: Scalar)
        requires
            e.len() >= self.arity(),
            self.arity() <= usize::MAX,
        ensures
            r@ == self.combine(values(e@)),
    {
        let ghost ev = values(e@);
        match self {
            Combiner::Plonkish => e[8].mul(
                e[0].mul(e[5]).add(e[1].mul(e[6])).add(e[2].mul(e[7])).add(e[3].mul(e[5]).mul(e[6])).add(
                    e[4],
                ),
            ),
            Combiner::Addr { dimension, rho } => {
                let d = *dimension;
                let a = product_range(e, 0, d);
                let b = product_range(e, d, 2 * d);
                let c = product_range(e, 2 * d, 3 * d);
                let z = e[3 * d];
                let eq = e[3 * d + 1];
                z.mul(eq).mul(a.add(rho.mul(b)).add(rho.mul(*rho).mul(c)))
            },
            Combiner::Rerand { sigma } => weighted_pairs(e, 4, 4, sigma),
            Combiner::RandomCombination { m, sigma } => weighted_pairs(e, *m, *m, sigma),
        }
    }
}

/// The product of `e[lo..hi]`.
fn product_range(e: &[Scalar], lo: usize, hi: usize) -> (r: Scalar)
    requires
        lo <= hi <= e.len(),
    ensures
        r@ == product(values(e@).subrange(lo as int, hi as int)),
{
    let ghost ev = values(e@);
    let mut acc = Scalar::one();
    let mut i = lo;
    assert(ev.subrange(lo as int, lo as int) =~= Seq::<nat>::empty());
    while i < hi
        invariant
            lo <= i <= hi <= e.len(),
            ev == values(e@),
            acc@ == product(ev.subrange(lo as int, i as int)),
        decreases hi - i,
    {
        acc = acc.mul(e[i]);
        assert(ev.subrange(lo as int, i + 1).drop_last() =~= ev.subrange(lo as int, i as int));
        i = i + 1;
    }
    acc
}

/// `sum_{i < m} e[i] * e[i + offset] * sigma^i`.
fn weighted_pairs(e: &[Scalar], m: usize, offset: usize, sigma: &Scalar) -> (r: Scalar)
    requires
        m + offset <= e.len(),
    ensures
        r@ == weighted_pair_sum(values(e@), m as nat, offset as nat, sigma@),
{
    let mut acc = Scalar::zero();
    for i in 0..m
        invariant
            m + offset <= e.len(),
            acc@ == weighted_pair_sum(values(e@), i as nat, offset as nat, sigma@),
    {
        acc = acc.add(e[i].mul(e[i + offset]).mul(sigma.pow(i as u64)));
    }
    acc
}

/// Low and high entries of `poly` for row `i` of the current round.
fn low_high(poly: &MultilinearPolynomial, i: usize, len_max: usize) -> (r: (Scalar, Scalar))
    requires
        poly.evaluation_over_boolean_hypercube.len() >= 1,
        i < len_max / 2,
    ensures
        (r.0@, r.1@) == low_high_spec(poly.table(), i as nat, len_max as nat),
{
    let l = poly.len();
    if l == 1 {
        (poly.get(0), poly.get(0))
    } else if l == len_max {
        let half = l / 2;
        (poly.get(i), poly.get(half + i))
    } else {
        let local = i % l;
        (poly.get(local), poly.get(local))
    }
}

/// The values `P(0), ..., P(d)` of the line through `poly`'s low and high
/// entries of row `i`.
fn eval_points_for_poly(poly: &MultilinearPolynomial, i: usize, len_max: usize, d: usize) -> (r: Vec<
    Scalar,
>)
    requires
        poly.evaluation_over_boolean_hypercube.len() >= 1,
        i < len_max / 2,
        d < usize::MAX,
    ensures
        r.len() == d + 1,
        forall|k: int| 0 <= k <= d ==> (#[trigger] r[k])@ == poly_point(poly.table(), i as nat, len_max as nat, k as nat),
{
    let (low, high) = low_high(poly, i, len_max);
    let delta = high.sub(low);
    let mut res: Vec<Scalar> = Vec::new();
    let mut cur = low;
    res.push(cur);
    for k in 1..d + 1
        invariant
            res.len() == k,
            cur@ == line_point(low@, delta@, (k - 1) as nat),
            forall|j: int| 0 <= j < k ==> (#[trigger] res[j])@ == line_point(low@, delta@, j as nat),
    {
        cur = cur.add(delta);
        res.push(cur);
    }
    res
}

} // verus!

verus! {

/// The evaluation tables of a list of polynomials.
pub open spec fn tables(polys: Seq<MultilinearPolynomial>) -> Seq<Seq<nat>> {
    polys.map_values(|p: MultilinearPolynomial| p.table())
}

/// The length of the longest table.
pub open spec fn max_len(ts: Seq<Seq<nat>>) -> nat
    decreases ts.len(),
{
    if ts.len() == 0 {
        0
    } else {
        let m = max_len(ts.drop_last());
        if ts.last().len() > m {
            ts.last().len()
        } else {
            m
        }
    }
}

/// The values at `X = k` of every table's line for row `row`.
pub open spec fn row_points(ts: Seq<Seq<nat>>, row: nat, len_max: nat, k: nat) -> Seq<nat> {
    Seq::new(ts.len(), |j: int| poly_point(ts[j], row, len_max, k))
}

/// `sum_{row < nrows} comb(row_points(row, k))`.
pub open spec fn rows_sum(ts: Seq<Seq<nat>>, len_max: nat, comb: Combiner, k: nat, nrows: nat) -> nat
    decreases nrows,
{
    if nrows == 0 {
        0
    } else {
        fadd(
            rows_sum(ts, len_max, comb, k, (nrows - 1) as nat),
            comb.combine(row_points(ts, (nrows - 1) as nat, len_max, k)),
        )
    }
}

/// The `d + 1` values `G(0), ..., G(d)` of a sum-check round polynomial
/// `G(X) = sum_rows comb(P_0(X), ..., P_{n-1}(X))`.
pub open spec fn round_evals(ts: Seq<Seq<nat>>, d: nat, comb: Combiner) -> Seq<nat> {
    Seq::new(d + 1, |k: int| rows_sum(ts, max_len(ts), comb, k as nat, max_len(ts) / 2))
}

/// Each table has at least one entry and the longest has a power-of-two length.
pub open spec fn round_ready(ts: Seq<Seq<nat>>) -> bool {
    &&& ts.len() > 0
    &&& forall|j: int| 0 <= j < ts.len() ==> (#[trigger] ts[j]).len() >= 1
    &&& exists|n: nat| pow2(n) == max_len(ts)
}

pub(crate) proof fn lemma_max_len_bound(ts: Seq<Seq<nat>>)
    ensures
        forall|j: int| 0 <= j < ts.len() ==> (#[trigger] ts[j]).len() <= max_len(ts),
        ts.len() > 0 ==> exists|j: int| 0 <= j < ts.len() && (#[trigger] ts[j]).len() == max_len(ts),
    decreases ts.len(),
{
    if ts.len() > 0 {
        let pre = ts.drop_last();
        lemma_max_len_bound(pre);
        assert forall|j: int| 0 <= j < ts.len() implies (#[trigger] ts[j]).len() <= max_len(ts) by {
            if j < pre.len() {
                assert(ts[j] == pre[j]);
            }
        }
        if ts.last().len() > max_len(pre) || pre.len() == 0 {
            assert(ts[ts.len() - 1].len() == max_len(ts));
        } else {
            let j = choose|j: int| 0 <= j < pre.len() && (#[trigger] pre[j]).len() == max_len(pre);
            assert(ts[j] == pre[j]);
        }
    }
}

/// Fixes one Boolean variable of `polys` at once and returns the `d + 1`
/// values `G(0), ..., G(d)` of `G(X) = sum_rows comb(P_0(X), ..., P_{n-1}(X))`,
/// where a table shorter than the longest does not depend on the folded
/// variable (its line is constant at its entry `row mod len`). The
/// combination is one of the protocol's `Combiner`s, whose value is stated;
/// `compute_eval_points_degree_d_with` takes any closure instead.
pub fn compute_eval_points_degree_d(polys: &[MultilinearPolynomial], d: usize, comb_func: &Combiner) -> (r:
    Vec<Scalar>)
    requires
        round_ready(tables(polys@)),
        polys.len() >= comb_func.arity(),
        comb_func.arity() <= usize::MAX,
        d < usize::MAX,
    ensures
        values(r@) == round_evals(tables(polys@), d as nat, *comb_func),
{
    let ghost ts = tables(polys@);
    let mut len_max: usize = 0;
    for j in 0..polys.len()
        invariant
            ts == tables(polys@),
            len_max == max_len(ts.take(j as int)),
    {
        assert(ts.take(j + 1).drop_last() =~= ts.take(j as int));
        assert(ts[j as int] == polys@[j as int].table());
        if polys[j].len() > len_max {
            len_max = polys[j].len();
        }
    }
    assert(ts.take(polys.len() as int) =~= ts);
    proof {
        lemma_max_len_bound(ts);
    }
    let half_max = len_max / 2;
    let mut acc: Vec<Scalar> = Vec::new();
    for k in 0..d + 1
        invariant
            acc.len() == k,
            forall|j: int| 0 <= j < k ==> (#[trigger] acc[j])@ == 0,
    {
        acc.push(Scalar::zero());
    }
    for row in 0..half_max
        invariant
            ts == tables(polys@),
            len_max == max_len(ts),
            half_max == len_max / 2,
            round_ready(ts),
            polys.len() >= comb_func.arity(),
            comb_func.arity() <= usize::MAX,
            d < usize::MAX,
            acc.len() == d + 1,
            forall|k: int| 0 <= k <= d ==> (#[trigger] acc[k])@ == rows_sum(ts, len_max as nat, *comb_func, k as nat, row as nat),
    {
        let mut per_poly_pts: Vec<Vec<Scalar>> = Vec::new();
        for j in 0..polys.len()
            invariant
                ts == tables(polys@),
                row < len_max / 2,
                d < usize::MAX,
                round_ready(ts),
                per_poly_pts.len() == j,
                forall|jj: int| 0 <= jj < j ==> (#[trigger] per_poly_pts[jj]).len() == d + 1,
                forall|jj: int, k: int| 0 <= jj < j && 0 <= k <= d ==> (#[trigger] per_poly_pts[jj][k])@
                    == poly_point(ts[jj], row as nat, len_max as nat, k as nat),
        {
            assert(ts[j as int] == polys@[j as int].table());
            assert(ts[j as int].len() >= 1);
            per_poly_pts.push(eval_points_for_poly(&polys[j], row, len_max, d));
        }
        for k in 0..d + 1
            invariant
                ts == tables(polys@),
                per_poly_pts.len() == polys.len(),
                polys.len() >= comb_func.arity(),
                comb_func.arity() <= usize::MAX,
                forall|jj: int| 0 <= jj < polys.len() ==> (#[trigger] per_poly_pts[jj]).len() == d + 1,
                forall|jj: int, kk: int| 0 <= jj < polys.len() && 0 <= kk <= d ==> (#[trigger] per_poly_pts[jj][kk])@
                    == poly_point(ts[jj], row as nat, len_max as nat, kk as nat),
                acc.len() == d + 1,
                forall|kk: int| 0 <= kk < k ==> (#[trigger] acc[kk])@ == rows_sum(ts, len_max as nat, *comb_func, kk as nat, (row + 1) as nat),
                forall|kk: int| k <= kk <= d ==> (#[trigger] acc[kk])@ == rows_sum(ts, len_max as nat, *comb_func, kk as nat, row as nat),
        {
            let mut tmp: Vec<Scalar> = Vec::new();
            for j in 0..polys.len()
                invariant
                    per_poly_pts.len() == polys.len(),
                    forall|jj: int| 0 <= jj < polys.len() ==> (#[trigger] per_poly_pts[jj]).len() == d + 1,
                    k <= d,
                    tmp.len() == j,
                    forall|jj: int| 0 <= jj < j ==> (#[trigger] tmp[jj]) == per_poly_pts[jj][k as int],
            {
                tmp.push(per_poly_pts[j][k]);
            }
            let v = comb_func.apply(tmp.as_slice());
            assert(values(tmp@) =~= row_points(ts, row as nat, len_max as nat, k as nat));
            let updated = acc[k].add(v);
            acc.set(k, updated);
        }
    }
    assert(values(acc@) =~= round_evals(ts, d as nat, *comb_func));
    acc
}

} // verus!

verus! {

/// The field sum of `s`, added from the first entry on.
pub open spec fn field_sum(s: Seq<nat>) -> nat
    decreases s.len(),
{
    if s.len() == 0 {
        0
    } else {
        fadd(field_sum(s.drop_last()), s.last())
    }
}

/// `outs` holds, for each row, what `f` returned on the argument `args` of
/// that row, whose values are those at `X = k` of every table's line.
pub open spec fn row_outputs<C: Fn(Vec<Scalar>) -> Scalar>(
    f: C,
    ts: Seq<Seq<nat>>,
    len_max: nat,
    k: nat,
    args: Seq<Vec<Scalar>>,
    outs: Seq<Scalar>,
) -> bool {
    &&& args.len() == outs.len()
    &&& forall|row: int|
        0 <= row < outs.len() ==> values((#[trigger] args[row])@) == row_points(ts, row as nat, len_max, k)
            && call_ensures(f, (args[row],), outs[row])
}

/// `v` is the sum of the row outputs of `f` at `X = k`, for some arguments
/// and outputs of `f` as `row_outputs` describes them.
pub open spec fn eval_point_outcome<C: Fn(Vec<Scalar>) -> Scalar>(f: C, ts: Seq<Seq<nat>>, k: nat, v: Scalar) -> bool {
    exists|args: Seq<Vec<Scalar>>, outs: Seq<Scalar>|
        {
            &&& outs.len() == max_len(ts) / 2
            &&& #[trigger] row_outputs(f, ts, max_len(ts), k, args, outs)
            &&& v@ == field_sum(values(outs))
        }
}

/// Like `compute_eval_points_degree_d`, for a combination function given as
/// a closure: value `k` of the result is the sum over the rows of what
/// `comb_func` returns on the values at `X = k` of every table's line.
pub fn compute_eval_points_degree_d_with<C: Fn(Vec<Scalar>) -> Scalar>(
    polys: &[MultilinearPolynomial],
    d: usize,
    comb_func: C,
) -> (r: Vec<Scalar>)
    requires
        round_ready(tables(polys@)),
        d < usize::MAX,
        forall|v: Vec<Scalar>| #[trigger] call_requires(comb_func, (v,)),
    ensures
        r.len() == d + 1,
        forall|k: int| 0 <= k <= d ==> eval_point_outcome(comb_func, tables(polys@), k as nat, #[trigger] r[k]),
{
    let ghost ts = tables(polys@);
    let mut len_max: usize = 0;
    for j in 0..polys.len()
        invariant
            ts == tables(polys@),
            len_max == max_len(ts.take(j as int)),
    {
        assert(ts.take(j + 1).drop_last() =~= ts.take(j as int));
        assert(ts[j as int] == polys@[j as int].table());
        if polys[j].len() > len_max {
            len_max = polys[j].len();
        }
    }
    assert(ts.take(polys.len() as int) =~= ts);
    proof {
        lemma_max_len_bound(ts);
    }
    let half_max = len_max / 2;
    let mut res: Vec<Scalar> = Vec::new();
    let ghost mut all_args: Seq<Seq<Vec<Scalar>>> = Seq::empty();
    let ghost mut all_outs: Seq<Seq<Scalar>> = Seq::empty();
    for k in 0..d + 1
        invariant
            ts == tables(polys@),
            len_max == max_len(ts),
            half_max == len_max / 2,
            round_ready(ts),
            d < usize::MAX,
            forall|v: Vec<Scalar>| #[trigger] call_requires(comb_func, (v,)),
            res.len() == k,
            all_args.len() == k,
            all_outs.len() == k,
            forall|kk: int|
                0 <= kk < k ==> {
                    &&& (#[trigger] all_outs[kk]).len() == half_max
                    &&& row_outputs(comb_func, ts, len_max as nat, kk as nat, all_args[kk], all_outs[kk])
                    &&& res[kk]@ == field_sum(values(all_outs[kk]))
                },
    {
        let mut acc = Scalar::zero();
        let ghost mut outs: Seq<Scalar> = Seq::empty();
        let ghost mut args: Seq<Vec<Scalar>> = Seq::empty();
        for row in 0..half_max
            invariant
                ts == tables(polys@),
                len_max == max_len(ts),
                half_max == len_max / 2,
                round_ready(ts),
                d < usize::MAX,
                k <= d,
                forall|v: Vec<Scalar>| #[trigger] call_requires(comb_func, (v,)),
                outs.len() == row,
                row_outputs(comb_func, ts, len_max as nat, k as nat, args, outs),
                acc@ == field_sum(values(outs)),
        {
            let mut tmp: Vec<Scalar> = Vec::new();
            for j in 0..polys.len()
                invariant
                    ts == tables(polys@),
                    row < len_max / 2,
                    d < usize::MAX,
                    k <= d,
                    round_ready(ts),
                    tmp.len() == j,
                    forall|jj: int| 0 <= jj < j ==> (#[trigger] tmp[jj])@ == poly_point(ts[jj], row as nat, len_max as nat, k as nat),
            {
                assert(ts[j as int] == polys@[j as int].table());
                assert(ts[j as int].len() >= 1);
                let pts = eval_points_for_poly(&polys[j], row, len_max, d);
                tmp.push(pts[k]);
            }
            let ghost tv = tmp;
            assert(values(tv@) =~= row_points(ts, row as nat, len_max as nat, k as nat));
            let v = comb_func(tmp);
            proof {
                let old_outs = outs;
                let old_args = args;
                outs = outs.push(v);
                args = args.push(tv);
                assert forall|rr: int| 0 <= rr < outs.len() implies values((#[trigger] args[rr])@) == row_points(
                    ts,
                    rr as nat,
                    len_max as nat,
                    k as nat,
                ) && call_ensures(comb_func, (args[rr],), outs[rr]) by {
                    if rr < old_outs.len() {
                        assert(args[rr] == old_args[rr]);
                        assert(outs[rr] == old_outs[rr]);
                    }
                }
                assert(values(outs).drop_last() =~= values(old_outs));
            }
            acc = acc.add(v);
        }
        let ghost rb = res@;
        res.push(acc);
        proof {
            let old_args = all_args;
            let old_outs = all_outs;
            all_args = all_args.push(args);
            all_outs = all_outs.push(outs);
            assert forall|kk: int| 0 <= kk < k + 1 implies {
                &&& (#[trigger] all_outs[kk]).len() == half_max
                &&& row_outputs(comb_func, ts, len_max as nat, kk as nat, all_args[kk], all_outs[kk])
                &&& res[kk]@ == field_sum(values(all_outs[kk]))
            } by {
                if kk < k {
                    assert(all_outs[kk] == old_outs[kk]);
                    assert(all_args[kk] == old_args[kk]);
                    assert(res[kk] == rb[kk]);
                }
            }
        }
    }
    assert forall|k: int| 0 <= k <= d implies eval_point_outcome(comb_func, tables(polys@), k as nat, #[trigger] res[k]) by {
        assert(all_outs[k].len() == half_max);
        assert(row_outputs(comb_func, ts, len_max as nat, k as nat, all_args[k], all_outs[k]));
    }
    res
}

/// `claims[0] + sum_{i >= 1} claims[i] * coeff^(i - 1)`: the first claim is
/// taken as it is and the exponent of each later claim counts from zero.
pub open spec fn scalar_rlc_spec(claims: Seq<nat>, coeff: nat) -> nat
    decreases claims.len(),
{
    if claims.len() <= 1 {
        claims[0]
    } else {
        fadd(
            scalar_rlc_spec(claims.drop_last(), coeff),
            fmul(claims.last(), fpow(coeff, (claims.len() - 2) as nat)),
        )
    }
}

/// The table of `sum_i coeff^i * P_i` for tables of one length.
pub open spec fn polynomial_rlc_spec(ts: Seq<Seq<nat>>, coeff: nat) -> Seq<nat>
    decreases ts.len(),
{
    if ts.len() <= 1 {
        ts[0].map_values(|x: nat| fmul(x, fpow(coeff, 0)))
    } else {
        let prev = polynomial_rlc_spec(ts.drop_last(), coeff);
        Seq::new(
            prev.len(),
            |x: int| fadd(prev[x], fmul(ts.last()[x], fpow(coeff, (ts.len() - 1) as nat))),
        )
    }
}

pub(crate) proof fn lemma_polynomial_rlc_len(ts: Seq<Seq<nat>>, coeff: nat)
    requires
        ts.len() >= 1,
    ensures
        polynomial_rlc_spec(ts, coeff).len() == ts[0].len(),
    decreases ts.len(),
{
    if ts.len() > 1 {
        lemma_polynomial_rlc_len(ts.drop_last(), coeff);
    }
}

/// Combines claims with powers of `coeff`: `claims[0] + sum_{i >= 1}
/// claims[i] * coeff^(i - 1)`.
pub fn scalar_rlc(claims: &[Scalar], coeff: &Scalar) -> (r: Scalar)
    requires
        claims.len() >= 1,
    ensures
        r@ == scalar_rlc_spec(values(claims@), coeff@),
{
    let ghost cv = values(claims@);
    let mut sum = claims[0];
    assert(cv.take(1).len() == 1);
    for idx in 0..claims.len() - 1
        invariant
            cv == values(claims@),
            claims.len() >= 1,
            sum@ == scalar_rlc_spec(cv.take(idx + 1), coeff@),
    {
        sum = sum.add(claims[idx + 1].mul(coeff.pow(idx as u64)));
        assert(cv.take(idx + 2).drop_last() =~= cv.take(idx + 1));
    }
    assert(cv.take(claims.len() as int) =~= cv);
    sum
}

/// The polynomial `sum_i coeff^i * polynomials[i]`.
pub fn polynomial_rlc(polynomials: &[MultilinearPolynomial], coeff: &Scalar) -> (r: MultilinearPolynomial)
    requires
        polynomials.len() >= 1,
        forall|i: int| 0 <= i < polynomials.len() ==> (#[trigger] polynomials[i]).evaluation_over_boolean_hypercube.len()
            == polynomials[0].evaluation_over_boolean_hypercube.len(),
    ensures
        r.table() == polynomial_rlc_spec(tables(polynomials@), coeff@),
        r.evaluation_over_boolean_hypercube.len() == polynomials[0].evaluation_over_boolean_hypercube.len(),
{
    let ghost ts = tables(polynomials@);
    let mut sum = MultilinearPolynomial {
        evaluation_over_boolean_hypercube: crate::nexus_spartan::copy_slice(
            polynomials[0].evaluation_over_boolean_hypercube.as_slice(),
        ),
    };
    sum.scalar_mul(&coeff.pow(0));
    assert(ts.take(1).len() == 1);
    assert(ts[0] == polynomials@[0].table());
    assert(sum.table() =~= polynomial_rlc_spec(ts.take(1), coeff@));
    for index in 1..polynomials.len()
        invariant
            ts == tables(polynomials@),
            forall|i: int| 0 <= i < polynomials.len() ==> (#[trigger] polynomials[i]).evaluation_over_boolean_hypercube.len()
                == polynomials[0].evaluation_over_boolean_hypercube.len(),
            sum.evaluation_over_boolean_hypercube.len() == polynomials[0].evaluation_over_boolean_hypercube.len(),
            sum.table() == polynomial_rlc_spec(ts.take(index as int), coeff@),
    {
        let mut term = MultilinearPolynomial {
            evaluation_over_boolean_hypercube: crate::nexus_spartan::copy_slice(
                polynomials[index].evaluation_over_boolean_hypercube.as_slice(),
            ),
        };
        term.scalar_mul(&coeff.pow(index as u64));
        sum = sum.add(&term);
        proof {
            let t1 = ts.take(index + 1);
            assert(t1.drop_last() =~= ts.take(index as int));
            assert(t1.last() == polynomials@[index as int].table());
            lemma_polynomial_rlc_len(ts.take(index as int), coeff@);
            assert(sum.table() =~= polynomial_rlc_spec(t1, coeff@));
        }
    }
    assert(ts.take(polynomials.len() as int) =~= ts);
    sum
}

} // verus!

verus! {

/// The values of every table at the hypercube point `x`.
pub open spec fn column(ts: Seq<Seq<nat>>, x: nat) -> Seq<nat> {
    Seq::new(ts.len(), |j: int| ts[j][x as int])
}

/// `sum_{lo <= x < hi} comb(column(ts, x))`.
pub open spec fn range_sum(ts: Seq<Seq<nat>>, comb: Combiner, lo: nat, hi: nat) -> nat
    decreases (if hi > lo { hi - lo } else { 0 }),
{
    if hi <= lo {
        0
    } else {
        fadd(range_sum(ts, comb, lo, (hi - 1) as nat), comb.combine(column(ts, (hi - 1) as nat)))
    }
}

/// `sum_x comb(P_0(x), ..., P_{n-1}(x))` over the whole hypercube.
pub open spec fn hypercube_sum(ts: Seq<Seq<nat>>, comb: Combiner) -> nat {
    range_sum(ts, comb, 0, max_len(ts))
}

/// Every table has length `len` and holds field values.
pub open spec fn uniform_tables(ts: Seq<Seq<nat>>, len: nat) -> bool {
    forall|j: int| 0 <= j < ts.len() ==> (#[trigger] ts[j]).len() == len && forall|x: int|
        0 <= x < len ==> #[trigger] ts[j][x] < crate::field::modulus()
}

pub(crate) proof fn lemma_max_len_uniform(ts: Seq<Seq<nat>>, len: nat)
    requires
        ts.len() > 0,
        forall|j: int| 0 <= j < ts.len() ==> (#[trigger] ts[j]).len() == len,
    ensures
        max_len(ts) == len,
    decreases ts.len(),
{
    if ts.len() > 1 {
        let pre = ts.drop_last();
        assert forall|j: int| 0 <= j < pre.len() implies (#[trigger] pre[j]).len() == len by {
            assert(pre[j] == ts[j]);
        }
        lemma_max_len_uniform(pre, len);
    } else {
        assert(max_len(ts.drop_last()) == 0);
    }
    assert(ts.last() == ts[ts.len() - 1]);
}

pub(crate) proof fn lemma_range_sum_canonical(ts: Seq<Seq<nat>>, comb: Combiner, lo: nat, hi: nat)
    ensures
        range_sum(ts, comb, lo, hi) < crate::field::modulus(),
    decreases (if hi > lo { hi - lo } else { 0 }),
{
    if hi > lo {
        lemma_range_sum_canonical(ts, comb, lo, (hi - 1) as nat);
    }
}

proof fn lemma_range_sum_split(ts: Seq<Seq<nat>>, comb: Combiner, mid: nat, n: nat)
    ensures
        range_sum(ts, comb, 0, mid + n) == fadd(range_sum(ts, comb, 0, mid), range_sum(ts, comb, mid, mid + n)),
    decreases n,
{
    lemma_range_sum_canonical(ts, comb, 0, mid);
    if n == 0 {
        crate::field::lemma_fadd_zero(range_sum(ts, comb, 0, mid));
    } else {
        lemma_range_sum_split(ts, comb, mid, (n - 1) as nat);
        crate::field::lemma_fadd_assoc(
            range_sum(ts, comb, 0, mid),
            range_sum(ts, comb, mid, (mid + n - 1) as nat),
            comb.combine(column(ts, (mid + n - 1) as nat)),
        );
    }
}

proof fn lemma_rows_sum_low(ts: Seq<Seq<nat>>, comb: Combiner, len: nat, n: nat)
    requires
        uniform_tables(ts, len),
        len >= 2,
        n <= len / 2,
    ensures
        rows_sum(ts, len, comb, 0, n) == range_sum(ts, comb, 0, n),
    decreases n,
{
    if n > 0 {
        lemma_rows_sum_low(ts, comb, len, (n - 1) as nat);
        assert(row_points(ts, (n - 1) as nat, len, 0) =~= column(ts, (n - 1) as nat));
    }
}

proof fn lemma_rows_sum_high(ts: Seq<Seq<nat>>, comb: Combiner, len: nat, n: nat)
    requires
        uniform_tables(ts, len),
        len >= 2,
        n <= len / 2,
    ensures
        rows_sum(ts, len, comb, 1, n) == range_sum(ts, comb, len / 2, len / 2 + n),
    decreases n,
{
    if n > 0 {
        lemma_rows_sum_high(ts, comb, len, (n - 1) as nat);
        let i = (n - 1) as nat;
        assert forall|j: int| 0 <= j < ts.len() implies #[trigger] row_points(ts, i, len, 1)[j] == column(
            ts,
            len / 2 + i,
        )[j] by {
            let t = ts[j];
            assert(t.len() == len);
            let lo = ts[j][i as int];
            let hi = ts[j][(len / 2 + i) as int];
            assert(lo < crate::field::modulus());
            assert(hi < crate::field::modulus());
            assert(low_high_spec(t, i, len) == (lo, hi));
            crate::field::lemma_fadd_fsub_cancel(lo, hi);
            assert(line_point(lo, fsub(hi, lo), 1) == fadd(line_point(lo, fsub(hi, lo), 0), fsub(hi, lo)));
        }
        assert(row_points(ts, i, len, 1) =~= column(ts, len / 2 + i));
    }
}

/// Sum-check round consistency: for tables of one even length, the values at
/// `X = 0` and `X = 1` of the round polynomial that
/// `compute_eval_points_degree_d` returns add up to the sum of the combined
/// tables over the whole hypercube, the claim the round answers.
pub proof fn lemma_round_consistency(ts: Seq<Seq<nat>>, len: nat, d: nat, comb: Combiner)
    requires
        ts.len() > 0,
        uniform_tables(ts, len),
        len >= 2,
        len % 2 == 0,
        d >= 1,
    ensures
        fadd(round_evals(ts, d, comb)[0], round_evals(ts, d, comb)[1]) == hypercube_sum(ts, comb),
{
    assert forall|j: int| 0 <= j < ts.len() implies (#[trigger] ts[j]).len() == len by {}
    lemma_max_len_uniform(ts, len);
    let half = len / 2;
    lemma_rows_sum_low(ts, comb, len, half);
    lemma_rows_sum_high(ts, comb, len, half);
    lemma_range_sum_split(ts, comb, half, half);
}

} // verus!
