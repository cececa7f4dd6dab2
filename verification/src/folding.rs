//! Folding sum-check outcomes into a single claim about a random linear
//! combination of polynomials and commitments, and the law that folding
//! commutes with evaluation.
use crate::curve::{commitment_rlc, g1_msm, point_rlc, point_views, powers, G1Point};
use crate::field::{fadd, fmul, fpow, values, Scalar};
use crate::circuit::linear_combination;
use crate::mle::{
    bind_all, canonical_table, eq_eval, eq_table, lemma_bind_all_canonical, lemma_bind_all_lin, lemma_bind_all_scaled,
    lin_table, scaled_table, EqPolynomial, MultilinearPolynomial,
};
use crate::plonkish::{PlonkishCommitments, PlonkishShape};
use crate::sumcheck_utils::{polynomial_rlc, polynomial_rlc_spec, scalar_rlc, scalar_rlc_spec, tables};
use crate::sumchecks::{copy_poly, extend_polys, final_value, final_values, AddrMSumcheckResult, PlonkishSumcheckResult};
use crate::nexus_spartan::append_copies;
use crate::transcript::{after_challenge, challenge_value, Transcript, PLONKISH_GAMMA_LABEL};
use vstd::prelude::*;

verus! {

/// A claim that `polynomial`, committed to by `commitment`, takes the value
/// `claim` at `random_point`, obtained with the folding challenge `challenge`.
#[derive(Clone, Debug)]
pub struct FoldedObject {
    pub challenge: Scalar,
    pub claim: Scalar,
    pub random_point: Vec<Scalar>,
    pub commitment: G1Point,
    pub polynomial: MultilinearPolynomial,
}

/// The claims the Plonkish fold combines, in order.
pub open spec fn plonkish_claims(r: PlonkishSumcheckResult) -> Seq<nat> {
    seq![r.v_l@, r.v_r@, r.v_o@, r.v_m@, r.v_c@, r.v_a@, r.v_b@, r.v_c@, r.eq@]
}

/// The selector tables the Plonkish fold combines, in order.
pub open spec fn selector_tables(s: PlonkishShape) -> Seq<Seq<nat>> {
    seq![s.q_l.table(), s.q_r.table(), s.q_o.table(), s.q_m.table(), s.q_c.table()]
}

/// The selector commitments the Plonkish fold combines, in order.
pub open spec fn selector_commitments(c: PlonkishCommitments) -> Seq<G1Point> {
    seq![c.q_l, c.q_r, c.q_o, c.q_m, c.q_c]
}

/// The selectors have one length.
pub open spec fn selectors_aligned(s: PlonkishShape) -> bool {
    &&& s.q_r.evaluation_over_boolean_hypercube.len() == s.q_l.evaluation_over_boolean_hypercube.len()
    &&& s.q_o.evaluation_over_boolean_hypercube.len() == s.q_l.evaluation_over_boolean_hypercube.len()
    &&& s.q_m.evaluation_over_boolean_hypercube.len() == s.q_l.evaluation_over_boolean_hypercube.len()
    &&& s.q_c.evaluation_over_boolean_hypercube.len() == s.q_l.evaluation_over_boolean_hypercube.len()
}

fn selector_polys(s: &PlonkishShape) -> (r: Vec<MultilinearPolynomial>)
    ensures
        tables(r@) == selector_tables(*s),
        r.len() == 5,
        r@[0].evaluation_over_boolean_hypercube.len() == s.q_l.evaluation_over_boolean_hypercube.len(),
        selectors_aligned(*s) ==> forall|i: int| 0 <= i < 5 ==> (#[trigger] r@[i]).evaluation_over_boolean_hypercube.len()
            == s.q_l.evaluation_over_boolean_hypercube.len(),
{
    let mut polynomials: Vec<MultilinearPolynomial> = Vec::new();
    polynomials.push(copy_poly(&s.q_l));
    polynomials.push(copy_poly(&s.q_r));
    polynomials.push(copy_poly(&s.q_o));
    polynomials.push(copy_poly(&s.q_m));
    polynomials.push(copy_poly(&s.q_c));
    assert(tables(polynomials@) =~= selector_tables(*s));
    polynomials
}

/// The Plonkish fold of `r` drawn from the transcript state `st`: the
/// challenge, and the claims, selectors and selector commitments combined
/// with its powers, at the point of the sum-check.
#[verifier::opaque]
pub open spec fn plonkish_fold_outcome(
    r: PlonkishSumcheckResult,
    shape: PlonkishShape,
    commitments: PlonkishCommitments,
    st: Seq<u8>,
    f: FoldedObject,
) -> bool {
    &&& f.challenge@ == challenge_value(st, PLONKISH_GAMMA_LABEL@)
    &&& f.claim@ == scalar_rlc_spec(plonkish_claims(r), f.challenge@)
    &&& f.polynomial.table() == polynomial_rlc_spec(selector_tables(shape), f.challenge@)
    &&& f.commitment@ == g1_msm(point_views(selector_commitments(commitments)), powers(f.challenge@, 5))
    &&& f.random_point@ == r.challenge_points@
}

/// Folds the Plonkish sum-check outcome: draws `gamma` from the transcript and
/// combines the claims, the selector polynomials and their commitments with
/// powers of `gamma`.
pub fn fold(
    sumcheck_result: &PlonkishSumcheckResult,
    transcript: &mut Transcript,
    incoming_shape: &PlonkishShape,
    incoming_commitments: &PlonkishCommitments,
) -> (f: FoldedObject)
    requires
        selectors_aligned(*incoming_shape),
    ensures
        plonkish_fold_outcome(*sumcheck_result, *incoming_shape, *incoming_commitments, old(transcript)@, f),
        final(transcript)@ == after_challenge(old(transcript)@, PLONKISH_GAMMA_LABEL@),
{
    proof {
        reveal(plonkish_fold_outcome);
    }
    let gamma = transcript.challenge_scalar(&PLONKISH_GAMMA_LABEL);
    let claims = [
        sumcheck_result.v_l,
        sumcheck_result.v_r,
        sumcheck_result.v_o,
        sumcheck_result.v_m,
        sumcheck_result.v_c,
        sumcheck_result.v_a,
        sumcheck_result.v_b,
        sumcheck_result.v_c,
        sumcheck_result.eq,
    ];
    assert(values(claims@) =~= plonkish_claims(*sumcheck_result));
    let folded_claim = scalar_rlc(&claims, &gamma);
    let polynomials = selector_polys(incoming_shape);
    let folded_poly = polynomial_rlc(polynomials.as_slice(), &gamma);
    let commitments_to_combine = [
        incoming_commitments.q_l,
        incoming_commitments.q_r,
        incoming_commitments.q_o,
        incoming_commitments.q_m,
        incoming_commitments.q_c,
    ];
    assert(commitments_to_combine@ =~= selector_commitments(*incoming_commitments));
    let folded_commitment = point_rlc(&commitments_to_combine, &gamma);
    FoldedObject {
        challenge: gamma,
        claim: folded_claim,
        random_point: crate::nexus_spartan::copy_slice(sumcheck_result.challenge_points.as_slice()),
        commitment: folded_commitment,
        polynomial: folded_poly,
    }
}

/// The address tables of a shape, `addr_a` then `addr_b` then `addr_c`.
pub open spec fn addr_polys(s: PlonkishShape) -> Seq<MultilinearPolynomial> {
    s.addr_a@ + s.addr_b@ + s.addr_c@
}

/// There is at least one address table and all have one length.
pub open spec fn addr_aligned(s: PlonkishShape) -> bool {
    let ps = addr_polys(s);
    &&& ps.len() >= 1
    &&& forall|i: int| 0 <= i < ps.len() ==> (#[trigger] ps[i]).evaluation_over_boolean_hypercube.len()
        == ps[0].evaluation_over_boolean_hypercube.len()
}

/// The claims the address fold combines: the evaluations of the `a`, `b` and
/// `c` address tables, then the witness evaluation.
pub open spec fn addr_claims(r: AddrMSumcheckResult) -> Seq<nat> {
    values(r.addr_a_evals@) + values(r.addr_b_evals@) + values(r.addr_c_evals@) + seq![r.w_eval@]
}

/// The address commitments, `addr_a` then `addr_b` then `addr_c`.
pub open spec fn addr_commitments(c: PlonkishCommitments) -> Seq<G1Point> {
    c.addr_a@ + c.addr_b@ + c.addr_c@
}

/// The address fold of `r` with the challenge `gamma`: the claims, address
/// polynomials and address commitments combined with powers of `gamma`, at
/// the point of the sum-check.
#[verifier::opaque]
pub open spec fn addr_fold_outcome(
    r: AddrMSumcheckResult,
    shape: PlonkishShape,
    commitments: PlonkishCommitments,
    gamma: Scalar,
    f: FoldedObject,
) -> bool {
    &&& f.challenge == gamma
    &&& f.claim@ == scalar_rlc_spec(addr_claims(r), gamma@)
    &&& f.polynomial.table() == polynomial_rlc_spec(tables(addr_polys(shape)), gamma@)
    &&& f.commitment@ == g1_msm(point_views(addr_commitments(commitments)), powers(gamma@, addr_commitments(commitments).len()))
    &&& f.random_point@ == r.challenge_points@
}

/// Folds the address sum-check outcome with the challenge `gamma`: combines
/// its claims, the address polynomials and their commitments with powers of
/// `gamma`.
pub fn fold_addr(
    addr_sumcheck_result: &AddrMSumcheckResult,
    incoming_shape: &PlonkishShape,
    incoming_commitments: &PlonkishCommitments,
    gamma: &Scalar,
) -> (f: FoldedObject)
    requires
        addr_aligned(*incoming_shape),
    ensures
        addr_fold_outcome(*addr_sumcheck_result, *incoming_shape, *incoming_commitments, *gamma, f),
        f.polynomial.table().len() == address_table(*incoming_shape, 0).len(),
        forall|x: int|
            0 <= x < f.polynomial.table().len() ==> #[trigger] f.polynomial.table()[x] == linear_combination(
                Seq::new(
                    (incoming_shape.addr_a.len() + incoming_shape.addr_b.len() + incoming_shape.addr_c.len()) as nat,
                    |i: int| address_table(*incoming_shape, i)[x],
                ),
                gamma@,
            ),
{
    proof {
        reveal(addr_fold_outcome);
    }
    let mut addr_claims_v: Vec<Scalar> = Vec::new();
    append_copies(&mut addr_claims_v, addr_sumcheck_result.addr_a_evals.as_slice());
    append_copies(&mut addr_claims_v, addr_sumcheck_result.addr_b_evals.as_slice());
    append_copies(&mut addr_claims_v, addr_sumcheck_result.addr_c_evals.as_slice());
    addr_claims_v.push(addr_sumcheck_result.w_eval);
    assert(values(addr_claims_v@) =~= addr_claims(*addr_sumcheck_result));
    let folded_claim = scalar_rlc(addr_claims_v.as_slice(), gamma);

    let mut polys_to_compress: Vec<MultilinearPolynomial> = Vec::new();
    extend_polys(&mut polys_to_compress, &incoming_shape.addr_a);
    extend_polys(&mut polys_to_compress, &incoming_shape.addr_b);
    extend_polys(&mut polys_to_compress, &incoming_shape.addr_c);
    proof {
        let ps = addr_polys(*incoming_shape);
        assert(tables(ps) =~= tables(incoming_shape.addr_a@) + tables(incoming_shape.addr_b@) + tables(incoming_shape.addr_c@));
        assert(tables(polys_to_compress@) == tables(ps));
        assert forall|i: int| 0 <= i < polys_to_compress.len() implies (#[trigger] polys_to_compress@[i]).evaluation_over_boolean_hypercube.len()
            == polys_to_compress@[0].evaluation_over_boolean_hypercube.len() by {
            assert(tables(polys_to_compress@)[i] == tables(ps)[i]);
            assert(tables(polys_to_compress@)[0] == tables(ps)[0]);
            assert(tables(polys_to_compress@)[i] == polys_to_compress@[i].table());
            assert(tables(polys_to_compress@)[0] == polys_to_compress@[0].table());
            assert(tables(ps)[i] == ps[i].table());
            assert(tables(ps)[0] == ps[0].table());
            assert(tables(ps).len() == ps.len());
            assert(ps[i].evaluation_over_boolean_hypercube.len() == ps[0].evaluation_over_boolean_hypercube.len());
            assert(ps[i].table().len() == ps[i].evaluation_over_boolean_hypercube.len());
            assert(ps[0].table().len() == ps[0].evaluation_over_boolean_hypercube.len());
            assert(polys_to_compress@[i].table().len() == polys_to_compress@[i].evaluation_over_boolean_hypercube.len());
            assert(polys_to_compress@[0].table().len() == polys_to_compress@[0].evaluation_over_boolean_hypercube.len());
        }
    }
    let folded_poly = polynomial_rlc(polys_to_compress.as_slice(), gamma);

    let mut commitments_to_compress: Vec<G1Point> = Vec::new();
    append_copies(&mut commitments_to_compress, incoming_commitments.addr_a.as_slice());
    append_copies(&mut commitments_to_compress, incoming_commitments.addr_b.as_slice());
    append_copies(&mut commitments_to_compress, incoming_commitments.addr_c.as_slice());
    assert(commitments_to_compress@ =~= addr_commitments(*incoming_commitments));
    let folded_commitment = point_rlc(commitments_to_compress.as_slice(), gamma);
    let f = FoldedObject {
        challenge: *gamma,
        claim: folded_claim,
        random_point: crate::nexus_spartan::copy_slice(addr_sumcheck_result.challenge_points.as_slice()),
        commitment: folded_commitment,
        polynomial: folded_poly,
    };
    proof {
        lemma_addr_fold_order(*addr_sumcheck_result, *incoming_shape, *incoming_commitments, *gamma, f);
    }
    f
}

impl PlonkishSumcheckResult {
    /// Draws the fold challenge `gamma` from the transcript and combines the
    /// claims and the selector polynomials with it; the combinations are not kept.
    pub fn fold(&self, transcript: &mut Transcript, incoming_shape: &PlonkishShape)
        requires
            selectors_aligned(*incoming_shape),
        ensures
            final(transcript)@ == after_challenge(old(transcript)@, PLONKISH_GAMMA_LABEL@),
    {
        let gamma = transcript.challenge_scalar(&PLONKISH_GAMMA_LABEL);
        let claims = [self.v_l, self.v_r, self.v_o, self.v_m, self.v_c, self.v_a, self.v_b, self.v_c, self.eq];
        let _folded_claim = scalar_rlc(&claims, &gamma);
        let polynomials = selector_polys(incoming_shape);
        let _folded_poly = polynomial_rlc(polynomials.as_slice(), &gamma);
    }
}

} // verus!

verus! {

/// Fixing every variable of a table of `2^n` entries leaves one entry.
proof fn lemma_bind_all_single(t: Seq<nat>, rs: Seq<nat>)
    requires
        t.len() == vstd::arithmetic::power2::pow2(rs.len()),
    ensures
        bind_all(t, rs).len() == 1,
    decreases rs.len(),
{
    if rs.len() == 0 {
        vstd::arithmetic::power2::lemma2_to64();
    } else {
        vstd::arithmetic::power2::lemma_pow2_unfold(rs.len());
        lemma_bind_all_single(crate::mle::bind_top(t, rs[0]), rs.drop_first());
    }
}

/// Folding commutes with evaluation: evaluating `sum_i coeff^i P_i`, over
/// tables of `2^n` field values, at a point of dimension `n` gives
/// `sum_i coeff^i P_i(point)`, the linear combination of the evaluations.
pub proof fn lemma_fold_commutes_with_evaluation(ts: Seq<Seq<nat>>, coeff: nat, rs: Seq<nat>)
    requires
        ts.len() >= 1,
        forall|i: int| 0 <= i < ts.len() ==> (#[trigger] ts[i]).len() == vstd::arithmetic::power2::pow2(rs.len()),
        forall|i: int| 0 <= i < ts.len() ==> canonical_table(#[trigger] ts[i]),
    ensures
        final_value(polynomial_rlc_spec(ts, coeff), rs) == linear_combination(final_values(ts, rs), coeff),
    decreases ts.len(),
{
    let k = ts.len();
    let vals = final_values(ts, rs);
    let last = ts[k - 1];
    lemma_bind_all_single(last, rs);
    lemma_bind_all_canonical(last, rs);
    let v = bind_all(last, rs)[0];
    assert(v < crate::field::modulus());
    assert(vals.last() == v);
    let w = fpow(coeff, (k - 1) as nat);
    crate::field::lemma_ops_congruent(v, w);
    crate::field::lemma_ops_congruent(w, v);
    assert(fmul(v, w) == fmul(w, v)) by {
        assert(v * w == w * v) by (nonlinear_arith);
    }
    if k == 1 {
        let p = polynomial_rlc_spec(ts, coeff);
        assert(p =~= scaled_table(ts[0], fpow(coeff, 0)));
        lemma_bind_all_scaled(ts[0], fpow(coeff, 0), rs);
        assert(fpow(coeff, 0) == 1);
        vstd::arithmetic::div_mod::lemma_small_mod(v, crate::field::modulus());
        assert(v * 1 == v);
        assert(1 * v == v);
        assert(fmul(v, 1) == v);
        assert(fmul(1, v) == v);
        assert(final_value(p, rs) == fmul(v, 1));
        assert(vals.drop_last() =~= Seq::<nat>::empty());
        assert(linear_combination(vals.drop_last(), coeff) == 0);
        crate::field::lemma_fadd_zero(v);
        assert(linear_combination(vals, coeff) == fadd(0, fmul(1, v)));
    } else {
        let init = ts.drop_last();
        let prev = polynomial_rlc_spec(init, coeff);
        lemma_fold_commutes_with_evaluation(init, coeff, rs);
        crate::sumcheck_utils::lemma_polynomial_rlc_len(init, coeff);
        assert(prev.len() == last.len());
        assert(polynomial_rlc_spec(ts, coeff) =~= lin_table(prev, last, w));
        lemma_bind_all_lin(prev, last, w, rs);
        lemma_bind_all_single(prev, rs);
        assert(final_values(init, rs) =~= vals.drop_last());
        assert(final_value(polynomial_rlc_spec(ts, coeff), rs) == fadd(final_value(prev, rs), fmul(v, w)));
        assert(linear_combination(vals, coeff) == fadd(linear_combination(vals.drop_last(), coeff), fmul(w, v)));
    }
}

/// Entry `x` of a random linear combination of tables is the linear
/// combination of the tables' entries `x`.
pub proof fn lemma_polynomial_rlc_entry(ts: Seq<Seq<nat>>, coeff: nat, x: int)
    requires
        ts.len() >= 1,
        forall|i: int| 0 <= i < ts.len() ==> (#[trigger] ts[i]).len() == ts[0].len(),
        0 <= x < ts[0].len(),
    ensures
        polynomial_rlc_spec(ts, coeff).len() == ts[0].len(),
        polynomial_rlc_spec(ts, coeff)[x] == linear_combination(Seq::new(ts.len(), |i: int| ts[i][x]), coeff),
    decreases ts.len(),
{
    let col = Seq::new(ts.len(), |i: int| ts[i][x]);
    let p = crate::field::modulus();
    if ts.len() == 1 {
        let v = ts[0][x];
        assert(col.drop_last() =~= Seq::<nat>::empty());
        assert(fpow(coeff, 0) == 1);
        assert(fmul(v, 1) == v % p);
        assert(fmul(1, v) == v % p);
        vstd::arithmetic::div_mod::lemma_mod_twice(v as int, p as int);
        assert(col.last() == v);
        assert(linear_combination(col.drop_last(), coeff) == 0);
        assert(linear_combination(col, coeff) == fadd(0, fmul(1, v)));
        assert(polynomial_rlc_spec(ts, coeff)[x] == fmul(v, fpow(coeff, 0)));
    } else {
        let init = ts.drop_last();
        assert forall|i: int| 0 <= i < init.len() implies (#[trigger] init[i]).len() == init[0].len() by {
            assert(init[i] == ts[i]);
        }
        lemma_polynomial_rlc_entry(init, coeff, x);
        assert(col.drop_last() =~= Seq::new(init.len(), |i: int| init[i][x]));
        let n = ts.len();
        let w = fpow(coeff, (n - 1) as nat);
        let v = ts.last()[x];
        assert(fmul(v, w) == fmul(w, v)) by {
            assert(v * w == w * v) by (nonlinear_arith);
        }
        assert(col.last() == v);
    }
}

/// Address table `i` of a shape, counting through `addr_a`, then `addr_b`,
/// then `addr_c`.
pub open spec fn address_table(shape: PlonkishShape, i: int) -> Seq<nat> {
    let (na, nb) = (shape.addr_a.len() as int, shape.addr_b.len() as int);
    if i < na {
        shape.addr_a@[i].table()
    } else if i < na + nb {
        shape.addr_b@[i - na].table()
    } else {
        shape.addr_c@[i - na - nb].table()
    }
}

/// The address fold combines the address tables in the order of the address
/// commitments: entry `x` of the folded polynomial is
/// `sum_i gamma^i T_i[x]` over the tables of `addr_a`, `addr_b`, `addr_c` in
/// turn, and the folded commitment is `sum_i gamma^i C_i` over the
/// commitments of `addr_a`, `addr_b`, `addr_c` in the same turn.
pub proof fn lemma_addr_fold_order(
    r: AddrMSumcheckResult,
    shape: PlonkishShape,
    commitments: PlonkishCommitments,
    gamma: Scalar,
    f: FoldedObject,
)
    requires
        addr_fold_outcome(r, shape, commitments, gamma, f),
        addr_aligned(shape),
    ensures
        ({
            let k = shape.addr_a.len() + shape.addr_b.len() + shape.addr_c.len();
            &&& f.polynomial.table().len() == address_table(shape, 0).len()
            &&& forall|x: int|
                0 <= x < f.polynomial.table().len() ==> #[trigger] f.polynomial.table()[x] == linear_combination(
                    Seq::new(k as nat, |i: int| address_table(shape, i)[x]),
                    gamma@,
                )
            &&& f.commitment@ == g1_msm(
                point_views(commitments.addr_a@ + commitments.addr_b@ + commitments.addr_c@),
                powers(gamma@, (commitments.addr_a.len() + commitments.addr_b.len() + commitments.addr_c.len()) as nat),
            )
        }),
{
    reveal(addr_fold_outcome);
    let ps = addr_polys(shape);
    let ts = tables(ps);
    let k = ps.len();
    let (na, nb) = (shape.addr_a.len() as int, shape.addr_b.len() as int);
    assert forall|i: int| 0 <= i < k implies #[trigger] ts[i] == address_table(shape, i) by {
        assert(ts[i] == ps[i].table());
        if i < na {
            assert(ps[i] == shape.addr_a@[i]);
        } else if i < na + nb {
            assert(ps[i] == shape.addr_b@[i - na]);
        } else {
            assert(ps[i] == shape.addr_c@[i - na - nb]);
        }
    }
    assert forall|i: int| 0 <= i < ts.len() implies (#[trigger] ts[i]).len() == ts[0].len() by {
        assert(ts[i] == ps[i].table());
        assert(ts[0] == ps[0].table());
    }
    assert(ts[0] == address_table(shape, 0));
    crate::sumcheck_utils::lemma_polynomial_rlc_len(ts, gamma@);
    assert forall|x: int| 0 <= x < f.polynomial.table().len() implies #[trigger] f.polynomial.table()[x] == linear_combination(
        Seq::new(k as nat, |i: int| address_table(shape, i)[x]),
        gamma@,
    ) by {
        lemma_polynomial_rlc_entry(ts, gamma@, x);
        assert(Seq::new(ts.len(), |i: int| ts[i][x]) =~= Seq::new(k as nat, |i: int| address_table(shape, i)[x]));
    }
}

} // verus!
