//! Rerandomization: several folded claims, each at its own point, are
//! merged into one claim at a fresh point by a random-combination sum-check.
use crate::circuit::{linear_combination, scalar_linear_combination};
use crate::curve::{commitment_rlc, g1_msm, point_views, powers, G1Point};
use crate::field::{fmul, fpow, values, Scalar};
use crate::folding::FoldedObject;
use crate::mle::{eq_eval, eq_table, EqPolynomial, MultilinearPolynomial};
use crate::nexus_spartan::copy_slice;
use crate::sumcheck_utils::{polynomial_rlc, polynomial_rlc_spec, scalar_rlc, scalar_rlc_spec, tables, Combiner};
use crate::sumchecks::{
    all_len, copy_poly, prove_random_combination_sumcheck, random_combination_outcome, state_before,
    RerandSumcheckEvaluationResult,
};
use crate::transcript::{after_challenge, challenge_value, Transcript, RERAND_RLC_LABEL};
use vstd::arithmetic::power2::pow2;
use vstd::prelude::*;

verus! {

/// The smaller of two lengths.
pub open spec fn min_len(a: nat, b: nat) -> nat {
    if a <= b {
        a
    } else {
        b
    }
}

/// The table `x -> e(x) * p(x) * w` over the positions both tables have.
pub open spec fn eq_weighted_table(e: Seq<nat>, p: Seq<nat>, w: nat) -> Seq<nat> {
    Seq::new(min_len(e.len(), p.len()), |x: int| fmul(fmul(e[x], p[x]), w))
}

/// The tables `eq(points[i], .) * ps[i] * sigma^i`, one per pair.
pub open spec fn combined_eq_tables(points: Seq<Seq<nat>>, ps: Seq<Seq<nat>>, sigma: nat) -> Seq<Seq<nat>> {
    Seq::new(
        min_len(points.len(), ps.len()),
        |i: int| eq_weighted_table(eq_table(points[i]), ps[i], fpow(sigma, i as nat)),
    )
}

/// The points of a list of equality polynomials.
pub open spec fn eq_points(eqs: Seq<EqPolynomial>) -> Seq<Seq<nat>> {
    eqs.map_values(|e: EqPolynomial| values(e.r@))
}

/// Multiplies the table of each polynomial by the table of the equality
/// polynomial beside it and by `sigma^i`.
pub fn combine_eq_polys(
    eq_polys: &[EqPolynomial],
    polys: &[MultilinearPolynomial],
    sigma: &Scalar,
) -> (r: Vec<MultilinearPolynomial>)
    requires
        forall|i: int| 0 <= i < eq_polys.len() ==> pow2((#[trigger] eq_polys[i]).r.len() as nat) <= usize::MAX,
    ensures
        tables(r@) == combined_eq_tables(eq_points(eq_polys@), tables(polys@), sigma@),
{
    let n = if eq_polys.len() <= polys.len() {
        eq_polys.len()
    } else {
        polys.len()
    };
    let ghost target = combined_eq_tables(eq_points(eq_polys@), tables(polys@), sigma@);
    let mut out: Vec<MultilinearPolynomial> = Vec::new();
    for idx in 0..n
        invariant
            n <= eq_polys.len(),
            n <= polys.len(),
            target == combined_eq_tables(eq_points(eq_polys@), tables(polys@), sigma@),
            target.len() == n,
            forall|i: int| 0 <= i < eq_polys.len() ==> pow2((#[trigger] eq_polys[i]).r.len() as nat) <= usize::MAX,
            tables(out@) == target.take(idx as int),
    {
        let weight = sigma.pow(idx as u64);
        let e = eq_polys[idx].evals();
        let p = &polys[idx].evaluation_over_boolean_hypercube;
        let m = if e.len() <= p.len() {
            e.len()
        } else {
            p.len()
        };
        let ghost ev = values(e@);
        let ghost pv = values(p@);
        let mut evals: Vec<Scalar> = Vec::new();
        for x in 0..m
            invariant
                m <= e.len(),
                m <= p.len(),
                ev == values(e@),
                pv == values(p@),
                evals.len() == x,
                forall|y: int| 0 <= y < x ==> (#[trigger] evals[y])@ == fmul(fmul(ev[y], pv[y]), weight@),
        {
            evals.push(e[x].mul(p[x]).mul(weight));
        }
        proof {
            assert(eq_points(eq_polys@)[idx as int] == values(eq_polys@[idx as int].r@));
            assert(tables(polys@)[idx as int] == polys@[idx as int].table());
            assert(values(evals@) =~= target[idx as int]);
        }
        let ghost before = out@;
        out.push(MultilinearPolynomial::new(evals));
        assert(tables(out@) =~= target.take(idx + 1)) by {
            assert(tables(out@) =~= tables(before).push(out@[idx as int].table()));
        }
    }
    assert(target.take(n as int) =~= target);
    out
}

/// The outcome of rerandomization: the sum-check transcript and the merged claim.
#[derive(Clone, Debug)]
pub struct RerandomizationOutput {
    pub sumcheck: RerandSumcheckEvaluationResult,
    pub folded_object: FoldedObject,
}

/// The points of the folded claims.
pub open spec fn object_points(objs: Seq<FoldedObject>) -> Seq<Seq<nat>> {
    objs.map_values(|o: FoldedObject| values(o.random_point@))
}

/// The tables of the folded polynomials.
pub open spec fn object_tables(objs: Seq<FoldedObject>) -> Seq<Seq<nat>> {
    objs.map_values(|o: FoldedObject| o.polynomial.table())
}

/// The commitments of the folded claims.
pub open spec fn object_commitments(objs: Seq<FoldedObject>) -> Seq<G1Point> {
    objs.map_values(|o: FoldedObject| o.commitment)
}

/// The folded claims.
pub open spec fn object_claims(objs: Seq<FoldedObject>) -> Seq<nat> {
    objs.map_values(|o: FoldedObject| o.claim@)
}

/// The equality tables of the points of the folded claims.
pub open spec fn object_eq_tables(objs: Seq<FoldedObject>) -> Seq<Seq<nat>> {
    objs.map_values(|o: FoldedObject| eq_table(values(o.random_point@)))
}

/// There is at least one folded claim, all points have one dimension `n`,
/// and every folded polynomial has `2^n` entries.
pub open spec fn rerandomizable(objs: Seq<FoldedObject>) -> bool {
    let n = objs[0].random_point.len();
    &&& objs.len() >= 1
    &&& 2 * objs.len() <= usize::MAX
    &&& pow2(n as nat) <= usize::MAX / 2 + 1
    &&& forall|i: int| 0 <= i < objs.len() ==> {
        &&& (#[trigger] objs[i]).random_point.len() == n
        &&& objs[i].polynomial.evaluation_over_boolean_hypercube.len() == pow2(n as nat)
    }
}

/// The rerandomization of `objs` drawn from the transcript state `st`: the
/// challenge `sigma`; the claims combined as `sum_i sigma^i claim_i`, the
/// claim of the random-combination sum-check over the equality tables and
/// the folded tables, whose challenges are the new point; the eq-weighted
/// polynomials `sigma^i eq_i p_i` combined again with powers of `sigma`
/// (`sum_i sigma^(2 i) eq_i p_i`); and the commitments combined with powers
/// of `sigma`.
#[verifier::opaque]
pub open spec fn rerandomization_outcome(objs: Seq<FoldedObject>, st: Seq<u8>, out: RerandomizationOutput) -> bool {
    let k = objs.len();
    let sigma = out.folded_object.challenge;
    let t1 = after_challenge(st, RERAND_RLC_LABEL@);
    &&& sigma@ == challenge_value(st, RERAND_RLC_LABEL@)
    &&& out.folded_object.claim@ == linear_combination(object_claims(objs), sigma@)
    &&& out.folded_object.polynomial.table() == polynomial_rlc_spec(
        combined_eq_tables(object_points(objs), object_tables(objs), sigma@),
        sigma@,
    )
    &&& out.folded_object.commitment@ == g1_msm(point_views(object_commitments(objs)), powers(sigma@, k as nat))
    &&& out.folded_object.random_point@ == out.sumcheck.challenge_points@
    &&& random_combination_outcome(object_eq_tables(objs), object_tables(objs), sigma, t1, out.folded_object.claim@, out.sumcheck)
}

/// The transcript state after rerandomizing from `st`.
pub open spec fn rerandomization_end(objs: Seq<FoldedObject>, st: Seq<u8>, out: RerandomizationOutput) -> Seq<u8> {
    let ts0 = object_eq_tables(objs) + object_tables(objs);
    let comb = Combiner::RandomCombination { m: objs.len() as usize, sigma: out.folded_object.challenge };
    let rs = values(out.sumcheck.challenge_points@);
    state_before(ts0, rs, 2, comb, after_challenge(st, RERAND_RLC_LABEL@), rs.len())
}

/// Merges the folded claims: draws `sigma`, combines the claims as
/// `sum_i sigma^i claim_i`, combines the eq-weighted polynomials
/// `sigma^i eq_i p_i` and the commitments with powers of `sigma`, and runs
/// the random-combination sum-check from the combined claim; its challenges
/// are the new point.
#[verifier::rlimit(40)]
pub fn rerandomize_fold(folded_objects: &[FoldedObject], transcript: &mut Transcript) -> (out: RerandomizationOutput)
    requires
        rerandomizable(folded_objects@),
    ensures
        rerandomization_outcome(folded_objects@, old(transcript)@, out),
        out.sumcheck.challenge_points.len() == folded_objects@[0].random_point.len(),
        final(transcript)@ == rerandomization_end(folded_objects@, old(transcript)@, out),
{
    proof {
        reveal(rerandomization_outcome);
        reveal(random_combination_outcome);
    }
    let ghost objs = folded_objects@;
    let k = folded_objects.len();
    let ghost n = objs[0].random_point.len();
    proof {
        if n > 0 {
            vstd::arithmetic::power2::lemma_pow2_strictly_increases(0, n as nat);
        }
        vstd::arithmetic::power2::lemma2_to64();
    }
    let mut eq_polys: Vec<EqPolynomial> = Vec::new();
    let mut eq_polys_as_poly: Vec<MultilinearPolynomial> = Vec::new();
    for i in 0..k
        invariant
            k == objs.len(),
            objs == folded_objects@,
            rerandomizable(objs),
            n == objs[0].random_point.len(),
            eq_polys.len() == i,
            eq_points(eq_polys@) == object_points(objs).take(i as int),
            tables(eq_polys_as_poly@) == object_eq_tables(objs).take(i as int),
            forall|j: int| 0 <= j < i ==> (#[trigger] eq_polys@[j]).r@ == objs[j].random_point@,
    {
        let e = EqPolynomial::new(copy_slice(folded_objects[i].random_point.as_slice()));
        assert(objs[i as int].random_point.len() == n);
        let evals = e.evals();
        let ghost eb = eq_polys@;
        let ghost pb = eq_polys_as_poly@;
        eq_polys_as_poly.push(MultilinearPolynomial::new(evals));
        eq_polys.push(e);
        proof {
            assert(eq_points(eq_polys@) =~= eq_points(eb).push(values(e.r@)));
            assert(object_points(objs).take(i + 1) =~= object_points(objs).take(i as int).push(values(objs[i as int].random_point@)));
            assert(tables(eq_polys_as_poly@) =~= tables(pb).push(eq_table(values(e.r@))));
            assert(object_eq_tables(objs).take(i + 1) =~= object_eq_tables(objs).take(i as int).push(eq_table(values(objs[i as int].random_point@))));
        }
    }
    proof {
        assert(object_points(objs).take(k as int) =~= object_points(objs));
        assert(object_eq_tables(objs).take(k as int) =~= object_eq_tables(objs));
    }

    let sigma = transcript.challenge_scalar(&RERAND_RLC_LABEL);

    let mut polys: Vec<MultilinearPolynomial> = Vec::new();
    let mut claims: Vec<Scalar> = Vec::new();
    let mut commitments_to_combine: Vec<G1Point> = Vec::new();
    for i in 0..k
        invariant
            k == objs.len(),
            objs == folded_objects@,
            rerandomizable(objs),
            eq_polys.len() == k,
            eq_points(eq_polys@) == object_points(objs),
            forall|j: int| 0 <= j < k ==> (#[trigger] eq_polys@[j]).r@ == objs[j].random_point@,
            polys.len() == i,
            tables(polys@) == object_tables(objs).take(i as int),
            values(claims@) == object_claims(objs).take(i as int),
            commitments_to_combine@ == object_commitments(objs).take(i as int),
    {
        let ghost pb = polys@;
        let ghost cb = claims@;
        polys.push(copy_poly(&folded_objects[i].polynomial));
        claims.push(folded_objects[i].claim);
        commitments_to_combine.push(folded_objects[i].commitment);
        proof {
            assert(tables(polys@) =~= tables(pb).push(objs[i as int].polynomial.table()));
            assert(object_tables(objs).take(i + 1) =~= object_tables(objs).take(i as int).push(objs[i as int].polynomial.table()));
            assert(values(claims@) =~= values(cb).push(claims@[i as int]@));
            assert(object_claims(objs).take(i + 1) =~= object_claims(objs).take(i as int).push(object_claims(objs)[i as int]));
            assert(object_commitments(objs).take(i + 1) =~= object_commitments(objs).take(i as int).push(objs[i as int].commitment));
        }
    }
    proof {
        assert(object_tables(objs).take(k as int) =~= object_tables(objs));
        assert(object_claims(objs).take(k as int) =~= object_claims(objs));
        assert(object_commitments(objs).take(k as int) =~= object_commitments(objs));
    }

    let polys_to_fold = combine_eq_polys(eq_polys.as_slice(), polys.as_slice(), &sigma);
    proof {
        let ct = combined_eq_tables(object_points(objs), object_tables(objs), sigma@);
        assert(ct.len() == k);
        assert(tables(polys_to_fold@).len() == polys_to_fold.len());
        assert forall|i: int| 0 <= i < polys_to_fold.len() implies (#[trigger] polys_to_fold@[i]).evaluation_over_boolean_hypercube.len()
            == polys_to_fold@[0].evaluation_over_boolean_hypercube.len() by {
            assert(tables(polys_to_fold@)[i] == polys_to_fold@[i].table());
            assert(tables(polys_to_fold@)[0] == polys_to_fold@[0].table());
            assert(object_points(objs)[i] == values(objs[i].random_point@));
            assert(object_points(objs)[0] == values(objs[0].random_point@));
            assert(object_tables(objs)[i] == objs[i].polynomial.table());
            assert(object_tables(objs)[0] == objs[0].polynomial.table());
            crate::mle::lemma_eq_table_len(object_points(objs)[i]);
            crate::mle::lemma_eq_table_len(object_points(objs)[0]);
            assert(ct[i].len() == ct[0].len());
        }
    }
    let witness_folded_poly = polynomial_rlc(polys_to_fold.as_slice(), &sigma);
    let claim = scalar_linear_combination(&sigma, claims.as_slice());

    proof {
        let ts0 = tables(eq_polys_as_poly@) + tables(polys@);
        assert forall|j: int| 0 <= j < ts0.len() implies (#[trigger] ts0[j]).len() == pow2(n as nat) by {
            if j < k {
                assert(ts0[j] == object_eq_tables(objs)[j]);
                assert(object_eq_tables(objs)[j] == eq_table(values(objs[j].random_point@)));
                crate::mle::lemma_eq_table_len(values(objs[j].random_point@));
            } else {
                assert(ts0[j] == object_tables(objs)[j - k]);
                assert(object_tables(objs)[j - k] == objs[j - k].polynomial.table());
            }
        }
        assert(tables(eq_polys_as_poly@)[0] == eq_polys_as_poly@[0].table());
        assert(ts0[0] == eq_polys_as_poly@[0].table());
        assert(all_len(ts0, eq_polys_as_poly@[0].evaluation_over_boolean_hypercube.len() as nat));
    }
    let rerand_result = prove_random_combination_sumcheck(
        &claim,
        &mut eq_polys_as_poly,
        &mut polys,
        &sigma,
        transcript,
    );
    proof {
        if rerand_result.challenge_points.len() != n {
            if rerand_result.challenge_points.len() < n {
                vstd::arithmetic::power2::lemma_pow2_strictly_increases(rerand_result.challenge_points.len() as nat, n as nat);
            } else {
                vstd::arithmetic::power2::lemma_pow2_strictly_increases(n as nat, rerand_result.challenge_points.len() as nat);
            }
        }
    }
    let folded_commitment = commitment_rlc(commitments_to_combine.as_slice(), &sigma);

    let folded_object = FoldedObject {
        challenge: sigma,
        claim,
        random_point: copy_slice(rerand_result.challenge_points.as_slice()),
        commitment: folded_commitment,
        polynomial: witness_folded_poly,
    };
    RerandomizationOutput { sumcheck: rerand_result, folded_object }
}

} // verus!
