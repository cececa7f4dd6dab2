//! The SpeedySpartan prover for one fragment: the Plonkish sum-check, the
//! address sum-check, their folds, and the rerandomized merge of both folds.
use crate::field::{fadd, fmul, fpow, modulus, scalar_of, values, Scalar};
use crate::folding::{
    addr_aligned, addr_fold_outcome, addr_polys, fold, fold_addr, plonkish_fold_outcome, selector_tables, selectors_aligned,
    FoldedObject,
};
use crate::mle::{eq_table, vec_to_mle, zero_padded, EqPolynomial, MultilinearPolynomial};
use crate::nexus_spartan::next_pow2;
use crate::plonkish::{gather, PlonkishCommitments, PlonkishInstance, PlonkishShape, PlonkishWitness, ADDR_DIM};
use crate::rerandomization::{rerandomizable, rerandomization_outcome, rerandomize_fold, RerandomizationOutput};
use crate::sumcheck_utils::{scalar_rlc, scalar_rlc_spec, tables, Combiner};
use crate::sumchecks::{
    addr_outcome, addr_tables, copy_poly, extend_polys, fits_rounds, plonkish_outcome, plonkish_tables,
    prove_addr_sumcheck, prove_plonkish_sumcheck, state_before, witness_fits, AddrMSumcheckResult, PlonkishSumcheckResult,
};
use crate::transcript::{
    after_challenge, chain_state, challenge_chain, challenge_value, Transcript, ADDR_CHALLENGE_LABEL,
    ADDR_FOLD_LABEL, PLONKISH_CHALLENGE_LABEL, PLONKISH_GAMMA_LABEL, PROTOCOL_LABEL,
};
use vstd::arithmetic::power2::pow2;
use vstd::prelude::*;

verus! {

/// One proof fragment: both sum-checks, their folds and the merge of the folds.
#[derive(Clone, Debug)]
pub struct SpeedySpartanFragment {
    pub plonkish_sumcheck: PlonkishSumcheckResult,
    pub addr_sumcheck: AddrMSumcheckResult,
    pub plonkish_fold: FoldedObject,
    pub addr_fold: FoldedObject,
    pub rerand_fold: RerandomizationOutput,
}

/// Every wire index is below `m`.
pub open spec fn wiring_in_range(idx: Seq<usize>, m: nat) -> bool {
    forall|i: int| 0 <= i < idx.len() ==> (#[trigger] idx[i]) < m
}

/// The wire vector `witness || instance`.
pub open spec fn wire_values(witness: PlonkishWitness, instance: PlonkishInstance) -> Seq<Scalar> {
    witness.witness_data@ + instance.instance@
}

/// The inputs a fragment can be proved on: the wiring lies in the wire
/// vector; with `l` the padded number of gates, every selector and every
/// address table has `l` entries, the padded wire columns and the equality
/// table (over one challenge per wire) are at least that long, the witness
/// polynomial has `l / 2` entries (one when `l` is one), and the sizes fit
/// the machine.
pub open spec fn fragment_ready(shape: PlonkishShape, witness: PlonkishWitness, instance: PlonkishInstance) -> bool {
    let m = (witness.witness_data.len() + instance.instance.len()) as nat;
    let l = next_pow2(shape.a.len() as nat);
    &&& wiring_in_range(shape.a@, m)
    &&& wiring_in_range(shape.b@, m)
    &&& wiring_in_range(shape.c@, m)
    &&& pow2(m as nat) <= usize::MAX
    &&& shape.a.len() <= usize::MAX / 2 + 1
    &&& shape.b.len() <= usize::MAX / 2 + 1
    &&& shape.c.len() <= usize::MAX / 2 + 1
    &&& 1 <= l <= usize::MAX / 2 + 1
    &&& next_pow2(shape.b.len() as nat) >= l
    &&& next_pow2(shape.c.len() as nat) >= l
    &&& next_pow2(m as nat) >= l
    &&& pow2(m as nat) >= l
    &&& shape.q_l.evaluation_over_boolean_hypercube.len() == l
    &&& selectors_aligned(shape)
    &&& addr_aligned(shape)
    &&& shape.addr_a.len() >= 1
    &&& shape.addr_a@[0].evaluation_over_boolean_hypercube.len() == l
    &&& shape.addr_a.len() + shape.addr_b.len() + shape.addr_c.len() >= 3 * ADDR_DIM
    &&& witness_fits(witness.witness_polynomial.evaluation_over_boolean_hypercube.len() as nat, l)
}

/// The challenge `rho` a fragment draws to combine the Plonkish wire
/// evaluations into the claim of its address sum-check: drawn after the
/// Plonkish sum-check of `frag` and its fold.
pub open spec fn fragment_address_challenge(
    shape: PlonkishShape,
    witness: PlonkishWitness,
    instance: PlonkishInstance,
    frag: SpeedySpartanFragment,
) -> Scalar {
    let m = (witness.witness_data.len() + instance.instance.len()) as nat;
    let t0 = PROTOCOL_LABEL@;
    let t1 = chain_state(t0, PLONKISH_CHALLENGE_LABEL@, m as nat);
    let eqt = eq_table(challenge_chain(t0, PLONKISH_CHALLENGE_LABEL@, m as nat));
    let z = wire_values(witness, instance);
    let ts_p = plonkish_tables(
        shape.q_l.table(),
        shape.q_r.table(),
        shape.q_o.table(),
        shape.q_m.table(),
        shape.q_c.table(),
        zero_padded(values(gather(z, shape.a@))),
        zero_padded(values(gather(z, shape.b@))),
        zero_padded(values(gather(z, shape.c@))),
        eqt,
    );
    let rs_p = values(frag.plonkish_sumcheck.challenge_points@);
    let t2 = state_before(ts_p, rs_p, 4, Combiner::Plonkish, t1, rs_p.len());
    let t3 = after_challenge(t2, PLONKISH_GAMMA_LABEL@);
    scalar_of(challenge_value(t3, ADDR_CHALLENGE_LABEL@))
}

/// What proving a fragment yields. The transcript starts from the protocol
/// label and draws one challenge per wire; their equality table weighs the
/// Plonkish sum-check of claim zero over the selectors and the padded wire
/// columns. Its fold draws `gamma`; then `rho` combines `v_a`, `v_b`, `v_c`
/// into the claim of the address sum-check over the address tables, the
/// padded wire vector and the same equality table. A fresh challenge folds
/// the address outcome, and both folds are rerandomized together.
pub open spec fn fragment_outcome(
    shape: PlonkishShape,
    witness: PlonkishWitness,
    instance: PlonkishInstance,
    commitments: PlonkishCommitments,
    frag: SpeedySpartanFragment,
) -> bool {
    let m = (witness.witness_data.len() + instance.instance.len()) as nat;
    let t0 = PROTOCOL_LABEL@;
    let t1 = chain_state(t0, PLONKISH_CHALLENGE_LABEL@, m as nat);
    let eqt = eq_table(challenge_chain(t0, PLONKISH_CHALLENGE_LABEL@, m as nat));
    let z = wire_values(witness, instance);
    let ts_p = plonkish_tables(
        shape.q_l.table(),
        shape.q_r.table(),
        shape.q_o.table(),
        shape.q_m.table(),
        shape.q_c.table(),
        zero_padded(values(gather(z, shape.a@))),
        zero_padded(values(gather(z, shape.b@))),
        zero_padded(values(gather(z, shape.c@))),
        eqt,
    );
    let ps = frag.plonkish_sumcheck;
    let rs_p = values(ps.challenge_points@);
    let t2 = state_before(ts_p, rs_p, 4, Combiner::Plonkish, t1, rs_p.len());
    let t3 = after_challenge(t2, PLONKISH_GAMMA_LABEL@);
    let rho = fragment_address_challenge(shape, witness, instance, frag);
    let t4 = after_challenge(t3, ADDR_CHALLENGE_LABEL@);
    let addr_claim = scalar_rlc_spec(seq![ps.v_a@, ps.v_b@, ps.v_c@], rho@);
    let ar = frag.addr_sumcheck;
    let rs_a = values(ar.challenge_points@);
    let ta = tables(shape.addr_a@);
    let tb = tables(shape.addr_b@);
    let tc = tables(shape.addr_c@);
    let zt = zero_padded(values(z));
    let comb_a = Combiner::Addr { dimension: ADDR_DIM, rho };
    let t5 = state_before(addr_tables(ta, tb, tc, zt, eqt), rs_a, (ADDR_DIM + 2) as nat, comb_a, t4, rs_a.len());
    let gamma = scalar_of(challenge_value(t5, ADDR_FOLD_LABEL@));
    let t6 = after_challenge(t5, ADDR_FOLD_LABEL@);
    &&& plonkish_outcome(ts_p, t1, 0, ps)
    &&& plonkish_fold_outcome(ps, shape, commitments, t2, frag.plonkish_fold)
    &&& addr_outcome(ta, tb, tc, zt, eqt, witness.witness_polynomial.table(), ADDR_DIM, rho, t4, addr_claim, ar)
    &&& addr_fold_outcome(ar, shape, commitments, gamma, frag.addr_fold)
    &&& rerandomization_outcome(seq![frag.plonkish_fold, frag.addr_fold], t6, frag.rerand_fold)
}

/// The address sum-check of a fragment starts from the three Plonkish wire
/// evaluations combined by `rho` as `v_a + v_b + rho v_c`: all three enter,
/// the first two with weight one.
pub proof fn lemma_fragment_address_claim(
    shape: PlonkishShape,
    witness: PlonkishWitness,
    instance: PlonkishInstance,
    commitments: PlonkishCommitments,
    frag: SpeedySpartanFragment,
)
    requires
        fragment_outcome(shape, witness, instance, commitments, frag),
        frag.plonkish_sumcheck.v_b@ < modulus(),
        fragment_address_challenge(shape, witness, instance, frag)@ < modulus(),
    ensures
        values(frag.addr_sumcheck.claims_per_round@)[0] == fadd(
            fadd(frag.plonkish_sumcheck.v_a@, frag.plonkish_sumcheck.v_b@),
            fmul(fragment_address_challenge(shape, witness, instance, frag)@, frag.plonkish_sumcheck.v_c@),
        ),
{
    let ps = frag.plonkish_sumcheck;
    let rho = fragment_address_challenge(shape, witness, instance, frag);
    lemma_three_claims(ps.v_a@, ps.v_b@, ps.v_c@, rho@);
    lemma_addr_first_claim(shape, witness, instance, commitments, frag);
}

/// The first claim of the address sum-check of a fragment.
#[verifier::rlimit(50)]
proof fn lemma_addr_first_claim(
    shape: PlonkishShape,
    witness: PlonkishWitness,
    instance: PlonkishInstance,
    commitments: PlonkishCommitments,
    frag: SpeedySpartanFragment,
)
    requires
        fragment_outcome(shape, witness, instance, commitments, frag),
    ensures
        values(frag.addr_sumcheck.claims_per_round@)[0] == scalar_rlc_spec(
            seq![frag.plonkish_sumcheck.v_a@, frag.plonkish_sumcheck.v_b@, frag.plonkish_sumcheck.v_c@],
            fragment_address_challenge(shape, witness, instance, frag)@,
        ),
{
    reveal(addr_outcome);
}

/// Three claims combined by `scalar_rlc`: `a + b + rho c`.
proof fn lemma_three_claims(a: nat, b: nat, c: nat, rho: nat)
    requires
        b < modulus(),
        rho < modulus(),
    ensures
        scalar_rlc_spec(seq![a, b, c], rho) == fadd(fadd(a, b), fmul(rho, c)),
{
    let cl = seq![a, b, c];
    assert(cl.drop_last() =~= seq![a, b]);
    assert(seq![a, b].drop_last() =~= seq![a]);
    assert(fpow(rho, 0) == 1);
    assert(fpow(rho, 1) == fmul(1, rho));
    vstd::arithmetic::div_mod::lemma_small_mod(rho, modulus());
    vstd::arithmetic::div_mod::lemma_small_mod(b, modulus());
    assert(fmul(b, 1) == b);
    assert(fmul(c, rho) == fmul(rho, c)) by {
        assert(c * rho == rho * c) by (nonlinear_arith);
    }
    assert(fmul(1, rho) == rho);
    assert(seq![a, b].last() == b && cl.last() == c);
    assert(scalar_rlc_spec(seq![a], rho) == a);
    assert(scalar_rlc_spec(seq![a, b], rho) == fadd(a, fmul(b, fpow(rho, 0))));
    assert(scalar_rlc_spec(cl, rho) == fadd(scalar_rlc_spec(seq![a, b], rho), fmul(c, fpow(rho, 1))));
}

/// Copies of a list of polynomials.
fn copy_polys(v: &Vec<MultilinearPolynomial>) -> (r: Vec<MultilinearPolynomial>)
    ensures
        tables(r@) == tables(v@),
        r.len() == v.len(),
{
    let mut r: Vec<MultilinearPolynomial> = Vec::new();
    extend_polys(&mut r, v);
    assert(tables(Seq::<MultilinearPolynomial>::empty()) + tables(v@) =~= tables(v@));
    r
}

/// Draws `k` challenges in a row under the Plonkish challenge label.
fn draw_challenges(transcript: &mut Transcript, k: usize) -> (r: Vec<Scalar>)
    ensures
        values(r@) == challenge_chain(old(transcript)@, PLONKISH_CHALLENGE_LABEL@, k as nat),
        final(transcript)@ == chain_state(old(transcript)@, PLONKISH_CHALLENGE_LABEL@, k as nat),
{
    let ghost st = transcript@;
    let mut r: Vec<Scalar> = Vec::new();
    for i in 0..k
        invariant
            transcript@ == chain_state(st, PLONKISH_CHALLENGE_LABEL@, i as nat),
            values(r@) == challenge_chain(st, PLONKISH_CHALLENGE_LABEL@, i as nat),
    {
        let c = transcript.challenge_scalar(&PLONKISH_CHALLENGE_LABEL);
        let ghost before = r@;
        r.push(c);
        assert(values(r@) =~= values(before).push(c@));
        assert(challenge_chain(st, PLONKISH_CHALLENGE_LABEL@, (i + 1) as nat) =~= challenge_chain(
            st,
            PLONKISH_CHALLENGE_LABEL@,
            i as nat,
        ).push(c@));
    }
    r
}

/// Proves one fragment for the given shape, witness and instance.
#[verifier::spinoff_prover]
#[verifier::rlimit(100)]
pub fn prove_speedyspartan_fragment(
    incoming_shape: &PlonkishShape,
    incoming_witness: &PlonkishWitness,
    incoming_instance: &PlonkishInstance,
    incoming_commitments: &PlonkishCommitments,
) -> (frag: SpeedySpartanFragment)
    requires
        fragment_ready(*incoming_shape, *incoming_witness, *incoming_instance),
    ensures
        fragment_outcome(*incoming_shape, *incoming_witness, *incoming_instance, *incoming_commitments, frag),
        values(frag.addr_sumcheck.claims_per_round@)[0] == fadd(
            fadd(frag.plonkish_sumcheck.v_a@, frag.plonkish_sumcheck.v_b@),
            fmul(fragment_address_challenge(*incoming_shape, *incoming_witness, *incoming_instance, frag)@, frag.plonkish_sumcheck.v_c@),
        ),
{
    let ghost shape = *incoming_shape;
    let ghost m = (incoming_witness.witness_data.len() + incoming_instance.instance.len()) as nat;
    let ghost l = next_pow2(shape.a.len() as nat);
    let mut transcript = Transcript::new(&PROTOCOL_LABEL);
    let witness_length = incoming_witness.witness_data.len();
    let instance_length = incoming_instance.instance.len();
    proof {
        vstd::arithmetic::power2::lemma2_to64();
        if m > 64 {
            vstd::arithmetic::power2::lemma_pow2_strictly_increases(64, m as nat);
        }
    }
    let random_challenge = draw_challenges(&mut transcript, witness_length + instance_length);
    let ghost t1 = transcript@;
    let ghost eqt = eq_table(values(random_challenge@));

    let eq_poly = EqPolynomial::new(random_challenge);
    let mut eq_poly_mle = MultilinearPolynomial::new(eq_poly.evals());

    let plonkish_zs = incoming_shape.z(incoming_witness, incoming_instance);
    let mut z_a = vec_to_mle(&plonkish_zs.z_a);
    let mut z_b = vec_to_mle(&plonkish_zs.z_b);
    let mut z_c = vec_to_mle(&plonkish_zs.z_c);
    let mut z_mle = vec_to_mle(&plonkish_zs.z);

    let mut q_l = copy_poly(&incoming_shape.q_l);
    let mut q_r = copy_poly(&incoming_shape.q_r);
    let mut q_o = copy_poly(&incoming_shape.q_o);
    let mut q_m = copy_poly(&incoming_shape.q_m);
    let mut q_c = copy_poly(&incoming_shape.q_c);
    let ghost ts_p = plonkish_tables(q_l.table(), q_r.table(), q_o.table(), q_m.table(), q_c.table(),
        z_a.table(), z_b.table(), z_c.table(), eq_poly_mle.table());
    proof {
        crate::mle::lemma_eq_table_len(values(random_challenge@));
        crate::nexus_spartan::lemma_next_pow2_is_pow2(shape.a.len() as nat);
        crate::nexus_spartan::lemma_next_pow2_is_pow2(shape.b.len() as nat);
        crate::nexus_spartan::lemma_next_pow2_is_pow2(shape.c.len() as nat);
        assert(ts_p[5].len() == l);
        assert forall|j: int| 0 <= j < ts_p.len() implies (exists|e: nat| pow2(e) == (#[trigger] ts_p[j]).len()) && ts_p[j].len() >= l by {
            if j == 8 {
                assert(pow2(m as nat) == ts_p[j].len());
            } else if j == 6 {
                assert(ts_p[j].len() == next_pow2(shape.b.len() as nat));
            } else if j == 7 {
                assert(ts_p[j].len() == next_pow2(shape.c.len() as nat));
            } else {
                assert(ts_p[j].len() == l);
            }
        }
        assert(fits_rounds(ts_p, l));
    }
    let plonkish_sumcheck_result = prove_plonkish_sumcheck(
        &Scalar::zero(),
        &mut q_l,
        &mut q_r,
        &mut q_o,
        &mut q_m,
        &mut q_c,
        &mut z_a,
        &mut z_b,
        &mut z_c,
        &mut eq_poly_mle,
        &mut transcript,
    );
    let ghost t2 = transcript@;

    let folded_plonkish = fold(&plonkish_sumcheck_result, &mut transcript, incoming_shape, incoming_commitments);

    let rho = transcript.challenge_scalar(&ADDR_CHALLENGE_LABEL);
    let ghost t4 = transcript@;
    let claims = [plonkish_sumcheck_result.v_a, plonkish_sumcheck_result.v_b, plonkish_sumcheck_result.v_c];
    assert(values(claims@) =~= seq![plonkish_sumcheck_result.v_a@, plonkish_sumcheck_result.v_b@, plonkish_sumcheck_result.v_c@]);
    let addr_claim = scalar_rlc(&claims, &rho);

    let mut eq_poly_mle_addr = MultilinearPolynomial::new(eq_poly.evals());
    let mut addr_a = copy_polys(&incoming_shape.addr_a);
    let mut addr_b = copy_polys(&incoming_shape.addr_b);
    let mut addr_c = copy_polys(&incoming_shape.addr_c);
    let ghost ts_a = addr_tables(tables(addr_a@), tables(addr_b@), tables(addr_c@), z_mle.table(), eq_poly_mle_addr.table());
    proof {
        crate::nexus_spartan::lemma_next_pow2_is_pow2(m as nat);
        let ps = addr_polys(shape);
        assert(tables(ps) =~= tables(shape.addr_a@) + tables(shape.addr_b@) + tables(shape.addr_c@));
        assert(tables(addr_a@)[0] == addr_a@[0].table());
        assert(tables(shape.addr_a@)[0] == shape.addr_a@[0].table());
        assert(addr_a@[0].evaluation_over_boolean_hypercube.len() == l);
        assert forall|j: int| 0 <= j < ts_a.len() implies (exists|e: nat| pow2(e) == (#[trigger] ts_a[j]).len()) && ts_a[j].len() >= l by {
            let na = addr_a.len() + addr_b.len() + addr_c.len();
            if j == na + 1 {
                assert(pow2(m as nat) == ts_a[j].len());
            } else if j == na {
                assert(ts_a[j].len() == next_pow2(m as nat));
            } else {
                assert(ts_a[j] == tables(ps)[j]);
                assert(tables(ps)[j] == ps[j].table());
                assert(tables(ps)[0] == ps[0].table());
                assert(ts_a[j].len() == l);
            }
        }
        assert(fits_rounds(ts_a, l));
    }
    let addr_sumcheck_result = prove_addr_sumcheck(
        ADDR_DIM,
        &addr_claim,
        &rho,
        &mut eq_poly_mle_addr,
        &mut addr_a,
        &mut addr_b,
        &mut addr_c,
        &mut z_mle,
        &incoming_witness.witness_polynomial,
        &mut transcript,
    );
    let ghost t5 = transcript@;

    let gamma = transcript.challenge_scalar(&ADDR_FOLD_LABEL);
    let ghost t6 = transcript@;

    let folded_addr = fold_addr(&addr_sumcheck_result, incoming_shape, incoming_commitments, &gamma);

    let mut objs: Vec<FoldedObject> = Vec::new();
    objs.push(folded_plonkish);
    objs.push(folded_addr);
    proof {
        let n = plonkish_sumcheck_result.challenge_points.len();
        let na = addr_sumcheck_result.challenge_points.len();
        assert(rerandomizable(objs@)) by {
            reveal(plonkish_outcome);
            reveal(addr_outcome);
            reveal(plonkish_fold_outcome);
            reveal(addr_fold_outcome);
            assert(pow2(n as nat) == l);
            assert(pow2(na as nat) == l);
            if n != na {
                if n < na {
                    vstd::arithmetic::power2::lemma_pow2_strictly_increases(n as nat, na as nat);
                } else {
                    vstd::arithmetic::power2::lemma_pow2_strictly_increases(na as nat, n as nat);
                }
            }
            crate::sumcheck_utils::lemma_polynomial_rlc_len(selector_tables(shape), objs@[0].challenge@);
            crate::sumcheck_utils::lemma_polynomial_rlc_len(tables(addr_polys(shape)), gamma@);
            assert(tables(addr_polys(shape))[0] == addr_polys(shape)[0].table());
            assert(objs@[0].random_point.len() == n);
            assert(objs@[1].random_point.len() == na);
        }
    }
    let rerand_fold = rerandomize_fold(objs.as_slice(), &mut transcript);
    let ghost pair = objs@;
    let addr_fold = objs.pop().unwrap();
    let plonkish_fold = objs.pop().unwrap();
    proof {
        assert(pair =~= seq![plonkish_fold, addr_fold]);
        crate::field::lemma_scalar_of(rho);
        crate::field::lemma_scalar_of(gamma);
    }
    let frag = SpeedySpartanFragment {
        plonkish_sumcheck: plonkish_sumcheck_result,
        addr_sumcheck: addr_sumcheck_result,
        plonkish_fold,
        addr_fold,
        rerand_fold,
    };
    proof {
        use_type_invariant(&frag.plonkish_sumcheck.v_b);
        use_type_invariant(&rho);
        lemma_fragment_address_claim(*incoming_shape, *incoming_witness, *incoming_instance, *incoming_commitments, frag);
    }
    frag
}

} // verus!
