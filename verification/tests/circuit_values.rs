use ark_bls12_381::Fr;
use ark_ff::{BigInt, One, PrimeField, UniformRand, Zero};
use ark_r1cs_std::alloc::AllocVar;
use ark_r1cs_std::eq::EqGadget;
use ark_r1cs_std::fields::fp::FpVar;
use ark_r1cs_std::fields::FieldVar;
use ark_r1cs_std::R1CSVar;
use ark_relations::r1cs::ConstraintSystem;
use ark_std::test_rng;
use speedyspartan::circuit::{
    concat_mle_claim, scalar_linear_combination, squeeze_challenge, AddrClaim, PlonkishClaim, ScalarRLCVar,
    SumcheckCircuitVar, N_CHALLENGE_BITS,
};
use speedyspartan::field::Scalar;
use speedyspartan::mle::EqPolynomial;
use speedyspartan::sumchecks::{AddrMSumcheckResult, PlonkishSumcheckResult};
use speedyspartan::transcript::{Transcript, NEXT_ROUND_LABEL, POLY_LABEL};
use speedyspartan::unipoly::UniPoly;

fn sc(x: Fr) -> Scalar {
    Scalar::from_limbs(x.into_bigint().0).unwrap()
}

fn fr(s: &Scalar) -> Fr {
    Fr::from_bigint(BigInt::new(s.limbs())).unwrap()
}

fn scs(xs: &[u64]) -> Vec<Scalar> {
    xs.iter().map(|x| Scalar::from_u64(*x)).collect()
}

#[test]
fn test_scalar_linear_combination() {
    let cs = ConstraintSystem::<Fr>::new_ref();
    let mut rng = test_rng();

    let coeff = Fr::rand(&mut rng);
    let inputs_vals: Vec<Fr> = (0..5).map(|_| Fr::rand(&mut rng)).collect();

    let coeff_var = FpVar::new_witness(cs.clone(), || Ok(coeff)).unwrap();
    let input_vars = inputs_vals
        .iter()
        .map(|v| FpVar::new_witness(cs.clone(), || Ok(*v)).unwrap())
        .collect::<Vec<_>>();

    // the library's combination, held by a witness bound to the combination built in the circuit
    let inputs: Vec<Scalar> = inputs_vals.iter().map(|v| sc(*v)).collect();
    let rlc = scalar_linear_combination(&sc(coeff), &inputs);
    let rlc_var = FpVar::new_witness(cs.clone(), || Ok(fr(&rlc))).unwrap();
    let mut in_circuit = FpVar::<Fr>::zero();
    let mut power = FpVar::<Fr>::one();
    for input in &input_vars {
        in_circuit += &power * input;
        power *= &coeff_var;
    }
    rlc_var.enforce_equal(&in_circuit).unwrap();

    // compute expected value
    let mut expected = Fr::zero();
    let mut pow = Fr::one();
    for val in inputs_vals {
        expected += pow * val;
        pow *= coeff;
    }

    assert_eq!(rlc_var.value().unwrap(), expected);
    assert!(cs.is_satisfied().unwrap());
}

#[test]
fn linear_combination_small_values() {
    // 1 + 2*3 + 3*9 = 34
    let r = scalar_linear_combination(&Scalar::from_u64(3), &scs(&[1, 2, 3]));
    assert_eq!(r.limbs(), [34, 0, 0, 0]);
    let empty = scalar_linear_combination(&Scalar::from_u64(3), &[]);
    assert!(empty.is_zero());
}

#[test]
fn rlc_gadget_matches_linear_combination() {
    let mut rng = test_rng();
    let c = Fr::rand(&mut rng);
    let vals: Vec<Fr> = (0..6).map(|_| Fr::rand(&mut rng)).collect();
    let scalars: Vec<Scalar> = vals.iter().map(|v| sc(*v)).collect();
    let rlc = ScalarRLCVar::new(scalars.clone(), sc(c));
    let lc = scalar_linear_combination(&sc(c), &scalars);
    assert!(rlc.rlc.equals(&lc));
    // 5 + 7*2 + 11*4 = 63
    let small = ScalarRLCVar::new(scs(&[5, 7, 11]), Scalar::from_u64(2));
    assert_eq!(small.rlc.limbs(), [63, 0, 0, 0]);
}

#[test]
fn squeeze_keeps_low_bits() {
    let mut t1 = Transcript::new(b"squeeze");
    let mut t2 = Transcript::new(b"squeeze");
    let full = t1.challenge_scalar(&NEXT_ROUND_LABEL);
    let low = squeeze_challenge(&mut t2, N_CHALLENGE_BITS, &NEXT_ROUND_LABEL);
    let f = full.limbs();
    assert_eq!(low.limbs(), [f[0], f[1], 0, 0]);
    let mut t3 = Transcript::new(b"squeeze");
    let low5 = squeeze_challenge(&mut t3, 5, &NEXT_ROUND_LABEL);
    assert_eq!(low5.limbs(), [f[0] % 32, 0, 0, 0]);
    let mut t4 = Transcript::new(b"squeeze");
    let none = squeeze_challenge(&mut t4, 0, &NEXT_ROUND_LABEL);
    assert!(none.is_zero());
    // all transcripts moved on identically
    assert!(t1.challenge_scalar(b"next").equals(&t2.challenge_scalar(b"next")));
    let mut t5 = Transcript::new(b"squeeze");
    let all = squeeze_challenge(&mut t5, 255, &NEXT_ROUND_LABEL);
    assert!(all.equals(&full));
}

#[test]
fn concat_claim_formula() {
    let mut rng = test_rng();
    let r: Vec<Fr> = (0..5).map(|_| Fr::rand(&mut rng)).collect();
    let x: Vec<Fr> = (0..6).map(|_| Fr::rand(&mut rng)).collect();
    let w = Fr::rand(&mut rng);
    let z = concat_mle_claim(
        &r.iter().map(|v| sc(*v)).collect::<Vec<_>>(),
        &sc(w),
        &x.iter().map(|v| sc(*v)).collect::<Vec<_>>(),
    );
    let one = Fr::one();
    let (t, a, b) = (r[0], r[1], r[2]);
    let tail = (one - r[3]) * (one - r[4]);
    let chi = [
        (one - a) * (one - b) * tail,
        a * (one - b) * tail,
        (one - a) * b * tail,
        a * b * tail,
    ];
    let x_eval = x[0] * chi[0] + x[1] * chi[1] + x[2] * chi[2] + x[3] * chi[3];
    assert_eq!(fr(&z), (one - t) * w + t * x_eval);
    // at t = 0 the witness claim comes back
    let mut r0 = r.clone();
    r0[0] = Fr::zero();
    let z0 = concat_mle_claim(
        &r0.iter().map(|v| sc(*v)).collect::<Vec<_>>(),
        &sc(w),
        &x.iter().map(|v| sc(*v)).collect::<Vec<_>>(),
    );
    assert_eq!(fr(&z0), w);
}

fn plonkish_result(points: Vec<Scalar>) -> PlonkishSumcheckResult {
    PlonkishSumcheckResult {
        polys: vec![],
        claims_per_round: vec![],
        challenge_points: points,
        v_l: Scalar::from_u64(2),
        v_r: Scalar::from_u64(3),
        v_o: Scalar::from_u64(5),
        v_m: Scalar::from_u64(7),
        v_c: Scalar::from_u64(11),
        v_a: Scalar::from_u64(13),
        v_b: Scalar::from_u64(17),
        v_zc: Scalar::from_u64(19),
        eq: Scalar::from_u64(23),
    }
}

#[test]
fn plonkish_claim_values() {
    let points = scs(&[2, 3]);
    let res = plonkish_result(points.clone());
    let claim = PlonkishClaim::new(&res, EqPolynomial::new(points));
    // eq((2,3),(2,3)) = (4 + 1) * (9 + 4) = 65
    assert_eq!(claim.final_claim.limbs(), [65, 0, 0, 0]);
    let v: Vec<[u64; 4]> = claim.claim_as_vec().iter().map(|s| s.limbs()).collect();
    assert_eq!(
        v,
        vec![[13, 0, 0, 0], [17, 0, 0, 0], [19, 0, 0, 0], [5, 0, 0, 0], [7, 0, 0, 0], [2, 0, 0, 0], [3, 0, 0, 0], [11, 0, 0, 0]]
    );
    // 2*13 + 3*17 + 19*5 + 7*13*17 + 11 = 26 + 51 + 95 + 1547 + 11 = 1730
    assert_eq!(claim.compute_final_claim_noeq().limbs(), [1730, 0, 0, 0]);
}

#[test]
fn addr_claim_values() {
    let res = AddrMSumcheckResult {
        polys: vec![],
        claims_per_round: vec![],
        challenge_points: scs(&[1, 0]),
        addr_a_evals: scs(&[2, 3]),
        addr_b_evals: scs(&[5]),
        addr_c_evals: scs(&[7, 1, 2]),
        z_eval: Scalar::from_u64(9),
        w_eval: Scalar::from_u64(4),
    };
    let claim = AddrClaim::new(&res, &Scalar::from_u64(10), EqPolynomial::new(scs(&[1, 0])));
    assert_eq!(claim.addr_a_prod.limbs(), [6, 0, 0, 0]);
    assert_eq!(claim.addr_b_prod.limbs(), [5, 0, 0, 0]);
    assert_eq!(claim.addr_c_prod.limbs(), [14, 0, 0, 0]);
    assert_eq!(claim.z_eval.limbs(), [9, 0, 0, 0]);
    // eq = 1; (6 + 5*10 + 14*100) * 4 = 1456 * 4 = 5824
    assert_eq!(claim.final_claim.limbs(), [5824, 0, 0, 0]);
    let away = AddrClaim::new(&res, &Scalar::from_u64(10), EqPolynomial::new(scs(&[0, 0])));
    assert!(away.final_claim.is_zero());
}

#[test]
fn sumcheck_verifier_accepts_consistent_rounds() {
    // one round, p(X) = 3 + 4X given by p(0) = 3, p(1) = 7, p(2) = 11; claim 10
    let p = UniPoly::from_evals(&scs(&[3, 7, 11]));
    let sc_var = SumcheckCircuitVar {
        compressed_polys: vec![p.clone()],
        claim: Scalar::from_u64(10),
        num_rounds: 1,
        degree_bound: 2,
    };
    let mut t = Transcript::new(b"verify");
    let (e, rs, ok) = sc_var.verify(&mut t);
    assert!(ok);
    assert_eq!(rs.len(), 1);
    // the challenge is the squeezed one after absorbing p
    let mut t2 = Transcript::new(b"verify");
    p.append_to_transcript(&POLY_LABEL, &mut t2);
    let r = squeeze_challenge(&mut t2, 128, &NEXT_ROUND_LABEL);
    assert!(rs[0].equals(&r));
    assert_eq!(fr(&e), Fr::from(3u64) + Fr::from(4u64) * fr(&r));
    assert!(t.challenge_scalar(b"after").equals(&t2.challenge_scalar(b"after")));

    let bad = SumcheckCircuitVar {
        compressed_polys: vec![p],
        claim: Scalar::from_u64(11),
        num_rounds: 1,
        degree_bound: 2,
    };
    let (_, _, ok_bad) = bad.verify(&mut Transcript::new(b"verify"));
    assert!(!ok_bad);
}
