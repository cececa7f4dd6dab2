use ark_bls12_381::{Fr, G1Affine};
use ark_ec::{AffineRepr, CurveGroup};
use ark_ff::{BigInt, One, PrimeField, UniformRand, Zero};
use ark_std::test_rng;
use speedyspartan::circuit::PlonkishClaim;
use speedyspartan::curve::{commitment_rlc, point_rlc, G1Point};
use speedyspartan::field::Scalar;
use speedyspartan::folding::{fold, fold_addr, FoldedObject};
use speedyspartan::mle::{EqPolynomial, MultilinearPolynomial};
use speedyspartan::plonkish::{
    one_hot_addr_mles, PlonkishCommitments, PlonkishInstance, PlonkishShape, PlonkishWitness,
};
use speedyspartan::rerandomization::{combine_eq_polys, rerandomize_fold};
use speedyspartan::snark::prove_speedyspartan_fragment;
use speedyspartan::sumcheck_utils::scalar_rlc;
use speedyspartan::sumchecks::{
    prove_addr_sumcheck, prove_plonkish_sumcheck, prove_random_combination_sumcheck, AddrMSumcheckResult,
};
use speedyspartan::transcript::{Transcript, PLONKISH_GAMMA_LABEL, RERAND_RLC_LABEL};
use speedyspartan::unipoly::UniPoly;

fn sc(x: Fr) -> Scalar {
    Scalar::from_limbs(x.into_bigint().0).unwrap()
}

fn fr(s: &Scalar) -> Fr {
    Fr::from_bigint(BigInt::new(s.limbs())).unwrap()
}

fn scs(xs: &[u64]) -> Vec<Scalar> {
    xs.iter().map(|x| Scalar::from_u64(*x)).collect()
}

fn frs(v: &[Scalar]) -> Vec<Fr> {
    v.iter().map(fr).collect()
}

fn point(k: u64) -> G1Point {
    let p = (G1Affine::generator() * Fr::from(k)).into_affine();
    G1Point::from_coordinates(p.x.into_bigint().0, p.y.into_bigint().0, p.infinity).unwrap()
}

fn affine(p: &G1Point) -> G1Affine {
    let (x, y, inf) = p.coordinates();
    if inf {
        return G1Affine::identity();
    }
    G1Affine::new_unchecked(
        ark_bls12_381::Fq::from_bigint(BigInt::new(x)).unwrap(),
        ark_bls12_381::Fq::from_bigint(BigInt::new(y)).unwrap(),
    )
}

fn rand_poly<R: ark_std::rand::Rng>(rng: &mut R, n: usize) -> MultilinearPolynomial {
    let evals: Vec<Scalar> = (0..n).map(|_| sc(Fr::rand(rng))).collect();
    MultilinearPolynomial::new(evals)
}

#[test]
fn point_rlc_is_the_msm_of_powers() {
    let pts = vec![point(2), point(3), point(5)];
    let c = Fr::from(7u64);
    let r = point_rlc(&pts, &sc(c));
    let expected = (G1Affine::generator() * (Fr::from(2u64) + Fr::from(3u64) * c + Fr::from(5u64) * c * c)).into_affine();
    assert_eq!(affine(&r), expected);
    let r2 = commitment_rlc(&pts, &sc(c));
    assert_eq!(affine(&r2), expected);
    assert!(G1Point::from_coordinates([u64::MAX; 6], [0; 6], false).is_none());
}

#[test]
fn points_off_the_curve_are_refused() {
    // (1, 1) is not on y^2 = x^3 + 4
    assert!(G1Point::from_coordinates([1, 0, 0, 0, 0, 0], [1, 0, 0, 0, 0, 0], false).is_none());
    // the point at infinity is accepted
    assert!(G1Point::from_coordinates([0; 6], [0; 6], true).is_some());
    assert!(G1Point::from_coordinates(point(9).coordinates().0, point(9).coordinates().1, false).is_some());
}

#[test]
fn one_hot_tables_mark_the_digits() {
    let t = one_hot_addr_mles(&[0, 1, 2, 3], 3);
    assert_eq!(t.len(), 3);
    let ones = |p: &MultilinearPolynomial| -> Vec<u64> {
        p.evaluation_over_boolean_hypercube.iter().map(|s| s.limbs()[0]).collect()
    };
    assert_eq!(ones(&t[0]), vec![1, 0, 0, 1, 1, 0, 0, 1]);
    assert_eq!(ones(&t[1]), vec![1, 0, 1, 0, 0, 1, 0, 1]);
    assert_eq!(ones(&t[2]), vec![1, 0, 1, 0, 1, 0, 1, 0]);
    let single = one_hot_addr_mles(&[0, 0, 0], 3);
    assert_eq!(ones(&single[0]), vec![1, 1, 1, 0]);
}

fn tiny_shape() -> PlonkishShape {
    // two gates, every wire reading z[0]: a - c = 0 and b - 3 = 0, both
    // satisfied by z[0] = 3
    let q = |v: &[Fr]| MultilinearPolynomial::new(v.iter().map(|x| sc(*x)).collect());
    let (zero, one) = (Fr::zero(), Fr::one());
    PlonkishShape::new(
        q(&[one, zero]),
        q(&[zero, one]),
        q(&[zero, zero]),
        q(&[-one, zero]),
        q(&[zero, -Fr::from(3u64)]),
        vec![0, 0],
        vec![0, 0],
        vec![0, 0],
    )
}

fn tiny_commitments() -> PlonkishCommitments {
    PlonkishCommitments {
        q_l: point(1),
        q_r: point(2),
        q_m: point(3),
        q_o: point(4),
        q_c: point(5),
        addr_a: vec![point(6), point(7), point(8)],
        addr_b: vec![point(9), point(10), point(11)],
        addr_c: vec![point(12), point(13), point(14)],
    }
}

#[test]
fn shape_gathers_wires() {
    let shape = PlonkishShape::new(
        MultilinearPolynomial::new(scs(&[0, 0])),
        MultilinearPolynomial::new(scs(&[0, 0])),
        MultilinearPolynomial::new(scs(&[0, 0])),
        MultilinearPolynomial::new(scs(&[0, 0])),
        MultilinearPolynomial::new(scs(&[0, 0])),
        vec![2, 0],
        vec![1, 1],
        vec![0, 2],
    );
    let witness = PlonkishWitness { witness_data: scs(&[10, 20]), witness_polynomial: MultilinearPolynomial::new(scs(&[1])) };
    let instance = PlonkishInstance { instance: scs(&[30]), commitments: tiny_commitments() };
    let zs = shape.z(&witness, &instance);
    assert_eq!(frs(&zs.z), vec![Fr::from(10u64), Fr::from(20u64), Fr::from(30u64)]);
    assert_eq!(frs(&zs.z_a), vec![Fr::from(30u64), Fr::from(10u64)]);
    assert_eq!(frs(&zs.z_b), vec![Fr::from(20u64), Fr::from(20u64)]);
    assert_eq!(frs(&zs.z_c), vec![Fr::from(10u64), Fr::from(30u64)]);
    assert_eq!(shape.addr_a.len(), 3);
}

#[test]
fn plonkish_sumcheck_is_complete() {
    // q_l z_a + q_r z_b + q_o z_c + q_m z_a z_b + q_c weighted by eq(tau, x)
    let n = 8;
    let mut rng = test_rng();
    let tau: Vec<Scalar> = (0..3).map(|_| sc(Fr::rand(&mut rng))).collect();
    let eq = EqPolynomial::new(tau).evals();
    let mut ps: Vec<MultilinearPolynomial> = (0..8).map(|_| rand_poly(&mut rng, n)).collect();
    let mut eq_poly = MultilinearPolynomial::new(eq.clone());
    let mut claim = Fr::zero();
    for x in 0..n {
        let e: Vec<Fr> = ps.iter().map(|p| fr(&p.evaluation_over_boolean_hypercube[x])).collect();
        claim += fr(&eq[x]) * (e[0] * e[5] + e[1] * e[6] + e[2] * e[7] + e[3] * e[5] * e[6] + e[4]);
    }
    let mut t = Transcript::new(b"complete");
    let (a, rest) = ps.split_at_mut(5);
    let (q_l, qs) = a.split_at_mut(1);
    let (q_r, qs) = qs.split_at_mut(1);
    let (q_o, qs) = qs.split_at_mut(1);
    let (q_m, q_c) = qs.split_at_mut(1);
    let (z_a, zs) = rest.split_at_mut(1);
    let (z_b, z_c) = zs.split_at_mut(1);
    let res = prove_plonkish_sumcheck(
        &sc(claim),
        &mut q_l[0],
        &mut q_r[0],
        &mut q_o[0],
        &mut q_m[0],
        &mut q_c[0],
        &mut z_a[0],
        &mut z_b[0],
        &mut z_c[0],
        &mut eq_poly,
        &mut t,
    );
    assert_eq!(res.challenge_points.len(), 3);
    assert_eq!(res.claims_per_round.len(), 4);
    assert_eq!(fr(&res.claims_per_round[0]), claim);
    for (i, p) in res.polys.iter().enumerate() {
        assert_eq!(p.evals.len(), 5);
        assert_eq!(fr(&p.evals[0]) + fr(&p.evals[1]), fr(&res.claims_per_round[i]));
        assert!(p.evaluate(&res.challenge_points[i]).equals(&res.claims_per_round[i + 1]));
    }
    let last = fr(&res.claims_per_round[3]);
    let (l, r, o, m, c) = (fr(&res.v_l), fr(&res.v_r), fr(&res.v_o), fr(&res.v_m), fr(&res.v_c));
    let (va, vb, vc) = (fr(&res.v_a), fr(&res.v_b), fr(&res.v_zc));
    assert_eq!(last, fr(&res.eq) * (l * va + r * vb + o * vc + m * va * vb + c));
    // the closing-claim gadget gives the same value
    let pc = PlonkishClaim::new(&res, EqPolynomial::new(res.challenge_points.clone()));
    assert!(res.eq.mul(pc.compute_final_claim_noeq()).equals(&res.claims_per_round[3]));
}

#[test]
fn addr_sumcheck_is_complete() {
    let rho = Scalar::from_u64(3);
    let mut rng = test_rng();
    let mut a: Vec<MultilinearPolynomial> = (0..3).map(|_| rand_poly(&mut rng, 4)).collect();
    let mut b: Vec<MultilinearPolynomial> = (0..3).map(|_| rand_poly(&mut rng, 4)).collect();
    let mut c: Vec<MultilinearPolynomial> = (0..3).map(|_| rand_poly(&mut rng, 4)).collect();
    let mut z = rand_poly(&mut rng, 4);
    let mut eq = rand_poly(&mut rng, 4);
    let w = MultilinearPolynomial::new((0..2).map(|_| sc(Fr::rand(&mut rng))).collect());
    let mut claim = Fr::zero();
    let rh = fr(&rho);
    for x in 0..4 {
        let pa: Fr = a.iter().map(|p| fr(&p.evaluation_over_boolean_hypercube[x])).product();
        let pb: Fr = b.iter().map(|p| fr(&p.evaluation_over_boolean_hypercube[x])).product();
        let pc: Fr = c.iter().map(|p| fr(&p.evaluation_over_boolean_hypercube[x])).product();
        claim += fr(&z.evaluation_over_boolean_hypercube[x])
            * fr(&eq.evaluation_over_boolean_hypercube[x])
            * (pa + rh * pb + rh * rh * pc);
    }
    let z0 = z.clone();
    let mut t = Transcript::new(b"addr");
    let res = prove_addr_sumcheck(3, &sc(claim), &rho, &mut eq, &mut a, &mut b, &mut c, &mut z, &w, &mut t);
    assert_eq!(res.challenge_points.len(), 2);
    assert_eq!(fr(&res.claims_per_round[0]), claim);
    for (i, p) in res.polys.iter().enumerate() {
        assert_eq!(p.evals.len(), 6);
        assert_eq!(fr(&p.evals[0]) + fr(&p.evals[1]), fr(&res.claims_per_round[i]));
    }
    assert!(res.z_eval.equals(&z0.evaluate(&res.challenge_points)));
    assert!(res.w_eval.equals(&w.evaluate(&res.challenge_points[1..])));
    assert_eq!(res.addr_a_evals.len(), 3);
}

#[test]
fn addr_sumcheck_with_one_entry_runs_no_round() {
    let rho = Scalar::from_u64(3);
    let one = |v: u64| MultilinearPolynomial::new(scs(&[v]));
    let mut a = vec![one(2)];
    let mut b = vec![one(3)];
    let mut c = vec![one(4)];
    let mut z = one(5);
    let mut eq = one(6);
    let w = one(7);
    let mut t = Transcript::new(b"addr");
    let res = prove_addr_sumcheck(1, &Scalar::from_u64(11), &rho, &mut eq, &mut a, &mut b, &mut c, &mut z, &w, &mut t);
    assert_eq!(res.challenge_points.len(), 0);
    assert_eq!(res.polys.len(), 0);
    assert_eq!(res.claims_per_round.len(), 1);
    assert!(res.claims_per_round[0].equals(&Scalar::from_u64(11)));
    assert!(res.z_eval.equals(&Scalar::from_u64(5)));
    assert!(res.w_eval.equals(&Scalar::from_u64(7)));
    assert!(res.addr_a_evals[0].equals(&Scalar::from_u64(2)));
}

#[test]
fn fold_combines_claims_polys_and_commitments() {
    let shape = tiny_shape();
    let commitments = tiny_commitments();
    let mut t = Transcript::new(b"fold");
    let mut q_l = shape.q_l.clone();
    let mut q_r = shape.q_r.clone();
    let mut q_o = shape.q_o.clone();
    let mut q_m = shape.q_m.clone();
    let mut q_c = shape.q_c.clone();
    let mut z_a = MultilinearPolynomial::new(scs(&[1, 2]));
    let mut z_b = MultilinearPolynomial::new(scs(&[3, 4]));
    let mut z_c = MultilinearPolynomial::new(scs(&[5, 6]));
    let mut eq = MultilinearPolynomial::new(scs(&[7, 8]));
    let res = prove_plonkish_sumcheck(
        &Scalar::zero(),
        &mut q_l,
        &mut q_r,
        &mut q_o,
        &mut q_m,
        &mut q_c,
        &mut z_a,
        &mut z_b,
        &mut z_c,
        &mut eq,
        &mut t,
    );
    let mut t1 = Transcript::new(b"x");
    let mut t2 = Transcript::new(b"x");
    let f = fold(&res, &mut t1, &shape, &commitments);
    let gamma = t2.challenge_scalar(&PLONKISH_GAMMA_LABEL);
    assert!(f.challenge.equals(&gamma));
    let claims = [res.v_l, res.v_r, res.v_o, res.v_m, res.v_c, res.v_a, res.v_b, res.v_c, res.eq];
    assert!(f.claim.equals(&scalar_rlc(&claims, &gamma)));
    let g = fr(&gamma);
    let expected_poly: Vec<Fr> = (0..2)
        .map(|x| {
            let e = |p: &MultilinearPolynomial| fr(&p.evaluation_over_boolean_hypercube[x]);
            e(&shape.q_l) + g * e(&shape.q_r) + g * g * e(&shape.q_o) + g * g * g * e(&shape.q_m) + g * g * g * g * e(&shape.q_c)
        })
        .collect();
    assert_eq!(frs(&f.polynomial.evaluation_over_boolean_hypercube), expected_poly);
    // q_l, q_r, q_o, q_m, q_c are 1, 2, 4, 3, 5 times the generator
    let k = Fr::from(1u64) + Fr::from(2u64) * g + Fr::from(4u64) * g * g + Fr::from(3u64) * g * g * g + Fr::from(5u64) * g * g * g * g;
    assert_eq!(affine(&f.commitment), (G1Affine::generator() * k).into_affine());
    assert_eq!(frs(&f.random_point), frs(&res.challenge_points));
    // the method form draws the same challenge
    let mut t3 = Transcript::new(b"x");
    res.fold(&mut t3, &shape);
    assert!(t3.challenge_scalar(b"next").equals(&t1.challenge_scalar(b"next")));
}

#[test]
fn fold_addr_appends_the_witness_claim() {
    let shape = tiny_shape();
    let commitments = tiny_commitments();
    let res = AddrMSumcheckResult {
        polys: vec![],
        claims_per_round: vec![],
        challenge_points: scs(&[4]),
        addr_a_evals: scs(&[1, 2, 3]),
        addr_b_evals: scs(&[4, 5, 6]),
        addr_c_evals: scs(&[7, 8, 9]),
        z_eval: Scalar::from_u64(0),
        w_eval: Scalar::from_u64(10),
    };
    let gamma = Scalar::from_u64(2);
    let f = fold_addr(&res, &shape, &commitments, &gamma);
    // 1 + sum_{i=1..9} claims[i] * 2^(i-1) with claims 2..9 then 10
    let mut expected = 1u64;
    let rest = [2u64, 3, 4, 5, 6, 7, 8, 9, 10];
    for (i, v) in rest.iter().enumerate() {
        expected += v * (1u64 << i);
    }
    assert_eq!(f.claim.limbs(), [expected, 0, 0, 0]);
    assert!(f.challenge.equals(&gamma));
    let ks: u64 = (6..=14).enumerate().map(|(i, k)| (k as u64) << i).sum();
    assert_eq!(affine(&f.commitment), (G1Affine::generator() * Fr::from(ks)).into_affine());
    // every address table of the tiny shape marks digit zero: the table [1, 1]
    assert_eq!(f.polynomial.evaluation_over_boolean_hypercube.len(), 2);
    assert_eq!(fr(&f.polynomial.evaluation_over_boolean_hypercube[0]), Fr::from(511u64));
}

#[test]
fn combine_eq_polys_weights_by_eq_and_sigma() {
    let eqs = vec![EqPolynomial::new(scs(&[0])), EqPolynomial::new(scs(&[1]))];
    let polys = vec![MultilinearPolynomial::new(scs(&[3, 4])), MultilinearPolynomial::new(scs(&[5, 6]))];
    let out = combine_eq_polys(&eqs, &polys, &Scalar::from_u64(10));
    assert_eq!(out.len(), 2);
    assert_eq!(frs(&out[0].evaluation_over_boolean_hypercube), vec![Fr::from(3u64), Fr::from(0u64)]);
    assert_eq!(frs(&out[1].evaluation_over_boolean_hypercube), vec![Fr::from(0u64), Fr::from(60u64)]);
}

fn folded(point_v: u64, claim: u64, poly: &[u64], commitment: u64) -> FoldedObject {
    FoldedObject {
        challenge: Scalar::zero(),
        claim: Scalar::from_u64(claim),
        random_point: scs(&[point_v]),
        commitment: point(commitment),
        polynomial: MultilinearPolynomial::new(scs(poly)),
    }
}

#[test]
fn rerandomization_merges_claims() {
    // honest claims: [1, 2] at 2 is 3, [3, 4] at 5 is 8
    let objs = vec![folded(2, 3, &[1, 2], 3), folded(5, 8, &[3, 4], 4)];
    let mut t = Transcript::new(b"rerand");
    let out = rerandomize_fold(&objs, &mut t);
    let mut t2 = Transcript::new(b"rerand");
    let sigma = t2.challenge_scalar(&RERAND_RLC_LABEL);
    assert!(out.folded_object.challenge.equals(&sigma));
    let s = fr(&sigma);
    assert_eq!(fr(&out.folded_object.claim), Fr::from(3u64) + Fr::from(8u64) * s);
    assert_eq!(affine(&out.folded_object.commitment), (G1Affine::generator() * (Fr::from(3u64) + Fr::from(4u64) * s)).into_affine());
    assert_eq!(out.sumcheck.challenge_points.len(), 1);
    assert_eq!(frs(&out.folded_object.random_point), frs(&out.sumcheck.challenge_points));
    // the sum-check starts from the merged claim, and its first message sums
    // to sum_i sigma^i p_i(point_i) = 3 + 8 sigma: the round check passes
    assert!(out.sumcheck.claims_per_round[0].equals(&out.folded_object.claim));
    let p: &UniPoly = &out.sumcheck.polys[0];
    assert_eq!(fr(&p.evals[0]) + fr(&p.evals[1]), fr(&out.folded_object.claim));
    // eq tables (1 - p, p) times the tables times sigma^i, then combined with sigma^i again
    let one = Fr::one();
    let e0 = [one - Fr::from(2u64), Fr::from(2u64)];
    let e1 = [one - Fr::from(5u64), Fr::from(5u64)];
    let expected: Vec<Fr> = (0..2)
        .map(|x| e0[x] * Fr::from([1u64, 2][x]) + s * (e1[x] * Fr::from([3u64, 4][x]) * s))
        .collect();
    assert_eq!(frs(&out.folded_object.polynomial.evaluation_over_boolean_hypercube), expected);
    assert_eq!(out.sumcheck.final_poly_values.len(), 4);
}

#[test]
fn random_combination_sumcheck_is_complete() {
    let sigma = Scalar::from_u64(5);
    let mut rng = test_rng();
    let mut eqs = vec![rand_poly(&mut rng, 4), rand_poly(&mut rng, 4)];
    let mut ps = vec![rand_poly(&mut rng, 4), rand_poly(&mut rng, 4)];
    let s = fr(&sigma);
    let mut claim = Fr::zero();
    for x in 0..4 {
        for i in 0..2 {
            let w = if i == 0 { Fr::one() } else { s };
            claim += w * fr(&eqs[i].evaluation_over_boolean_hypercube[x]) * fr(&ps[i].evaluation_over_boolean_hypercube[x]);
        }
    }
    let mut t = Transcript::new(b"rc");
    let res = prove_random_combination_sumcheck(&sc(claim), &mut eqs, &mut ps, &sigma, &mut t);
    assert_eq!(res.challenge_points.len(), 2);
    for (i, p) in res.polys.iter().enumerate() {
        assert_eq!(fr(&p.evals[0]) + fr(&p.evals[1]), fr(&res.claims_per_round[i]));
    }
    let f = frs(&res.final_poly_values);
    assert_eq!(fr(&res.claims_per_round[2]), f[0] * f[2] + s * f[1] * f[3]);
    assert!(res.sigma.equals(&sigma));
}

#[test]
fn fragment_proof_runs_end_to_end() {
    let shape = tiny_shape();
    let commitments = tiny_commitments();
    let witness = PlonkishWitness { witness_data: scs(&[3]), witness_polynomial: MultilinearPolynomial::new(scs(&[3])) };
    let instance = PlonkishInstance { instance: scs(&[9]), commitments: tiny_commitments() };
    let frag = prove_speedyspartan_fragment(&shape, &witness, &instance, &commitments);
    assert_eq!(frag.plonkish_sumcheck.challenge_points.len(), 1);
    assert!(frag.plonkish_sumcheck.claims_per_round[0].is_zero());
    let p = &frag.plonkish_sumcheck.polys[0];
    assert!(p.eval_at_zero().add(p.eval_at_one()).is_zero());
    assert_eq!(frag.addr_sumcheck.challenge_points.len(), 1);
    assert_eq!(frs(&frag.plonkish_fold.random_point), frs(&frag.plonkish_sumcheck.challenge_points));
    assert_eq!(frs(&frag.addr_fold.random_point), frs(&frag.addr_sumcheck.challenge_points));
    assert_eq!(frs(&frag.rerand_fold.folded_object.random_point), frs(&frag.rerand_fold.sumcheck.challenge_points));
    assert_eq!(frag.addr_sumcheck.polys[0].evals.len(), 6);
    assert_eq!(frag.rerand_fold.sumcheck.final_poly_values.len(), 4);
    assert_eq!(frag.plonkish_fold.polynomial.len(), 2);
    assert_eq!(frag.addr_fold.polynomial.len(), 2);
}
