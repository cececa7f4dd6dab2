use ark_bls12_381::Fr;
use ark_ff::{BigInt, One, PrimeField, UniformRand};
use ark_std::test_rng;
use speedyspartan::field::Scalar;
use speedyspartan::mle::{vec_to_mle, EqPolynomial, MultilinearPolynomial};
use speedyspartan::sumcheck_utils::{compute_eval_points_degree_d, compute_eval_points_degree_d_with, polynomial_rlc, scalar_rlc, Combiner};
use speedyspartan::unipoly::UniPoly;

fn sc(x: Fr) -> Scalar {
    Scalar::from_limbs(x.into_bigint().0).unwrap()
}

fn fr(s: &Scalar) -> Fr {
    Fr::from_bigint(BigInt::new(s.limbs())).unwrap()
}

fn scs(xs: &[u64]) -> Vec<Scalar> {
    xs.iter().map(|x| Scalar::from_u64(*x)).collect()
}

fn frs(v: &[Scalar]) -> Vec<Fr> {
    v.iter().map(fr).collect()
}

#[test]
fn bind_top_fixes_the_top_variable() {
    // table over (x1, x0) with x1 the top bit: [1, 2, 3, 4]
    let mut p = MultilinearPolynomial::new(scs(&[1, 2, 3, 4]));
    p.bound_poly_var_top(&Scalar::from_u64(10));
    // entries i + r * (hi - lo): 1 + 10 * 2, 2 + 10 * 2
    assert_eq!(frs(&p.evaluation_over_boolean_hypercube), vec![Fr::from(21u64), Fr::from(22u64)]);
    assert_eq!(p.len(), 2);
}

#[test]
fn evaluate_on_the_hypercube_reads_the_table() {
    let p = MultilinearPolynomial::new(scs(&[5, 6, 7, 8]));
    let zero = Scalar::zero();
    let one = Scalar::one();
    assert_eq!(p.evaluate(&[zero, zero]).limbs(), [5, 0, 0, 0]);
    assert_eq!(p.evaluate(&[zero, one]).limbs(), [6, 0, 0, 0]);
    assert_eq!(p.evaluate(&[one, zero]).limbs(), [7, 0, 0, 0]);
    assert_eq!(p.evaluate(&[one, one]).limbs(), [8, 0, 0, 0]);
    // multilinear: at (2, 3) the value is 5 + 3*1 + 2*2 = 12
    assert_eq!(p.evaluate(&scs(&[2, 3])).limbs(), [12, 0, 0, 0]);
}

#[test]
fn scalar_mul_and_add() {
    let mut p = MultilinearPolynomial::new(scs(&[1, 2]));
    p.scalar_mul(&Scalar::from_u64(3));
    let q = MultilinearPolynomial::new(scs(&[10, 20]));
    let s = p.add(&q);
    assert_eq!(frs(&s.evaluation_over_boolean_hypercube), vec![Fr::from(13u64), Fr::from(26u64)]);
    assert_eq!(s.get(1).limbs(), [26, 0, 0, 0]);
}

#[test]
fn vec_to_mle_pads_with_zeros() {
    let m = vec_to_mle(&scs(&[1, 2, 3]));
    assert_eq!(frs(&m.evaluation_over_boolean_hypercube), vec![Fr::from(1u64), Fr::from(2u64), Fr::from(3u64), Fr::from(0u64)]);
    let e = vec_to_mle(&vec![]);
    assert_eq!(e.len(), 1);
    assert!(e.get(0).is_zero());
}

#[test]
fn eq_table_matches_eq_evaluate() {
    let mut rng = test_rng();
    let r: Vec<Scalar> = (0..3).map(|_| sc(Fr::rand(&mut rng))).collect();
    let eq = EqPolynomial::new(r.clone());
    let table = eq.evals();
    assert_eq!(table.len(), 8);
    for x in 0..8usize {
        let bits: Vec<Scalar> = (0..3).map(|j| Scalar::from_u64(((x >> (2 - j)) & 1) as u64)).collect();
        assert!(table[x].equals(&eq.evaluate(&bits)));
    }
    // the table sums to one
    let sum: Fr = frs(&table).iter().sum();
    assert_eq!(sum, Fr::one());
    // eq(r, r') by the product formula
    let rp: Vec<Scalar> = (0..3).map(|_| sc(Fr::rand(&mut rng))).collect();
    let mut expected = Fr::one();
    for (a, b) in r.iter().zip(rp.iter()) {
        let (a, b) = (fr(a), fr(b));
        expected *= a * b + (Fr::one() - a) * (Fr::one() - b);
    }
    assert_eq!(fr(&eq.evaluate(&rp)), expected);
}

#[test]
fn unipoly_interpolates_its_values() {
    // p(X) = X^2 + 1: values 1, 2, 5 at 0, 1, 2
    let p = UniPoly::from_evals(&scs(&[1, 2, 5]));
    assert_eq!(p.degree(), 2);
    assert_eq!(p.eval_at_zero().limbs(), [1, 0, 0, 0]);
    assert_eq!(p.eval_at_one().limbs(), [2, 0, 0, 0]);
    assert_eq!(p.evaluate(&Scalar::from_u64(2)).limbs(), [5, 0, 0, 0]);
    assert_eq!(p.evaluate(&Scalar::from_u64(7)).limbs(), [50, 0, 0, 0]);
    let mut rng = test_rng();
    let r = Fr::rand(&mut rng);
    assert_eq!(fr(&p.evaluate(&sc(r))), r * r + Fr::one());
}

#[test]
fn scalar_rlc_skips_a_power_after_the_first_claim() {
    // claims[0] + claims[1] * c^0 + claims[2] * c^1 + claims[3] * c^2
    let r = scalar_rlc(&scs(&[1, 2, 3, 4]), &Scalar::from_u64(10));
    assert_eq!(r.limbs(), [1 + 2 + 30 + 400, 0, 0, 0]);
    let single = scalar_rlc(&scs(&[9]), &Scalar::from_u64(10));
    assert_eq!(single.limbs(), [9, 0, 0, 0]);
}

#[test]
fn polynomial_rlc_uses_all_powers() {
    let ps = vec![
        MultilinearPolynomial::new(scs(&[1, 2])),
        MultilinearPolynomial::new(scs(&[3, 4])),
        MultilinearPolynomial::new(scs(&[5, 6])),
    ];
    let r = polynomial_rlc(&ps, &Scalar::from_u64(10));
    assert_eq!(frs(&r.evaluation_over_boolean_hypercube), vec![Fr::from(531u64), Fr::from(642u64)]);
}

#[test]
fn round_polynomial_sums_to_the_claim() {
    let mut rng = test_rng();
    let tables: Vec<Vec<Scalar>> = (0..9).map(|_| (0..4).map(|_| sc(Fr::rand(&mut rng))).collect()).collect();
    let polys: Vec<MultilinearPolynomial> = tables.iter().map(|t| MultilinearPolynomial::new(t.clone())).collect();
    let evals = compute_eval_points_degree_d(&polys, 4, &Combiner::Plonkish);
    assert_eq!(evals.len(), 5);
    // the hypercube sum of eq * (q_l a + q_r b + q_o c + q_m a b + q_c)
    let mut total = Fr::from(0u64);
    for x in 0..4 {
        let e: Vec<Fr> = tables.iter().map(|t| fr(&t[x])).collect();
        total += e[8] * (e[0] * e[5] + e[1] * e[6] + e[2] * e[7] + e[3] * e[5] * e[6] + e[4]);
    }
    assert_eq!(fr(&evals[0]) + fr(&evals[1]), total);
    // G(2): each table extended along the top variable to 2
    let mut g2 = Fr::from(0u64);
    for x in 0..2 {
        let e: Vec<Fr> = tables.iter().map(|t| fr(&t[x]) + Fr::from(2u64) * (fr(&t[x + 2]) - fr(&t[x]))).collect();
        g2 += e[8] * (e[0] * e[5] + e[1] * e[6] + e[2] * e[7] + e[3] * e[5] * e[6] + e[4]);
    }
    assert_eq!(fr(&evals[2]), g2);
}

#[test]
fn shorter_table_does_not_depend_on_the_folded_variable() {
    // [1, 2] beside a table of length 4: rows 0 and 1 read entries 1 and 2 at X = 0, 1, 2
    let long = MultilinearPolynomial::new(scs(&[1, 1, 1, 1]));
    let short = MultilinearPolynomial::new(scs(&[1, 2]));
    let polys = vec![long.clone(), long.clone(), long.clone(), long.clone(), short];
    // the random combination sum_i e_i e_{i+2} sigma^i over m = 2 with sigma = 0:
    // e_0 e_2 = long * long = 1 in each row
    let evals = compute_eval_points_degree_d(&polys[..4], 2, &Combiner::RandomCombination { m: 2, sigma: Scalar::from_u64(0) });
    assert_eq!(frs(&evals), vec![Fr::from(2u64); 3]);
    // with the short table in the pair: rows give 1 * 1 and 1 * 2 at every X
    let mixed = vec![long.clone(), long.clone(), polys[4].clone(), long.clone()];
    let evals = compute_eval_points_degree_d(&mixed, 2, &Combiner::RandomCombination { m: 2, sigma: Scalar::from_u64(0) });
    assert_eq!(frs(&evals), vec![Fr::from(3u64); 3]);
}

#[test]
fn eval_points_with_a_closure() {
    let p = MultilinearPolynomial::new(scs(&[1, 2, 3, 4]));
    let first = compute_eval_points_degree_d_with(&[p], 2, |v: Vec<Scalar>| v[0]);
    assert_eq!(frs(&first), vec![Fr::from(3u64), Fr::from(7u64), Fr::from(11u64)]);
    let a = MultilinearPolynomial::new(scs(&[1, 2]));
    let b = MultilinearPolynomial::new(scs(&[3, 5]));
    let prod = compute_eval_points_degree_d_with(&[a, b], 2, |v: Vec<Scalar>| v[0].mul(v[1]));
    assert_eq!(frs(&prod), vec![Fr::from(3u64), Fr::from(10u64), Fr::from(21u64)]);
}
