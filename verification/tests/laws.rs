use ark_bls12_381::{Fr, G1Affine};
use ark_ec::{AffineRepr, CurveGroup};
use ark_ff::{PrimeField, UniformRand};
use ark_std::test_rng;
use speedyspartan::circuit::{scalar_linear_combination, SSCCommitmentVar, ScalarRLCVar};
use speedyspartan::curve::G1Point;
use speedyspartan::field::Scalar;
use speedyspartan::mle::{EqPolynomial, MultilinearPolynomial};
use speedyspartan::plonkish::{one_hot_addr_mles, PlonkishCommitments};
use speedyspartan::sumcheck_utils::polynomial_rlc;
use speedyspartan::unipoly::UniPoly;

fn sc(x: Fr) -> Scalar {
    Scalar::from_limbs(x.into_bigint().0).unwrap()
}

fn rand_scalars(rng: &mut impl ark_std::rand::Rng, n: usize) -> Vec<Scalar> {
    (0..n).map(|_| sc(Fr::rand(rng))).collect()
}

fn point(k: u64) -> G1Point {
    let p = (G1Affine::generator() * Fr::from(k)).into_affine();
    G1Point::from_coordinates(p.x.into_bigint().0, p.y.into_bigint().0, p.infinity).unwrap()
}

#[test]
fn folding_commutes_with_evaluation() {
    let mut rng = test_rng();
    let ps: Vec<MultilinearPolynomial> = (0..4).map(|_| MultilinearPolynomial::new(rand_scalars(&mut rng, 8))).collect();
    let c = sc(Fr::rand(&mut rng));
    let point = rand_scalars(&mut rng, 3);
    let folded = polynomial_rlc(&ps, &c).evaluate(&point);
    let evals: Vec<Scalar> = ps.iter().map(|p| p.evaluate(&point)).collect();
    assert!(folded.equals(&scalar_linear_combination(&c, &evals)));
    // the same through the RLC gadget
    assert!(folded.equals(&ScalarRLCVar::new(evals, c).rlc));
}

#[test]
fn evaluation_at_vertices_reads_the_table() {
    let mut rng = test_rng();
    let t = rand_scalars(&mut rng, 8);
    let p = MultilinearPolynomial::new(t.clone());
    for x in 0..8usize {
        let bits: Vec<Scalar> = (0..3).map(|j| Scalar::from_u64(((x >> (2 - j)) & 1) as u64)).collect();
        assert!(p.evaluate(&bits).equals(&t[x]));
    }
}

#[test]
fn eq_table_lists_eq_at_vertices() {
    let r = vec![Scalar::from_u64(3), Scalar::from_u64(5)];
    let eq = EqPolynomial::new(r);
    let t = eq.evals();
    // eq((3, 5), (b0, b1)) = (3 b0 + (1 - 3)(1 - b0)) (5 b1 + (1 - 5)(1 - b1))
    let (m2, m4) = (-Fr::from(2u64), -Fr::from(4u64));
    let expected = [m2 * m4, m2 * Fr::from(5u64), Fr::from(3u64) * m4, Fr::from(15u64)];
    for x in 0..4 {
        assert!(t[x].equals(&sc(expected[x])));
    }
}

#[test]
fn interpolation_returns_the_stored_values() {
    let mut rng = test_rng();
    let vals = rand_scalars(&mut rng, 6);
    let p = UniPoly::from_evals(&vals);
    for j in 0..6u64 {
        assert!(p.evaluate(&Scalar::from_u64(j)).equals(&vals[j as usize]));
    }
}

#[test]
fn one_hot_digits_give_back_the_address() {
    // addresses up to 26: base 4 (4^3 = 64 >= 27), three digits each
    let indices = vec![26usize, 0, 9, 17];
    let tables = one_hot_addr_mles(&indices, 3);
    let n = 4usize;
    for (row, idx) in indices.iter().enumerate() {
        let mut rebuilt = 0usize;
        let mut power = 1usize;
        for dim in 0..3 {
            let ones: Vec<usize> = (0..n)
                .filter(|d| !tables[dim].evaluation_over_boolean_hypercube[row * n + d].is_zero())
                .collect();
            assert_eq!(ones.len(), 1);
            rebuilt += ones[0] * power;
            power *= n;
        }
        assert_eq!(rebuilt, *idx);
    }
}

#[test]
fn commitments_as_coordinates() {
    let commitments = PlonkishCommitments {
        q_l: point(1),
        q_r: point(2),
        q_m: point(3),
        q_o: point(4),
        q_c: point(5),
        addr_a: vec![point(6)],
        addr_b: vec![point(7), point(8)],
        addr_c: vec![],
    };
    let s = SSCCommitmentVar::new(&commitments);
    let (x, y, _) = commitments.q_o.coordinates();
    assert_eq!((s.q_o.x, s.q_o.y), (x, y));
    assert_eq!(s.addr_b.len(), 2);
    let (x8, y8, _) = point(8).coordinates();
    assert_eq!((s.addr_b[1].x, s.addr_b[1].y), (x8, y8));
    assert!(s.addr_c.is_empty());
    let p = (G1Affine::generator() * Fr::from(6u64)).into_affine();
    assert_eq!(s.addr_a[0].x, p.x.into_bigint().0);
}

#[test]
fn interpolation_is_exact_for_low_degree() {
    // q(x) = 3 + 2 x + 5 x^2 + 7 x^3 + x^4 + 4 x^5, cut to its first n coefficients
    let coeffs = [3u64, 2, 5, 7, 1, 4];
    for n in 3..=6usize {
        let q = |x: u64| -> Fr { coeffs[..n].iter().rev().fold(Fr::from(0u64), |acc, c| acc * Fr::from(x) + Fr::from(*c)) };
        let vals: Vec<Scalar> = (0..n as u64).map(|x| sc(q(x))).collect();
        let p = UniPoly::from_evals(&vals);
        for r in [9u64, 100, 12345] {
            assert!(p.evaluate(&Scalar::from_u64(r)).equals(&sc(q(r))));
        }
    }
}
