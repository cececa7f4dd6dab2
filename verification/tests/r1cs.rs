use ark_bls12_381::Fr;
use ark_ff::{BigInt, PrimeField};
use speedyspartan::field::Scalar;
use speedyspartan::nexus_spartan::{
    analyze_vector_sparseness, next_power_of_two, Assignment, Instance, R1CSError, MODULUS_BIT_SIZE,
};

fn sc(x: Fr) -> Scalar {
    Scalar::from_limbs(x.into_bigint().0).unwrap()
}

fn one() -> Scalar {
    Scalar::one()
}

/// `x * x = y` over `z = (x) || 1 || (y)`.
fn square_instance() -> Result<Instance, R1CSError> {
    let a = vec![(0usize, 0usize, one())];
    let b = vec![(0usize, 0usize, one())];
    let c = vec![(0usize, 2usize, one())];
    Instance::new(1, 1, 1, &a, &b, &c)
}

#[test]
fn instance_is_padded() {
    let inst = square_instance().unwrap();
    // one constraint is padded to two; the witness to next_pow2(max(1, 1 + 1)) = 2
    assert_eq!(inst.inst.get_num_cons(), 2);
    assert_eq!(inst.inst.get_num_vars(), 2);
    assert_eq!(inst.inst.get_num_inputs(), 1);
    let wide = Instance::new(5, 3, 1, &[], &[], &[]).unwrap();
    assert_eq!(wide.inst.get_num_cons(), 8);
    assert_eq!(wide.inst.get_num_vars(), 4);
    // zero constraints are padded to two, like one
    let none = Instance::new(0, 0, 0, &[], &[], &[]).unwrap();
    assert_eq!(none.inst.get_num_cons(), 2);
    assert_eq!(none.inst.get_num_vars(), 1);
}

#[test]
fn instance_rejects_bad_entries() {
    let bad_row = vec![(1usize, 0usize, one())];
    let bad_col = vec![(0usize, 3usize, one())];
    let ok = vec![(0usize, 0usize, one())];
    assert_eq!(Instance::new(1, 1, 1, &bad_row, &ok, &ok).err(), Some(R1CSError::InvalidIndex));
    assert_eq!(Instance::new(1, 1, 1, &ok, &ok, &bad_col).err(), Some(R1CSError::InvalidIndex));
    assert!(Instance::new(1, 1, 1, &ok, &ok, &ok).is_ok());
}

#[test]
fn padding_keeps_satisfaction() {
    let inst = square_instance().unwrap();
    let vars = Assignment::new(&[Scalar::from_u64(3)]).unwrap();
    let good = Assignment::new(&[Scalar::from_u64(9)]).unwrap();
    let bad = Assignment::new(&[Scalar::from_u64(8)]).unwrap();
    assert_eq!(inst.is_sat(&vars, &good), Ok(true));
    assert_eq!(inst.is_sat(&vars, &bad), Ok(false));
    // the same witness given already padded
    let padded = Assignment::new(&[Scalar::from_u64(3), Scalar::from_u64(0)]).unwrap();
    assert_eq!(inst.is_sat(&padded, &good), Ok(true));
    // a negative square root works as well
    let minus_three = Assignment::new(&[sc(-Fr::from(3u64))]).unwrap();
    assert_eq!(inst.is_sat(&minus_three, &good), Ok(true));
}

#[test]
fn is_sat_rejects_wrong_lengths() {
    let inst = square_instance().unwrap();
    let too_long = Assignment::new(&[one(), one(), one()]).unwrap();
    let inputs = Assignment::new(&[one()]).unwrap();
    assert_eq!(inst.is_sat(&too_long, &inputs), Err(R1CSError::InvalidNumberOfInputs));
    let vars = Assignment::new(&[one()]).unwrap();
    let two_inputs = Assignment::new(&[one(), one()]).unwrap();
    assert_eq!(inst.is_sat(&vars, &two_inputs), Err(R1CSError::InvalidNumberOfInputs));
}

#[test]
fn next_power_of_two_values() {
    assert_eq!(next_power_of_two(0), 1);
    assert_eq!(next_power_of_two(1), 1);
    assert_eq!(next_power_of_two(5), 8);
    assert_eq!(next_power_of_two(8), 8);
    assert_eq!(next_power_of_two(1025), 2048);
}

#[test]
fn sparseness_counts() {
    let minus_one = sc(-Fr::from(1u64));
    let z = vec![Scalar::zero(), Scalar::one(), Scalar::from_u64(5), minus_one, Scalar::zero()];
    let r = analyze_vector_sparseness(&z);
    assert_eq!(r.total, 5);
    assert_eq!(r.zero_count, 2);
    assert_eq!(r.one_count, 1);
    assert_eq!(r.sum_bits, 0 + 1 + 3 + 255 + 0);
    assert_eq!(r.min_bits, 0);
    assert_eq!(r.max_bits, 255);
    assert_eq!(r.modulus_bit_length, MODULUS_BIT_SIZE);
    assert_eq!(r.max_bit_length_possible, 5 * 255);
    assert_eq!(Fr::MODULUS_BIT_SIZE, MODULUS_BIT_SIZE);
    let check = Fr::from_bigint(BigInt::new(minus_one.limbs())).unwrap();
    assert_eq!(check, -Fr::from(1u64));
}
