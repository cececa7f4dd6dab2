use ark_bls12_381::Fr;
use ark_ff::{BigInt, BigInteger, PrimeField};
use sha3::{Digest, Sha3_256};
use speedyspartan::field::Scalar;
use speedyspartan::transcript::{Transcript, PROTOCOL_LABEL};

fn fr(s: &Scalar) -> Fr {
    Fr::from_bigint(BigInt::new(s.limbs())).unwrap()
}

#[test]
fn challenge_hashes_state_and_label() {
    let mut t = Transcript::new(b"start");
    let c = t.challenge_scalar(b"label");
    let digest = Sha3_256::digest(b"startlabel");
    assert_eq!(fr(&c), Fr::from_le_bytes_mod_order(&digest));
    // the next challenge hashes the state extended by the label and the digest
    let c2 = t.challenge_scalar(b"again");
    let mut state = b"startlabel".to_vec();
    state.extend_from_slice(&digest);
    state.extend_from_slice(b"again");
    assert_eq!(fr(&c2), Fr::from_le_bytes_mod_order(&Sha3_256::digest(&state)));
}

#[test]
fn appended_scalars_change_the_challenge() {
    let mut t = Transcript::new(&PROTOCOL_LABEL);
    t.append_scalar(b"x", &Scalar::from_u64(5));
    let c = t.challenge_scalar(b"c");
    let mut state = b"speedyspartanx".to_vec();
    state.extend_from_slice(&Fr::from(5u64).into_bigint().to_bytes_le());
    state.extend_from_slice(b"c");
    assert_eq!(fr(&c), Fr::from_le_bytes_mod_order(&Sha3_256::digest(&state)));
    let mut u = Transcript::new(&PROTOCOL_LABEL);
    u.append_scalars(b"x", &[Scalar::from_u64(5)]);
    assert!(u.challenge_scalar(b"c").equals(&c));
    let mut v = Transcript::new(&PROTOCOL_LABEL);
    v.append_scalars(b"x", &[Scalar::from_u64(6)]);
    assert!(!v.challenge_scalar(b"c").equals(&c));
}

#[test]
fn field_conversions_round_trip() {
    let x = Fr::from(123456789u64) * Fr::from(987654321u64);
    let s = Scalar::from_limbs(x.into_bigint().0).unwrap();
    assert_eq!(fr(&s), x);
    assert_eq!(s.to_bytes_le(), x.into_bigint().to_bytes_le());
    assert_eq!(s.num_bits(), x.into_bigint().num_bits());
    let bits = s.to_bits_le();
    assert_eq!(bits, x.into_bigint().to_bits_le());
    assert!(Scalar::from_limbs([u64::MAX; 4]).is_none());
    let a = Scalar::from_u64(7);
    let b = Scalar::from_u64(5);
    assert_eq!(a.add(b).limbs(), [12, 0, 0, 0]);
    assert_eq!(a.sub(b).limbs(), [2, 0, 0, 0]);
    assert_eq!(fr(&b.sub(a)), -Fr::from(2u64));
    assert_eq!(a.mul(b).limbs(), [35, 0, 0, 0]);
    assert_eq!(b.pow(3).limbs(), [125, 0, 0, 0]);
    assert!(a.mul(a.inverse()).is_one());
    assert_eq!(Scalar::from_le_bytes_mod_order(&[1, 2]).limbs(), [513, 0, 0, 0]);
}
