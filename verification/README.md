# speedyspartan

The proving side of SpeedySpartan folding over the BLS12-381 scalar field,
with its contracts proved by Verus.

- `src/` is the verified library. `field` and `curve` hold field elements and
  G1 points (arithmetic, multi-scalar multiplication and SHA3 come from
  `ark_ff`, `ark_ec` and `sha3` behind small trusted wrappers);
  `nexus_spartan` builds and checks padded R1CS instances; `mle`,
  `unipoly` and `sumcheck_utils` hold the polynomials and the round
  computation; `sumchecks` holds the Plonkish, address and rerandomization
  provers; `plonkish`, `folding`, `rerandomization` and `snark` build a proof
  fragment; `circuit` computes the values that the verifier gadgets carry;
  `coefficients`, `interpolation` and `completeness` prove that an honest
  sum-check run started from the true sum passes every round check, and
  `evaluation_sums` proves that the claim rerandomization starts from is
  that true sum.
- `tests/` runs the library against `ark_bls12_381` values.
- `app/` prints sparseness statistics and converts between `ark_bls12_381`
  scalars and the library's field elements.
