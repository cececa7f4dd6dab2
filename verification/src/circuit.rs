//! The values carried by the SpeedySpartan verifier gadgets, computed on
//! field elements: linear combinations of claims, challenges squeezed to a
//! number of bits, the sum-check verifier, the claims that close the Plonkish
//! and address sum-checks, the wire claim rebuilt from the witness claim
//! and the public inputs, and the commitments as coordinate pairs.
use crate::curve::G1Point;
use crate::field::{fadd, fmul, fpow, fsub, modulus, values, Scalar};
use crate::plonkish::PlonkishCommitments;
use crate::mle::{eq_eval, EqPolynomial};
use crate::sumcheck_utils::product;
use crate::sumchecks::{poly_values, AddrMSumcheckResult, PlonkishSumcheckResult};
use crate::transcript::{absorb, after_challenge, challenge_value, Transcript, NEXT_ROUND_LABEL, POLY_LABEL};
use crate::unipoly::{lagrange_eval, UniPoly};
use vstd::arithmetic::power2::pow2;
use vstd::prelude::*;

verus! {

/// `sum_i inputs[i] * coeff^i`.
pub open spec fn linear_combination(inputs: Seq<nat>, coeff: nat) -> nat
    decreases inputs.len(),
{
    if inputs.len() == 0 {
        0
    } else {
        fadd(
            linear_combination(inputs.drop_last(), coeff),
            fmul(fpow(coeff, (inputs.len() - 1) as nat), inputs.last()),
        )
    }
}

/// Combines `inputs` with the powers of `coefficient`:
/// `inputs[0] + coefficient * inputs[1] + coefficient^2 * inputs[2] + ...`.
pub fn scalar_linear_combination(coefficient: &Scalar, inputs: &[Scalar]) -> (r: Scalar)
    ensures
        r@ == linear_combination(values(inputs@), coefficient@),
{
    let ghost vs = values(inputs@);
    let mut result = Scalar::zero();
    let mut power = Scalar::one();
    assert(vs.take(0) =~= Seq::<nat>::empty());
    for i in 0..inputs.len()
        invariant
            vs == values(inputs@),
            result@ == linear_combination(vs.take(i as int), coefficient@),
            power@ == fpow(coefficient@, i as nat),
    {
        result = result.add(power.mul(inputs[i]));
        power = power.mul(*coefficient);
        assert(vs.take(i + 1).drop_last() =~= vs.take(i as int));
    }
    assert(vs.take(inputs.len() as int) =~= vs);
    result
}

/// `sum_{1 <= i < len} vs[i] * coeff^i`.
pub open spec fn rlc_tail(vs: Seq<nat>, coeff: nat) -> nat
    decreases vs.len(),
{
    if vs.len() <= 1 {
        0
    } else {
        fadd(rlc_tail(vs.drop_last(), coeff), fmul(vs.last(), fpow(coeff, (vs.len() - 1) as nat)))
    }
}

/// The random linear combination of evaluation claims held by the RLC gadget.
#[derive(Clone, Debug)]
pub struct ScalarRLCVar {
    pub rlc: Scalar,
}

impl ScalarRLCVar {
    /// `eval_claim_values[0] + sum_{i >= 1} eval_claim_values[i] * challenge^i`.
    pub fn new(eval_claim_values: Vec<Scalar>, challenge: Scalar) -> (s: ScalarRLCVar)
        requires
            eval_claim_values.len() >= 2,
        ensures
            s.rlc@ == fadd(eval_claim_values@[0]@, rlc_tail(values(eval_claim_values@), challenge@)),
    {
        let ghost vs = values(eval_claim_values@);
        let eval_claim_0 = eval_claim_values[0];
        let mut sum = eval_claim_values[1].mul(challenge.pow(1));
        proof {
            let t2 = vs.take(2);
            assert(t2.drop_last() =~= vs.take(1));
            assert(t2.last() == vs[1]);
            assert(rlc_tail(vs.take(1), challenge@) == 0);
            vstd::arithmetic::div_mod::lemma_mod_bound((vs[1] * fpow(challenge@, 1)) as int, modulus() as int);
            crate::field::lemma_fadd_zero(fmul(vs[1], fpow(challenge@, 1)));
        }
        for pow in 2..eval_claim_values.len()
            invariant
                vs == values(eval_claim_values@),
                eval_claim_values.len() >= 2,
                sum@ == rlc_tail(vs.take(pow as int), challenge@),
        {
            sum = sum.add(eval_claim_values[pow].mul(challenge.pow(pow as u64)));
            assert(vs.take(pow + 1).drop_last() =~= vs.take(pow as int));
        }
        assert(vs.take(eval_claim_values.len() as int) =~= vs);
        ScalarRLCVar { rlc: eval_claim_0.add(sum) }
    }
}

/// The RLC gadget and the linear-combination gadget agree: adding the first
/// claim to the tail of higher powers gives `sum_i vs[i] * coeff^i`.
pub proof fn lemma_rlc_is_linear_combination(vs: Seq<nat>, coeff: nat)
    requires
        vs.len() >= 1,
        vs[0] < modulus(),
    ensures
        fadd(vs[0], rlc_tail(vs, coeff)) == linear_combination(vs, coeff),
    decreases vs.len(),
{
    if vs.len() == 1 {
        crate::field::lemma_fadd_zero(vs[0]);
        assert(linear_combination(vs.drop_last(), coeff) == 0);
        assert(fpow(coeff, 0) == 1);
        assert(fmul(1, vs[0]) == vs[0]) by {
            vstd::arithmetic::div_mod::lemma_small_mod(vs[0], modulus());
        }
        crate::field::lemma_fadd_zero(fmul(1, vs[0]));
    } else {
        let init = vs.drop_last();
        lemma_rlc_is_linear_combination(init, coeff);
        let term = fmul(vs.last(), fpow(coeff, (vs.len() - 1) as nat));
        assert(init[0] == vs[0]);
        crate::field::lemma_fadd_assoc(vs[0], rlc_tail(init, coeff), term);
        assert(fmul(vs.last(), fpow(coeff, (vs.len() - 1) as nat)) == fmul(fpow(coeff, (vs.len() - 1) as nat), vs.last())) by {
            assert(vs.last() * fpow(coeff, (vs.len() - 1) as nat) == fpow(coeff, (vs.len() - 1) as nat) * vs.last()) by (nonlinear_arith);
        }
    }
}

/// `2^254` is below the field modulus.
proof fn lemma_pow2_254_small()
    ensures
        pow2(254) < modulus(),
{
    vstd::arithmetic::power2::lemma2_to64();
    vstd::arithmetic::power2::lemma_pow2_adds(64, 64);
    vstd::arithmetic::power2::lemma_pow2_adds(128, 64);
    vstd::arithmetic::power2::lemma_pow2_adds(192, 62);
    vstd::arithmetic::power2::lemma_pow2_adds(32, 30);
    let p64 = pow2(64);
    let p128 = pow2(128);
    let p192 = pow2(192);
    let p62 = pow2(62);
    let p254 = pow2(254);
    assert(p62 == 0x4000_0000_0000_0000nat) by (nonlinear_arith)
        requires
            p62 == pow2(32) * pow2(30),
            pow2(32) == 0x1_0000_0000nat,
            pow2(30) == 0x4000_0000nat,
    ;
    assert(p128 == 0x1_0000_0000_0000_0000_0000_0000_0000_0000nat) by (nonlinear_arith)
        requires
            p128 == p64 * p64,
            p64 == 0x1_0000_0000_0000_0000nat,
    ;
    assert(p192 == 0x1_0000_0000_0000_0000_0000_0000_0000_0000_0000_0000_0000_0000nat) by (nonlinear_arith)
        requires
            p192 == p128 * p64,
            p128 == 0x1_0000_0000_0000_0000_0000_0000_0000_0000nat,
            p64 == 0x1_0000_0000_0000_0000nat,
    ;
    assert(p254 == 0x4000000000000000000000000000000000000000000000000000000000000000nat) by (nonlinear_arith)
        requires
            p254 == p192 * p62,
            p192 == 0x1_0000_0000_0000_0000_0000_0000_0000_0000_0000_0000_0000_0000nat,
            p62 == 0x4000_0000_0000_0000nat,
    ;
}

/// Draws a challenge under `label` and keeps its `n_bits` low bits: the
/// value is the challenge reduced modulo `2^n_bits`.
pub fn squeeze_challenge(transcript: &mut Transcript, n_bits: usize, label: &[u8]) -> (r: Scalar)
    requires
        n_bits <= 255,
    ensures
        r@ == challenge_value(old(transcript)@, label@) % pow2(n_bits as nat),
        final(transcript)@ == after_challenge(old(transcript)@, label@),
{
    let initial_challenge = transcript.challenge_scalar(label);
    let initial_challenge_bits = initial_challenge.to_bits_le();
    let ghost c = initial_challenge@;
    proof {
        use_type_invariant(&initial_challenge);
        lemma_pow2_254_small();
        vstd::arithmetic::power2::lemma2_to64();
    }
    let mut acc = Scalar::zero();
    let mut coeff = Scalar::one();
    let zero = Scalar::zero();
    for i in 0..n_bits
        invariant
            n_bits <= 255,
            c == initial_challenge@,
            c < modulus(),
            pow2(254) < modulus(),
            zero@ == 0,
            initial_challenge_bits.len() == 256,
            forall|j: int| 0 <= j < 256 ==> #[trigger] initial_challenge_bits@[j] == ((c / pow2(j as nat)) % 2 == 1),
            acc@ == c % pow2(i as nat),
            coeff@ == pow2(i as nat) % modulus(),
    {
        let bit = initial_challenge_bits[i];
        let selected = if bit {
            coeff
        } else {
            zero
        };
        let ghost p = modulus() as int;
        let ghost pi = pow2(i as nat) as int;
        proof {
            vstd::arithmetic::power2::lemma_pow2_pos(i as nat);
            vstd::arithmetic::power2::lemma_pow2_unfold((i + 1) as nat);
            vstd::arithmetic::div_mod::lemma_mod_breakdown(c as int, pi, 2);
            if i < 254 {
                vstd::arithmetic::power2::lemma_pow2_strictly_increases(i as nat, 254);
            }
            vstd::arithmetic::div_mod::lemma_small_mod(pi as nat, p as nat);
            vstd::arithmetic::div_mod::lemma_mod_bound(c as int, pow2((i + 1) as nat) as int);
            vstd::arithmetic::div_mod::lemma_mod_bound(c as int, pi);
            vstd::arithmetic::div_mod::lemma_mod_bound(c as int / pi, 2);
            assert(c % pow2((i + 1) as nat) <= c) by {
                vstd::arithmetic::div_mod::lemma_mod_decreases(c, pow2((i + 1) as nat));
            }
            assert(selected@ == (if (c / pow2(i as nat)) % 2 == 1 { pi } else { 0 }));
            assert((c as int) % (pow2((i + 1) as nat) as int) == pi * (((c as int) / pi) % 2) + (c as int) % pi);
            vstd::arithmetic::div_mod::lemma_small_mod((c % pow2((i + 1) as nat)) as nat, p as nat);
            vstd::arithmetic::div_mod::lemma_add_mod_noop(pi, pi, p);
        }
        let ghost old_acc = acc@;
        let ghost old_coeff = coeff@;
        acc = acc.add(selected);
        coeff = coeff.add(coeff);
        proof {
            let m = (c as int) % (pow2((i + 1) as nat) as int);
            assert(pow2((i + 1) as nat) == pi * 2);
            let q = ((c as int) / pi) % 2;
            assert(q == (c / pow2(i as nat)) % 2);
            if q == 1 {
                assert(pi * q == pi) by (nonlinear_arith)
                    requires
                        q == 1,
                ;
            } else {
                assert(q == 0);
                assert(pi * q == 0) by (nonlinear_arith)
                    requires
                        q == 0,
                ;
            }
            assert(old_acc == (c as int) % pi);
            assert(m == selected@ + old_acc);
            assert(m < p);
            vstd::arithmetic::div_mod::lemma_small_mod(m as nat, p as nat);
            assert(acc@ == c % pow2((i + 1) as nat));
            assert(coeff@ == (old_coeff + old_coeff) % (p as nat));
            assert(coeff@ == pow2((i + 1) as nat) % modulus());
        }
    }
    acc
}

/// Runs `k` rounds of the sum-check verifier on the round polynomials
/// `polys` (values at `0..=d`) from the claim `e0` and the transcript state
/// `st`. Each round checks `p(0) + p(1) = e`, absorbs `p`, squeezes a
/// 128-bit challenge `r` and moves to `e = p(r)`. Gives the last claim, the
/// challenges, the transcript state and whether every check held.
pub open spec fn verify_run(polys: Seq<Seq<nat>>, e0: nat, st: Seq<u8>, k: nat) -> (nat, Seq<nat>, Seq<u8>, bool)
    decreases k,
{
    if k == 0 {
        (e0, Seq::empty(), st, true)
    } else {
        let prev = verify_run(polys, e0, st, (k - 1) as nat);
        let p = polys[k - 1];
        let ok = prev.3 && fadd(p[0], p[1]) == prev.0;
        let s1 = absorb(prev.2, POLY_LABEL@, p);
        let r = challenge_value(s1, NEXT_ROUND_LABEL@) % pow2(128);
        (lagrange_eval(p, r), prev.1.push(r), after_challenge(s1, NEXT_ROUND_LABEL@), ok)
    }
}

/// The running claim before round `i` of a verifier run on `polys` from the
/// claim `e0` with the challenges `rs`: `e0` for the first round, then the
/// previous round's polynomial at the previous challenge.
pub open spec fn running_claim(polys: Seq<Seq<nat>>, e0: nat, rs: Seq<nat>, i: int) -> nat {
    if i == 0 {
        e0
    } else {
        lagrange_eval(polys[i - 1], rs[i - 1])
    }
}

/// Soundness of the round checks: the verifier accepts exactly when every
/// round polynomial sums, at `0` and `1`, to its running claim; the last
/// claim is the last polynomial at the last challenge, and there is one
/// challenge per round, below `2^128`.
pub proof fn lemma_verify_run_checks_every_round(polys: Seq<Seq<nat>>, e0: nat, st: Seq<u8>, k: nat)
    ensures
        ({
            let run = verify_run(polys, e0, st, k);
            &&& run.1.len() == k
            &&& forall|i: int| 0 <= i < k ==> #[trigger] run.1[i] < pow2(128)
            &&& run.0 == running_claim(polys, e0, run.1, k as int)
            &&& run.3 == (forall|i: int|
                0 <= i < k ==> fadd(#[trigger] polys[i][0], polys[i][1]) == running_claim(polys, e0, run.1, i))
        }),
    decreases k,
{
    if k > 0 {
        let j = (k - 1) as nat;
        lemma_verify_run_checks_every_round(polys, e0, st, j);
        let prev = verify_run(polys, e0, st, j);
        let run = verify_run(polys, e0, st, k);
        let s1 = absorb(prev.2, POLY_LABEL@, polys[j as int]);
        let r = challenge_value(s1, NEXT_ROUND_LABEL@) % pow2(128);
        vstd::arithmetic::power2::lemma_pow2_pos(128);
        assert(r < pow2(128));
        assert(run.1 == prev.1.push(r));
        assert forall|i: int| 0 <= i < k implies running_claim(polys, e0, run.1, i) == running_claim(polys, e0, prev.1, i)
            || i == k by {
            if 0 < i < k {
                assert(run.1[i - 1] == prev.1[i - 1]);
            }
        }
        assert forall|i: int| 0 <= i < k implies #[trigger] run.1[i] < pow2(128) by {
            if i < j {
                assert(run.1[i] == prev.1[i]);
            }
        }
        assert(running_claim(polys, e0, run.1, j as int) == prev.0) by {
            if j > 0 {
                assert(run.1[j - 1] == prev.1[j - 1]);
            }
        }
        if run.3 {
            assert forall|i: int| 0 <= i < k implies fadd(#[trigger] polys[i][0], polys[i][1]) == running_claim(
                polys,
                e0,
                run.1,
                i,
            ) by {
                if i < j {
                    assert(fadd(polys[i][0], polys[i][1]) == running_claim(polys, e0, prev.1, i));
                    if i > 0 {
                        assert(run.1[i - 1] == prev.1[i - 1]);
                    }
                }
            }
        } else {
            if prev.3 {
                assert(fadd(polys[j as int][0], polys[j as int][1]) != running_claim(polys, e0, run.1, j as int));
            } else {
                let w = choose|i: int| 0 <= i < j && fadd(#[trigger] polys[i][0], polys[i][1]) != running_claim(polys, e0, prev.1, i);
                if w > 0 {
                    assert(run.1[w - 1] == prev.1[w - 1]);
                }
                assert(fadd(polys[w][0], polys[w][1]) != running_claim(polys, e0, run.1, w));
            }
        }
    }
}

/// The number of bits kept of each sum-check challenge.
pub const N_CHALLENGE_BITS: usize = 128;

/// A sum-check proof as the verifier gadget reads it: one round polynomial
/// per round, the claim, the number of rounds and the degree bound.
#[derive(Clone, Debug)]
pub struct SumcheckCircuitVar {
    pub compressed_polys: Vec<UniPoly>,
    pub claim: Scalar,
    pub num_rounds: usize,
    pub degree_bound: usize,
}

impl SumcheckCircuitVar {
    /// Verifies the rounds: returns the final claim, the challenges, and
    /// whether every round satisfied `p(0) + p(1) = e`.
    pub fn verify(&self, transcript: &mut Transcript) -> (r: (Scalar, Vec<Scalar>, bool))
        requires
            self.compressed_polys.len() == self.num_rounds,
            1 <= self.degree_bound < u64::MAX,
            forall|i: int| 0 <= i < self.compressed_polys.len() ==> (#[trigger] self.compressed_polys@[i]).evals.len()
                == self.degree_bound + 1,
        ensures
            ({
                let run = verify_run(poly_values(self.compressed_polys@), self.claim@, old(transcript)@, self.num_rounds as nat);
                &&& r.0@ == run.0
                &&& values(r.1@) == run.1
                &&& final(transcript)@ == run.2
                &&& r.2 == run.3
            }),
            r.1.len() == self.num_rounds,
            r.2 == (forall|i: int|
                0 <= i < self.num_rounds ==> fadd(#[trigger] poly_values(self.compressed_polys@)[i][0], poly_values(self.compressed_polys@)[i][1])
                    == running_claim(poly_values(self.compressed_polys@), self.claim@, values(r.1@), i)),
            r.0@ == running_claim(poly_values(self.compressed_polys@), self.claim@, values(r.1@), self.num_rounds as int),
    {
        let ghost ps = poly_values(self.compressed_polys@);
        proof {
            lemma_verify_run_checks_every_round(ps, self.claim@, transcript@, self.num_rounds as nat);
        }
        let ghost st = transcript@;
        let mut e = self.claim;
        let mut r: Vec<Scalar> = Vec::new();
        let mut ok = true;
        for i in 0..self.compressed_polys.len()
            invariant
                ps == poly_values(self.compressed_polys@),
                self.compressed_polys.len() == self.num_rounds,
                1 <= self.degree_bound < u64::MAX,
                forall|j: int| 0 <= j < self.compressed_polys.len() ==> (#[trigger] self.compressed_polys@[j]).evals.len()
                    == self.degree_bound + 1,
                ({
                    let run = verify_run(ps, self.claim@, st, i as nat);
                    &&& e@ == run.0
                    &&& values(r@) == run.1
                    &&& transcript@ == run.2
                    &&& ok == run.3
                }),
        {
            let poly = &self.compressed_polys[i];
            assert(ps[i as int] == values(poly.evals@));
            let _degree = poly.degree();
            let sum = poly.eval_at_zero().add(poly.eval_at_one());
            ok = ok && sum.equals(&e);
            poly.append_to_transcript(&POLY_LABEL, transcript);
            let r_i = squeeze_challenge(transcript, N_CHALLENGE_BITS, &NEXT_ROUND_LABEL);
            let ghost before = r@;
            r.push(r_i);
            assert(values(r@) =~= values(before).push(r_i@));
            e = poly.evaluate(&r_i);
        }
        (e, r, ok)
    }
}

/// The values of the Plonkish closing-claim gadget: the evaluations of the
/// selectors and wire columns, `eq` at the challenges, and the challenges.
#[derive(Clone, Debug)]
pub struct PlonkishClaim {
    pub v_a: Scalar,
    pub v_b: Scalar,
    pub v_zc: Scalar,
    pub v_o: Scalar,
    pub v_m: Scalar,
    pub v_l: Scalar,
    pub v_r: Scalar,
    pub v_c: Scalar,
    pub final_claim: Scalar,
    pub challenge_point_var: Vec<Scalar>,
}

impl PlonkishClaim {
    /// Takes the evaluations of a Plonkish sum-check outcome and evaluates
    /// `eq_poly` at its challenges.
    pub fn new(plonkish_sumcheck: &PlonkishSumcheckResult, eq_poly: EqPolynomial) -> (c: PlonkishClaim)
        requires
            eq_poly.r.len() == plonkish_sumcheck.challenge_points.len(),
        ensures
            c.v_a == plonkish_sumcheck.v_a,
            c.v_b == plonkish_sumcheck.v_b,
            c.v_zc == plonkish_sumcheck.v_zc,
            c.v_o == plonkish_sumcheck.v_o,
            c.v_m == plonkish_sumcheck.v_m,
            c.v_l == plonkish_sumcheck.v_l,
            c.v_r == plonkish_sumcheck.v_r,
            c.v_c == plonkish_sumcheck.v_c,
            c.final_claim@ == eq_eval(values(eq_poly.r@), values(plonkish_sumcheck.challenge_points@)),
            c.challenge_point_var@ == plonkish_sumcheck.challenge_points@,
    {
        let challenge_point_var = crate::nexus_spartan::copy_slice(plonkish_sumcheck.challenge_points.as_slice());
        let final_claim = eq_poly.evaluate(challenge_point_var.as_slice());
        PlonkishClaim {
            v_a: plonkish_sumcheck.v_a,
            v_b: plonkish_sumcheck.v_b,
            v_zc: plonkish_sumcheck.v_zc,
            v_o: plonkish_sumcheck.v_o,
            v_m: plonkish_sumcheck.v_m,
            v_l: plonkish_sumcheck.v_l,
            v_r: plonkish_sumcheck.v_r,
            v_c: plonkish_sumcheck.v_c,
            final_claim,
            challenge_point_var,
        }
    }

    /// The claims in the order `v_a, v_b, v_zc, v_o, v_m, v_l, v_r, v_c`.
    pub fn claim_as_vec(&self) -> (r: Vec<Scalar>)
        ensures
            r@ == seq![self.v_a, self.v_b, self.v_zc, self.v_o, self.v_m, self.v_l, self.v_r, self.v_c],
    {
        let r = vec![self.v_a, self.v_b, self.v_zc, self.v_o, self.v_m, self.v_l, self.v_r, self.v_c];
        assert(r@ =~= seq![self.v_a, self.v_b, self.v_zc, self.v_o, self.v_m, self.v_l, self.v_r, self.v_c]);
        r
    }

    /// `l a + r b + zc o + m a b + c` over the held values, `eq` left out.
    pub fn compute_final_claim_noeq(&self) -> (r: Scalar)
        ensures
            r@ == fadd(
                fadd(
                    fadd(fadd(fmul(self.v_l@, self.v_a@), fmul(self.v_r@, self.v_b@)), fmul(self.v_zc@, self.v_o@)),
                    fmul(fmul(self.v_m@, self.v_a@), self.v_b@),
                ),
                self.v_c@,
            ),
    {
        self.v_l.mul(self.v_a).add(self.v_r.mul(self.v_b)).add(self.v_zc.mul(self.v_o)).add(
            self.v_m.mul(self.v_a).mul(self.v_b),
        ).add(self.v_c)
    }
}

/// The product of the entries, multiplied from the first on.
fn product_of(evals: &Vec<Scalar>) -> (r: Scalar)
    requires
        evals.len() >= 1,
    ensures
        r@ == product(values(evals@)),
{
    let ghost vs = values(evals@);
    let mut acc = evals[0];
    proof {
        use_type_invariant(&acc);
        let t1 = vs.take(1);
        assert(t1.drop_last() =~= Seq::<nat>::empty());
        assert(t1.last() == vs[0]);
        assert(product(t1.drop_last()) == 1);
        vstd::arithmetic::div_mod::lemma_small_mod(vs[0], modulus());
        assert(product(t1) == fmul(1, vs[0]));
    }
    for i in 1..evals.len()
        invariant
            vs == values(evals@),
            evals.len() >= 1,
            acc@ == product(vs.take(i as int)),
    {
        acc = acc.mul(evals[i]);
        assert(vs.take(i + 1).drop_last() =~= vs.take(i as int));
    }
    assert(vs.take(evals.len() as int) =~= vs);
    acc
}

/// The values of the address closing-claim gadget.
#[derive(Clone, Debug)]
pub struct AddrClaim {
    pub addr_a_prod: Scalar,
    pub addr_b_prod: Scalar,
    pub addr_c_prod: Scalar,
    pub z_eval: Scalar,
    pub w_eval: Scalar,
    pub final_claim: Scalar,
}

impl AddrClaim {
    /// Multiplies out the address evaluations of each wire and forms the
    /// closing claim `eq(r) * (a + rho b + rho^2 c) * w`.
    pub fn new(addr_sumcheck: &AddrMSumcheckResult, challenge_rho: &Scalar, eq_polynomial: EqPolynomial) -> (c: AddrClaim)
        requires
            addr_sumcheck.addr_a_evals.len() >= 1,
            addr_sumcheck.addr_b_evals.len() >= 1,
            addr_sumcheck.addr_c_evals.len() >= 1,
            eq_polynomial.r.len() == addr_sumcheck.challenge_points.len(),
        ensures
            c.addr_a_prod@ == product(values(addr_sumcheck.addr_a_evals@)),
            c.addr_b_prod@ == product(values(addr_sumcheck.addr_b_evals@)),
            c.addr_c_prod@ == product(values(addr_sumcheck.addr_c_evals@)),
            c.z_eval == addr_sumcheck.z_eval,
            c.w_eval == addr_sumcheck.w_eval,
            c.final_claim@ == fmul(
                eq_eval(values(eq_polynomial.r@), values(addr_sumcheck.challenge_points@)),
                fmul(
                    fadd(
                        fadd(c.addr_a_prod@, fmul(c.addr_b_prod@, challenge_rho@)),
                        fmul(c.addr_c_prod@, fmul(challenge_rho@, challenge_rho@)),
                    ),
                    c.w_eval@,
                ),
            ),
    {
        let addr_a_prod = product_of(&addr_sumcheck.addr_a_evals);
        let addr_b_prod = product_of(&addr_sumcheck.addr_b_evals);
        let addr_c_prod = product_of(&addr_sumcheck.addr_c_evals);
        let z_eval = addr_sumcheck.z_eval;
        let w_eval = addr_sumcheck.w_eval;
        let challenge_point = crate::nexus_spartan::copy_slice(addr_sumcheck.challenge_points.as_slice());
        let eq_eval_v = eq_polynomial.evaluate(challenge_point.as_slice());
        let rho_sq = challenge_rho.mul(*challenge_rho);
        let final_claim_g = addr_a_prod.add(addr_b_prod.mul(*challenge_rho)).add(addr_c_prod.mul(rho_sq)).mul(w_eval);
        let final_claim = eq_eval_v.mul(final_claim_g);
        AddrClaim { addr_a_prod, addr_b_prod, addr_c_prod, z_eval, w_eval, final_claim }
    }
}

/// `prod_j (1 - s[j])`.
pub open spec fn one_minus_product(s: Seq<nat>) -> nat
    decreases s.len(),
{
    if s.len() == 0 {
        1
    } else {
        fmul(one_minus_product(s.drop_last()), fsub(1, s.last()))
    }
}

/// The claim for the multilinear extension of `z = w || x` at `r`, where
/// `r[0]` selects between the halves, `w_claim` is the witness claim at
/// `r[1..]`, and only the first four entries of `x` can be nonzero:
/// `(1 - r[0]) w_claim + r[0] sum_{i < 4} x[i] chi_i(r[1..])`.
pub open spec fn concat_claim(r: Seq<nat>, w: nat, x: Seq<nat>) -> nat {
    let t = r[0];
    let a = r[1];
    let b = r[2];
    let tail = one_minus_product(r.subrange(3, r.len() as int));
    let chi0 = fmul(fmul(fsub(1, a), fsub(1, b)), tail);
    let chi1 = fmul(fmul(a, fsub(1, b)), tail);
    let chi2 = fmul(fmul(fsub(1, a), b), tail);
    let chi3 = fmul(fmul(a, b), tail);
    let x_eval = fadd(fadd(fadd(fmul(x[0], chi0), fmul(x[1], chi1)), fmul(x[2], chi2)), fmul(x[3], chi3));
    fadd(fmul(fsub(1, t), w), fmul(t, x_eval))
}

/// Rebuilds the wire claim from the witness claim and the public inputs.
pub fn concat_mle_claim(r: &[Scalar], w_claim: &Scalar, x: &[Scalar]) -> (z: Scalar)
    requires
        r.len() >= 3,
        x.len() >= 4,
    ensures
        z@ == concat_claim(values(r@), w_claim@, values(x@)),
{
    let ghost rv = values(r@);
    let one = Scalar::one();
    let t = r[0];
    let a = r[1];
    let b = r[2];
    let mut tail = Scalar::one();
    proof {
        assert(rv.subrange(3, 3) =~= Seq::<nat>::empty());
    }
    for j in 3..r.len()
        invariant
            rv == values(r@),
            r.len() >= 3,
            one@ == 1,
            tail@ == one_minus_product(rv.subrange(3, j as int)),
    {
        tail = tail.mul(one.sub(r[j]));
        assert(rv.subrange(3, j + 1).drop_last() =~= rv.subrange(3, j as int));
    }
    let chi0 = one.sub(a).mul(one.sub(b)).mul(tail);
    let chi1 = a.mul(one.sub(b)).mul(tail);
    let chi2 = one.sub(a).mul(b).mul(tail);
    let chi3 = a.mul(b).mul(tail);
    let x_eval = x[0].mul(chi0).add(x[1].mul(chi1)).add(x[2].mul(chi2)).add(x[3].mul(chi3));
    one.sub(t).mul(*w_claim).add(t.mul(x_eval))
}

} // verus!

verus! {

/// The two base-field coordinates of a commitment, as the non-native
/// gadget holds them (little-endian limbs).
#[derive(Clone, Copy, Debug)]
pub struct ForeignPoint {
    pub x: [u64; 6],
    pub y: [u64; 6],
}

impl ForeignPoint {
    /// A point given by its coordinates, as public input.
    pub fn new_public(point_x: [u64; 6], point_y: [u64; 6]) -> (p: ForeignPoint)
        ensures
            p.x == point_x,
            p.y == point_y,
    {
        ForeignPoint { x: point_x, y: point_y }
    }

    /// A point given by its coordinates, as witness.
    pub fn new_witness(point_x: [u64; 6], point_y: [u64; 6]) -> (p: ForeignPoint)
        ensures
            p.x == point_x,
            p.y == point_y,
    {
        ForeignPoint { x: point_x, y: point_y }
    }
}

/// The commitments to a Plonkish shape as coordinate pairs.
#[derive(Clone, Debug)]
pub struct SSCCommitmentVar {
    pub q_l: ForeignPoint,
    pub q_r: ForeignPoint,
    pub q_o: ForeignPoint,
    pub q_m: ForeignPoint,
    pub q_c: ForeignPoint,
    pub addr_a: Vec<ForeignPoint>,
    pub addr_b: Vec<ForeignPoint>,
    pub addr_c: Vec<ForeignPoint>,
}

/// `f` holds the coordinates of the finite point `c`.
pub open spec fn holds_point(f: ForeignPoint, c: G1Point) -> bool {
    c@ == (f.x@, f.y@, false)
}

/// Every point of the list is finite.
pub open spec fn all_finite(cs: Seq<G1Point>) -> bool {
    forall|i: int| 0 <= i < cs.len() ==> !(#[trigger] cs[i])@.2
}

/// Each entry of `fs` holds the point beside it in `cs`.
pub open spec fn holds_points(fs: Seq<ForeignPoint>, cs: Seq<G1Point>) -> bool {
    &&& fs.len() == cs.len()
    &&& forall|i: int| 0 <= i < cs.len() ==> holds_point(#[trigger] fs[i], cs[i])
}

/// The coordinates of each point of a list.
fn points_to_foreign(cs: &Vec<G1Point>) -> (r: Vec<ForeignPoint>)
    requires
        all_finite(cs@),
    ensures
        holds_points(r@, cs@),
{
    let mut r: Vec<ForeignPoint> = Vec::new();
    for i in 0..cs.len()
        invariant
            all_finite(cs@),
            r.len() == i,
            forall|j: int| 0 <= j < i ==> holds_point(#[trigger] r@[j], cs@[j]),
    {
        r.push(SSCCommitmentVar::commitment_to_foreign(&cs[i]));
    }
    r
}

impl SSCCommitmentVar {
    /// The coordinates of a finite commitment.
    pub fn commitment_to_foreign(commitment: &G1Point) -> (f: ForeignPoint)
        requires
            !commitment@.2,
        ensures
            holds_point(f, *commitment),
    {
        let (x, y, _infinity) = commitment.coordinates();
        ForeignPoint::new_witness(x, y)
    }

    /// The coordinates of every commitment to a shape; all must be finite.
    pub fn new(plonkish_commitment: &PlonkishCommitments) -> (s: SSCCommitmentVar)
        requires
            !plonkish_commitment.q_l@.2,
            !plonkish_commitment.q_r@.2,
            !plonkish_commitment.q_o@.2,
            !plonkish_commitment.q_m@.2,
            !plonkish_commitment.q_c@.2,
            all_finite(plonkish_commitment.addr_a@),
            all_finite(plonkish_commitment.addr_b@),
            all_finite(plonkish_commitment.addr_c@),
        ensures
            holds_point(s.q_l, plonkish_commitment.q_l),
            holds_point(s.q_r, plonkish_commitment.q_r),
            holds_point(s.q_o, plonkish_commitment.q_o),
            holds_point(s.q_m, plonkish_commitment.q_m),
            holds_point(s.q_c, plonkish_commitment.q_c),
            holds_points(s.addr_a@, plonkish_commitment.addr_a@),
            holds_points(s.addr_b@, plonkish_commitment.addr_b@),
            holds_points(s.addr_c@, plonkish_commitment.addr_c@),
    {
        SSCCommitmentVar {
            q_l: Self::commitment_to_foreign(&plonkish_commitment.q_l),
            q_r: Self::commitment_to_foreign(&plonkish_commitment.q_r),
            q_o: Self::commitment_to_foreign(&plonkish_commitment.q_o),
            q_m: Self::commitment_to_foreign(&plonkish_commitment.q_m),
            q_c: Self::commitment_to_foreign(&plonkish_commitment.q_c),
            addr_a: points_to_foreign(&plonkish_commitment.addr_a),
            addr_b: points_to_foreign(&plonkish_commitment.addr_b),
            addr_c: points_to_foreign(&plonkish_commitment.addr_c),
        }
    }
}

} // verus!
