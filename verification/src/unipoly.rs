//! Univariate polynomials of degree `d` given by their values at the points
//! `0, 1, ..., d`, evaluated elsewhere by Lagrange interpolation.
use crate::field::{fadd, fmul, fsub, modulus, values, Scalar};
use crate::transcript::{absorb, Transcript};
use vstd::arithmetic::div_mod::{lemma_mod_twice, lemma_mul_mod_noop_left, lemma_mul_mod_noop_right, lemma_small_mod};
use vstd::arithmetic::mul::{lemma_mul_is_associative, lemma_mul_is_commutative};
use vstd::prelude::*;

verus! {

/// The multiplicative inverse of a field value.
pub open spec fn finv(a: nat) -> nat {
    choose|x: nat| x < modulus() && fmul(a, x) == 1
}

/// A field value has at most one inverse below the modulus.
proof fn lemma_inverse_unique(a: nat, x: nat, y: nat)
    requires
        x < modulus(),
        y < modulus(),
        fmul(a, x) == 1,
        fmul(a, y) == 1,
    ensures
        x == y,
{
    let p = modulus() as int;
    let (ai, xi, yi) = (a as int, x as int, y as int);
    // x * ((a * y) % p) % p == x
    lemma_small_mod(x, modulus());
    lemma_small_mod(y, modulus());
    lemma_mul_mod_noop_right(xi, ai * yi, p);
    lemma_mul_is_associative(xi, ai, yi);
    lemma_mul_mod_noop_left(xi * ai, yi, p);
    lemma_mul_is_commutative(xi, ai);
    assert(xi * ((ai * yi) % p) % p == xi);
    assert(((xi * ai) % p) * yi % p == yi);
}

/// The inverse the field computes is the inverse.
proof fn lemma_finv(a: nat, x: nat)
    requires
        x < modulus(),
        fmul(a, x) == 1,
    ensures
        finv(a) == x,
{
    let y = finv(a);
    assert(x < modulus() && fmul(a, x) == 1);
    assert(y < modulus() && fmul(a, y) == 1);
    lemma_inverse_unique(a, x, y);
}

/// The difference of two distinct small integers is a nonzero field value.
proof fn lemma_distinct_points(j: nat, k: nat)
    requires
        j != k,
        j < modulus(),
        k < modulus(),
    ensures
        fsub(j, k) != 0,
{
    lemma_small_mod(k, modulus());
    let s = j + (modulus() - k);
    assert(0 < s < 2 * modulus());
    if s < modulus() {
        lemma_small_mod(s as nat, modulus());
    } else {
        vstd::arithmetic::div_mod::lemma_mod_sub_multiples_vanish(s as int, modulus() as int);
        lemma_small_mod((s - modulus()) as nat, modulus());
    }
}

/// `prod_{k < n, k != j} (r - k) / (j - k)`.
pub open spec fn basis_upto(j: nat, r: nat, n: nat) -> nat
    decreases n,
{
    if n == 0 {
        1
    } else {
        let k = (n - 1) as nat;
        let prev = basis_upto(j, r, k);
        if k == j {
            prev
        } else {
            fmul(prev, fmul(fsub(r, k), finv(fsub(j, k))))
        }
    }
}

/// `sum_{j < m} e[j] * L_j(r)` for the Lagrange basis on `0, ..., e.len() - 1`.
pub open spec fn lagrange_sum(e: Seq<nat>, r: nat, m: nat) -> nat
    decreases m,
{
    if m == 0 {
        0
    } else {
        fadd(lagrange_sum(e, r, (m - 1) as nat), fmul(e[m - 1], basis_upto((m - 1) as nat, r, e.len())))
    }
}

/// The value at `r` of the polynomial of degree `e.len() - 1` whose values at
/// `0, 1, ..., e.len() - 1` are `e`.
pub open spec fn lagrange_eval(e: Seq<nat>, r: nat) -> nat {
    lagrange_sum(e, r, e.len())
}

/// A univariate polynomial given by its values at `0, 1, ..., d`.
#[derive(Clone, Debug)]
pub struct UniPoly {
    pub evals: Vec<Scalar>,
}

impl UniPoly {
    /// The polynomial whose values at `0, 1, ..., evals.len() - 1` are `evals`.
    pub fn from_evals(evals: &[Scalar]) -> (p: UniPoly)
        ensures
            p.evals@ == evals@,
    {
        UniPoly { evals: crate::nexus_spartan::copy_slice(evals) }
    }

    /// The degree bound, one less than the number of values.
    pub fn degree(&self) -> (d: usize)
        requires
            self.evals.len() >= 1,
        ensures
            d == self.evals.len() - 1,
    {
        self.evals.len() - 1
    }

    /// The value at zero.
    pub fn eval_at_zero(&self) -> (v: Scalar)
        requires
            self.evals.len() >= 1,
        ensures
            v == self.evals@[0],
    {
        self.evals[0]
    }

    /// The value at one.
    pub fn eval_at_one(&self) -> (v: Scalar)
        requires
            self.evals.len() >= 2,
        ensures
            v == self.evals@[1],
    {
        self.evals[1]
    }

    /// The value at `r`, by Lagrange interpolation through the stored values.
    pub fn evaluate(&self, r: &Scalar) -> (v: Scalar)
        requires
            self.evals.len() <= u64::MAX,
        ensures
            v@ == lagrange_eval(values(self.evals@), r@),
    {
        let n = self.evals.len();
        let ghost ev = values(self.evals@);
        let mut acc = Scalar::zero();
        for j in 0..n
            invariant
                n == self.evals.len(),
                n <= u64::MAX,
                ev == values(self.evals@),
                acc@ == lagrange_sum(ev, r@, j as nat),
        {
            let mut b = Scalar::one();
            let xj = Scalar::from_u64(j as u64);
            for k in 0..n
                invariant
                    n <= u64::MAX,
                    j < n,
                    xj@ == j,
                    b@ == basis_upto(j as nat, r@, k as nat),
            {
                if k != j {
                    let xk = Scalar::from_u64(k as u64);
                    let num = r.sub(xk);
                    let den = xj.sub(xk);
                    proof {
                        assert(j < modulus() && k < modulus());
                        lemma_distinct_points(j as nat, k as nat);
                    }
                    let inv = den.inverse();
                    proof {
                        use_type_invariant(&inv);
                        lemma_finv(den@, inv@);
                    }
                    b = b.mul(num.mul(inv));
                }
            }
            acc = acc.add(self.evals[j].mul(b));
        }
        acc
    }

    /// Absorbs `label` and the stored values into the transcript.
    pub fn append_to_transcript(&self, label: &[u8], transcript: &mut Transcript)
        ensures
            final(transcript)@ == absorb(old(transcript)@, label@, values(self.evals@)),
    {
        transcript.append_scalars(label, self.evals.as_slice());
    }
}

} // verus!

verus! {

/// The inverses of `1, ..., 5` in the field.
pub open spec fn small_inverse(a: nat) -> nat {
    if a == 1 {
        1
    } else if a == 2 {
        26217937587563095239723870254092982918845276250263818911301829349969290592257nat
    } else if a == 3 {
        34957250116750793652965160338790643891793701667018425215069105799959054123009nat
    } else if a == 4 {
        39326906381344642859585805381139474378267914375395728366952744024953935888385nat
    } else {
        31461525105075714287668644304911579502614331500316582693562195219963148710708nat
    }
}

/// `1, ..., 5` have the listed inverses.
proof fn lemma_small_inverse(a: nat)
    requires
        1 <= a <= 5,
    ensures
        small_inverse(a) < modulus(),
        fmul(a, small_inverse(a)) == 1,
{
    if a == 1 {
        lemma_small_mod(1, modulus());
    } else if a == 2 {
        assert((2 * 26217937587563095239723870254092982918845276250263818911301829349969290592257nat)
            % 52435875175126190479447740508185965837690552500527637822603658699938581184513nat == 1);
    } else if a == 3 {
        assert((3 * 34957250116750793652965160338790643891793701667018425215069105799959054123009nat)
            % 52435875175126190479447740508185965837690552500527637822603658699938581184513nat == 1);
    } else if a == 4 {
        assert((4 * 39326906381344642859585805381139474378267914375395728366952744024953935888385nat)
            % 52435875175126190479447740508185965837690552500527637822603658699938581184513nat == 1);
    } else {
        assert((5 * 31461525105075714287668644304911579502614331500316582693562195219963148710708nat)
            % 52435875175126190479447740508185965837690552500527637822603658699938581184513nat == 1);
    }
}

/// The difference of two distinct points among `0, ..., 5` has an inverse:
/// `fsub(j, k) * finv(fsub(j, k)) = 1`.
pub(crate) proof fn lemma_small_difference_invertible(j: nat, k: nat)
    requires
        j != k,
        j <= 5,
        k <= 5,
    ensures
        fmul(fsub(j, k), finv(fsub(j, k))) == 1,
{
    let p = modulus();
    let x = fsub(j, k);
    crate::field::lemma_ops_congruent(j, k);
    if j > k {
        let a = (j - k) as nat;
        crate::field::lemma_congruent_values(x, a);
        lemma_small_inverse(a);
        lemma_finv(x, small_inverse(a));
    } else {
        let a = (k - j) as nat;
        let ia = small_inverse(a);
        lemma_small_inverse(a);
        let y = (p - ia) as nat;
        // (p - a)(p - ia) is congruent to a * ia
        crate::field::lemma_congruent_values(x, (p - a) as nat);
        crate::field::lemma_ops_congruent(x, y);
        crate::field::lemma_ops_congruent(a, ia);
        crate::field::lemma_congruent_ops(x as int, y as int, -(a as int), -(ia as int));
        assert((-(a as int)) * (-(ia as int)) == (a as int) * (ia as int)) by (nonlinear_arith);
        assert(x as int * y as int == (x * y) as int);
        crate::field::lemma_congruent_values(fmul(x, y), fmul(a, ia));
        assert(y < p) by {
            assert(ia > 0) by {
                if ia == 0 {
                    assert(fmul(a, 0) == 0);
                }
            }
        }
        lemma_finv(x, y);
    }
}

/// The Lagrange basis polynomial `L_j` is zero at every other node and one
/// at its own node.
proof fn lemma_basis_at_node(j: nat, r: nat, n: nat)
    requires
        r < n,
        j < n,
        n <= 6,
    ensures
        basis_upto(j, r, n) == (if j == r {
            1nat
        } else {
            0nat
        }),
{
    lemma_basis_prefix(j, r, n);
}

/// Over the first `m` nodes, `L_j(j)` stays one, and `L_j(r)` for another
/// node `r` is zero once the factor `r - r` has entered.
proof fn lemma_basis_prefix(j: nat, r: nat, m: nat)
    requires
        m <= 6,
        j <= 5,
        r <= 5,
    ensures
        j == r ==> basis_upto(j, r, m) == 1,
        j != r && r < m ==> basis_upto(j, r, m) == 0,
    decreases m,
{
    if m > 0 {
        let k = (m - 1) as nat;
        lemma_basis_prefix(j, r, k);
        let prev = basis_upto(j, r, k);
        if k != j {
            let f = fmul(fsub(r, k), finv(fsub(j, k)));
            if j == r {
                lemma_small_difference_invertible(j, k);
                assert(prev == 1);
                assert(f == 1);
                lemma_small_mod(1, modulus());
                assert(fmul(1, 1) == 1);
            } else if k == r {
                assert(fsub(r, r) == 0) by {
                    crate::field::lemma_ops_congruent(r, r);
                    crate::field::lemma_congruent_values(fsub(r, r), 0);
                }
                let iv = finv(fsub(j, k));
                assert(0 * iv == 0);
                assert(fmul(0, iv) == 0);
                assert(f == 0);
                assert(fmul(prev, 0) == 0);
            } else if r < k {
                assert(prev == 0);
                assert(fmul(0, f) == 0);
            }
        }
    }
}

/// The interpolated polynomial takes its stored value at each node: for up
/// to six stored values (every degree the sum-checks use),
/// `lagrange_eval(e, j) = e[j]` at the nodes `j = 0, ..., e.len() - 1`.
pub proof fn lemma_lagrange_at_node(e: Seq<nat>, j: nat)
    requires
        e.len() <= 6,
        j < e.len(),
        forall|i: int| 0 <= i < e.len() ==> #[trigger] e[i] < modulus(),
    ensures
        lagrange_eval(e, j) == e[j as int],
{
    lemma_lagrange_prefix(e, j, e.len());
}

/// Over the first `m` values, the interpolation sum at a node `j` is `e[j]`
/// once `j` is among them and zero before.
proof fn lemma_lagrange_prefix(e: Seq<nat>, j: nat, m: nat)
    requires
        e.len() <= 6,
        j < e.len(),
        m <= e.len(),
        forall|i: int| 0 <= i < e.len() ==> #[trigger] e[i] < modulus(),
    ensures
        lagrange_sum(e, j, m) == (if j < m {
            e[j as int]
        } else {
            0nat
        }),
    decreases m,
{
    if m > 0 {
        let i = (m - 1) as nat;
        lemma_lagrange_prefix(e, j, i);
        lemma_basis_at_node(i, j, e.len());
        let prev = lagrange_sum(e, j, i);
        let ei = e[i as int];
        lemma_small_mod(ei, modulus());
        if i == j {
            assert(fmul(ei, 1) == ei);
            assert(prev == 0);
            crate::field::lemma_fadd_zero(ei);
        } else {
            assert(fmul(ei, 0) == 0);
            if j < i {
                crate::field::lemma_fadd_zero(e[j as int]);
            } else {
                assert(fadd(0, 0) == 0);
            }
        }
    }
}

} // verus!
