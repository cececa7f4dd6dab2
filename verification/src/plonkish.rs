//! Plonkish circuit shapes, witnesses and instances, and the one-hot
//! encoding of the wiring addresses.
use crate::curve::G1Point;
use crate::field::{values, Scalar};
use crate::mle::MultilinearPolynomial;
use crate::sumcheck_utils::tables;
use crate::nexus_spartan::{next_pow2, next_power_of_two};
use vstd::prelude::*;

verus! {

/// The number of base-`N` digits an address is split into.
pub const ADDR_DIM: usize = 3;

/// `n` to the power `e`.
pub open spec fn npow(n: nat, e: nat) -> nat
    decreases e,
{
    if e == 0 {
        1
    } else {
        n * npow(n, (e - 1) as nat)
    }
}

/// A positive base has positive powers.
pub proof fn lemma_npow_pos(n: nat, e: nat)
    requires
        n >= 1,
    ensures
        npow(n, e) >= 1,
    decreases e,
{
    if e > 0 {
        lemma_npow_pos(n, (e - 1) as nat);
        let a = npow(n, (e - 1) as nat);
        assert(n * a >= 1) by (nonlinear_arith)
            requires
                n >= 1,
                a >= 1,
        ;
    }
}

/// Powers of a positive base grow with the exponent.
pub proof fn lemma_npow_monotone_exp(n: nat, e1: nat, e2: nat)
    requires
        n >= 1,
        e1 <= e2,
    ensures
        npow(n, e1) <= npow(n, e2),
        npow(n, e1) >= 1,
    decreases e2,
{
    lemma_npow_pos(n, e1);
    if e2 > e1 {
        lemma_npow_monotone_exp(n, e1, (e2 - 1) as nat);
        let a = npow(n, (e2 - 1) as nat);
        assert(n * a >= a) by (nonlinear_arith)
            requires
                n >= 1,
                a >= 1,
        ;
    }
}

/// Doubling the base at least doubles a positive power, which is at least the base.
pub proof fn lemma_npow_double(n: nat, e: nat)
    requires
        e >= 1,
        n >= 1,
    ensures
        npow(2 * n, e) >= 2 * npow(n, e),
        npow(n, e) >= n,
    decreases e,
{
    if e > 1 {
        lemma_npow_double(n, (e - 1) as nat);
        let a = npow(n, (e - 1) as nat);
        let b = npow(2 * n, (e - 1) as nat);
        assert(npow(2 * n, e) == (2 * n) * b);
        assert(npow(n, e) == n * a);
        assert((2 * n) * b >= 2 * (n * a)) by (nonlinear_arith)
            requires
                b >= 2 * a,
                n >= 1,
                a >= 1,
        ;
        assert(n * a >= n) by (nonlinear_arith)
            requires
                a >= 1,
                n >= 1,
        ;
    } else {
        assert(npow(2 * n, 0) == 1);
        assert(npow(n, 0) == 1);
        assert(npow(2 * n, 1) == (2 * n) * npow(2 * n, 0));
        assert(npow(n, 1) == n * npow(n, 0));
    }
}

/// The least power of two `n >= start` with `n^d >= k`, searching upwards.
pub open spec fn addr_base_from(k: nat, d: nat, n: nat) -> nat
    decreases (if n < k { k - n } else { 0 }),
{
    if n == 0 || d == 0 || npow(n, d) >= k {
        n
    } else {
        proof {
            lemma_npow_double(n, d);
        }
        addr_base_from(k, d, 2 * n)
    }
}

/// The base `N` of the address digits: the least power of two with `N^d >= k`.
pub open spec fn addr_base(k: nat, d: nat) -> nat {
    addr_base_from(k, d, 1)
}

/// Digit `dim` of `idx` in base `n`.
pub open spec fn digit(idx: nat, n: nat, dim: nat) -> nat {
    (idx / npow(n, dim)) % n
}

/// The one-hot table of dimension `dim`: entry `p` is one when `p / n`
/// names a row and `p % n` is that row's address digit, zero otherwise.
pub open spec fn one_hot_table(indices: Seq<usize>, n: nat, rows_pow2: nat, dim: nat) -> Seq<nat> {
    Seq::new(
        rows_pow2 * n,
        |p: int|
            if p / (n as int) < indices.len() && p % (n as int) == digit(indices[p / (n as int)] as nat, n, dim) {
                1nat
            } else {
                0nat
            },
    )
}

/// The largest entry of a nonempty sequence.
pub open spec fn seq_max(s: Seq<usize>) -> nat
    decreases s.len(),
{
    if s.len() <= 1 {
        s[0] as nat
    } else {
        let m = seq_max(s.drop_last());
        if s.last() > m {
            s.last() as nat
        } else {
            m
        }
    }
}

/// `n` to the power `e`, computed by repeated multiplication.
fn power(n: usize, e: usize) -> (r: usize)
    requires
        n >= 1,
        npow(n as nat, e as nat) <= usize::MAX,
    ensures
        r == npow(n as nat, e as nat),
{
    let mut r: usize = 1;
    for i in 0..e
        invariant
            n >= 1,
            i <= e,
            npow(n as nat, e as nat) <= usize::MAX,
            r == npow(n as nat, i as nat),
    {
        proof {
            lemma_npow_monotone_exp(n as nat, (i + 1) as nat, e as nat);
            assert(npow(n as nat, (i + 1) as nat) == n * npow(n as nat, i as nat));
            assert(r * n == n * r) by (nonlinear_arith);
        }
        r = r * n;
    }
    r
}

} // verus!

verus! {

proof fn lemma_npow_monotone_base(n: nat, m: nat, e: nat)
    requires
        1 <= n <= m,
    ensures
        npow(n, e) <= npow(m, e),
    decreases e,
{
    if e > 0 {
        lemma_npow_monotone_base(n, m, (e - 1) as nat);
        lemma_npow_pos(n, (e - 1) as nat);
        let a = npow(n, (e - 1) as nat);
        let b = npow(m, (e - 1) as nat);
        assert(n * a <= m * b) by (nonlinear_arith)
            requires
                1 <= n <= m,
                1 <= a <= b,
        ;
    }
}

proof fn lemma_addr_base_from(k: nat, d: nat, n: nat)
    requires
        n >= 1,
        d >= 1,
    ensures
        addr_base_from(k, d, n) >= n,
        npow(n, d) < k ==> addr_base_from(k, d, n) >= 2 * n,
        npow(addr_base_from(k, d, n), d) >= k,
        (exists|e: nat| vstd::arithmetic::power2::pow2(e) == n) ==> exists|e: nat| vstd::arithmetic::power2::pow2(e) == addr_base_from(k, d, n),
    decreases (if n < k { k - n } else { 0 }),
{
    if npow(n, d) < k {
        lemma_npow_double(n, d);
        lemma_addr_base_from(k, d, 2 * n);
        if exists|e: nat| vstd::arithmetic::power2::pow2(e) == n {
            let e = choose|e: nat| vstd::arithmetic::power2::pow2(e) == n;
            vstd::arithmetic::power2::lemma_pow2_unfold(e + 1);
            assert(vstd::arithmetic::power2::pow2(e + 1) == 2 * n);
        }
    }
}

/// The `addr_dim` multilinear polynomials of the `addr_dim`-dimensional one-hot
/// encoding of `indices`: each address is split into `addr_dim` base-`N` digits,
/// `N` the least power of two with `N^addr_dim` above every address, and
/// dimension `i` is the table of length `next_pow2(indices.len()) * N` that is one
/// at `row * N + digit_i` and zero elsewhere.
pub fn one_hot_addr_mles(indices: &[usize], addr_dim: usize) -> (r: Vec<MultilinearPolynomial>)
    requires
        addr_dim > 0,
        indices.len() > 0,
        indices.len() <= usize::MAX / 2 + 1,
        seq_max(indices@) < usize::MAX,
        npow(addr_base((seq_max(indices@) + 1) as nat, addr_dim as nat), addr_dim as nat) <= usize::MAX,
        next_pow2(indices.len() as nat) * addr_base((seq_max(indices@) + 1) as nat, addr_dim as nat) <= usize::MAX,
    ensures
        r.len() == addr_dim,
        forall|dim: int| 0 <= dim < addr_dim ==> (#[trigger] r[dim]).table() == one_hot_table(
            indices@,
            addr_base((seq_max(indices@) + 1) as nat, addr_dim as nat),
            next_pow2(indices.len() as nat),
            dim as nat,
        ),
{
    let ghost kk = (seq_max(indices@) + 1) as nat;
    let ghost base = addr_base(kk, addr_dim as nat);
    // the largest address, plus one
    let mut mx: usize = indices[0];
    for i in 1..indices.len()
        invariant
            indices.len() > 0,
            mx == seq_max(indices@.take(i as int)),
    {
        assert(indices@.take(i + 1).drop_last() =~= indices@.take(i as int));
        if indices[i] > mx {
            mx = indices[i];
        }
    }
    assert(indices@.take(indices.len() as int) =~= indices@);
    let k = mx + 1;
    // a power-of-two base n with n^addr_dim >= k
    let mut n: usize = 1;
    proof {
        vstd::arithmetic::power2::lemma2_to64();
        lemma_addr_base_from(kk, addr_dim as nat, 1);
    }
    while power(n, addr_dim) < k
        invariant
            k == kk,
            base == addr_base(kk, addr_dim as nat),
            addr_dim >= 1,
            1 <= n <= base,
            addr_base_from(kk, addr_dim as nat, n as nat) == base,
            npow(base, addr_dim as nat) <= usize::MAX,
            exists|e: nat| vstd::arithmetic::power2::pow2(e) == n,
        decreases base - n,
    {
        proof {
            lemma_npow_monotone_base(n as nat, base, addr_dim as nat);
            lemma_addr_base_from(kk, addr_dim as nat, n as nat);
            lemma_npow_double(base, addr_dim as nat);
            lemma_npow_monotone_exp(base, 1, addr_dim as nat);
            assert(npow(base, 1) == base * npow(base, 0));
        }
        let ghost e = choose|e: nat| vstd::arithmetic::power2::pow2(e) == n;
        proof {
            vstd::arithmetic::power2::lemma_pow2_unfold(e + 1);
        }
        n = n * 2;
        assert(vstd::arithmetic::power2::pow2(e + 1) == n);
    }
    proof {
        lemma_npow_monotone_base(n as nat, base, addr_dim as nat);
    }
    assert(n == base);
    let rows_pow2 = next_power_of_two(indices.len());
    let vec_len = rows_pow2 * n;
    let mut per_dim: Vec<MultilinearPolynomial> = Vec::new();
    for dim in 0..addr_dim
        invariant
            n == base,
            n >= 1,
            rows_pow2 == next_pow2(indices.len() as nat),
            rows_pow2 >= indices.len(),
            vec_len == rows_pow2 * n,
            npow(base, addr_dim as nat) <= usize::MAX,
            per_dim.len() == dim,
            forall|dd: int| 0 <= dd < dim ==> (#[trigger] per_dim[dd]).table() == one_hot_table(
                indices@,
                base,
                rows_pow2 as nat,
                dd as nat,
            ),
    {
        proof {
            lemma_npow_monotone_exp(n as nat, dim as nat, addr_dim as nat);
        }
        let divisor = power(n, dim);
        let mut v = crate::nexus_spartan::zeros(vec_len);
        for row in 0..indices.len()
            invariant
                n == base,
                n >= 1,
                divisor == npow(n as nat, dim as nat),
                divisor >= 1,
                rows_pow2 >= indices.len(),
                vec_len == rows_pow2 * n,
                v.len() == vec_len,
                forall|p: int| 0 <= p < vec_len ==> (#[trigger] v[p])@ == (if p / (n as int) < row && p % (n as int)
                    == digit(indices@[p / (n as int)] as nat, n as nat, dim as nat) {
                    1nat
                } else {
                    0nat
                }),
        {
            let dg = (indices[row] / divisor) % n;
            proof {
                assert(row * n + dg < rows_pow2 * n) by (nonlinear_arith)
                    requires
                        dg < n,
                        row < rows_pow2,
                ;
                assert(row * n <= rows_pow2 * n) by (nonlinear_arith)
                    requires
                        row < rows_pow2,
                ;
            }
            let pos = row * n + dg;
            proof {
                vstd::arithmetic::div_mod::lemma_fundamental_div_mod_converse(pos as int, n as int, row as int, dg as int);
            }
            v.set(pos, Scalar::one());
            proof {
                assert forall|p: int| 0 <= p < vec_len implies (#[trigger] v[p])@ == (if p / (n as int) < row + 1
                    && p % (n as int) == digit(indices@[p / (n as int)] as nat, n as nat, dim as nat) {
                    1nat
                } else {
                    0nat
                }) by {
                    if p != pos && p / (n as int) == row {
                        vstd::arithmetic::div_mod::lemma_fundamental_div_mod(p, n as int);
                        vstd::arithmetic::div_mod::lemma_fundamental_div_mod(pos as int, n as int);
                    }
                }
            }
        }
        let poly = MultilinearPolynomial::new(v);
        assert(poly.table() =~= one_hot_table(indices@, base, rows_pow2 as nat, dim as nat));
        per_dim.push(poly);
    }
    per_dim
}

} // verus!

verus! {

/// The wire vector `z = w || x` and its gathered copies for the A, B and C wires.
#[derive(Clone, Debug)]
pub struct PlonkishZs {
    pub z: Vec<Scalar>,
    pub z_a: Vec<Scalar>,
    pub z_b: Vec<Scalar>,
    pub z_c: Vec<Scalar>,
}

/// A Plonkish circuit: selector polynomials, wiring and the one-hot
/// encodings of the wiring.
#[derive(Clone, Debug)]
pub struct PlonkishShape {
    pub q_l: MultilinearPolynomial,
    pub q_r: MultilinearPolynomial,
    pub q_m: MultilinearPolynomial,
    pub q_o: MultilinearPolynomial,
    pub q_c: MultilinearPolynomial,
    pub a: Vec<usize>,
    pub b: Vec<usize>,
    pub c: Vec<usize>,
    pub addr_a: Vec<MultilinearPolynomial>,
    pub addr_b: Vec<MultilinearPolynomial>,
    pub addr_c: Vec<MultilinearPolynomial>,
}

/// The witness of a Plonkish circuit and its multilinear polynomial.
#[derive(Clone, Debug)]
pub struct PlonkishWitness {
    pub witness_data: Vec<Scalar>,
    pub witness_polynomial: MultilinearPolynomial,
}

/// Commitments to the selector polynomials and to the address encodings.
#[derive(Clone, Debug)]
pub struct PlonkishCommitments {
    pub q_l: G1Point,
    pub q_r: G1Point,
    pub q_m: G1Point,
    pub q_o: G1Point,
    pub q_c: G1Point,
    pub addr_a: Vec<G1Point>,
    pub addr_b: Vec<G1Point>,
    pub addr_c: Vec<G1Point>,
}

/// The public inputs of a Plonkish circuit with the commitments to its shape.
#[derive(Clone, Debug)]
pub struct PlonkishInstance {
    pub instance: Vec<Scalar>,
    pub commitments: PlonkishCommitments,
}

/// The wiring `idx` can be one-hot encoded in `ADDR_DIM` machine-word digits.
pub open spec fn encodable(idx: Seq<usize>) -> bool {
    &&& idx.len() > 0
    &&& idx.len() <= usize::MAX / 2 + 1
    &&& seq_max(idx) < usize::MAX
    &&& npow(addr_base((seq_max(idx) + 1) as nat, ADDR_DIM as nat), ADDR_DIM as nat) <= usize::MAX
    &&& next_pow2(idx.len() as nat) * addr_base((seq_max(idx) + 1) as nat, ADDR_DIM as nat) <= usize::MAX
}

/// The `ADDR_DIM` one-hot tables of the wiring `idx`.
pub open spec fn addr_tables_of(idx: Seq<usize>) -> Seq<Seq<nat>> {
    Seq::new(
        ADDR_DIM as nat,
        |dim: int| one_hot_table(idx, addr_base((seq_max(idx) + 1) as nat, ADDR_DIM as nat), next_pow2(idx.len() as nat), dim as nat),
    )
}

/// Entry `i` of `z` for each index of `idx`.
pub open spec fn gather(z: Seq<Scalar>, idx: Seq<usize>) -> Seq<Scalar> {
    idx.map_values(|i: usize| z[i as int])
}

/// The entries of `z` at the given indices.
fn gather_exec(z: &Vec<Scalar>, idx: &Vec<usize>) -> (r: Vec<Scalar>)
    requires
        forall|i: int| 0 <= i < idx.len() ==> (#[trigger] idx[i]) < z.len(),
    ensures
        r@ == gather(z@, idx@),
{
    let mut r: Vec<Scalar> = Vec::new();
    for i in 0..idx.len()
        invariant
            forall|i: int| 0 <= i < idx.len() ==> (#[trigger] idx[i]) < z.len(),
            r@ == gather(z@, idx@).take(i as int),
    {
        r.push(z[idx[i]]);
        assert(r@ =~= gather(z@, idx@).take(i + 1));
    }
    assert(gather(z@, idx@).take(idx.len() as int) =~= gather(z@, idx@));
    r
}

impl PlonkishShape {
    /// The shape with the given selectors and wiring, and the one-hot
    /// encodings of the wiring in `ADDR_DIM` dimensions.
    pub fn new(
        q_l: MultilinearPolynomial,
        q_r: MultilinearPolynomial,
        q_m: MultilinearPolynomial,
        q_o: MultilinearPolynomial,
        q_c: MultilinearPolynomial,
        a: Vec<usize>,
        b: Vec<usize>,
        c: Vec<usize>,
    ) -> (s: PlonkishShape)
        requires
            encodable(a@),
            encodable(b@),
            encodable(c@),
        ensures
            s.q_l == q_l && s.q_r == q_r && s.q_m == q_m && s.q_o == q_o && s.q_c == q_c,
            s.a@ == a@ && s.b@ == b@ && s.c@ == c@,
            tables(s.addr_a@) == addr_tables_of(a@),
            tables(s.addr_b@) == addr_tables_of(b@),
            tables(s.addr_c@) == addr_tables_of(c@),
    {
        let addr_a = one_hot_addr_mles(a.as_slice(), ADDR_DIM);
        let addr_b = one_hot_addr_mles(b.as_slice(), ADDR_DIM);
        let addr_c = one_hot_addr_mles(c.as_slice(), ADDR_DIM);
        assert(tables(addr_a@) =~= addr_tables_of(a@));
        assert(tables(addr_b@) =~= addr_tables_of(b@));
        assert(tables(addr_c@) =~= addr_tables_of(c@));
        PlonkishShape { q_l, q_r, q_m, q_o, q_c, a, b, c, addr_a, addr_b, addr_c }
    }

    /// The wire vector `z = witness || instance` and its entries at the
    /// A, B and C wires.
    pub fn z(&self, witness: &PlonkishWitness, instance: &PlonkishInstance) -> (r: PlonkishZs)
        requires
            forall|i: int| 0 <= i < self.a.len() ==> (#[trigger] self.a[i]) < witness.witness_data.len() + instance.instance.len(),
            forall|i: int| 0 <= i < self.b.len() ==> (#[trigger] self.b[i]) < witness.witness_data.len() + instance.instance.len(),
            forall|i: int| 0 <= i < self.c.len() ==> (#[trigger] self.c[i]) < witness.witness_data.len() + instance.instance.len(),
        ensures
            r.z@ == witness.witness_data@ + instance.instance@,
            r.z_a@ == gather(r.z@, self.a@),
            r.z_b@ == gather(r.z@, self.b@),
            r.z_c@ == gather(r.z@, self.c@),
    {
        let mut z_vec = crate::nexus_spartan::copy_slice(witness.witness_data.as_slice());
        let inst = crate::nexus_spartan::copy_slice(instance.instance.as_slice());
        let mut i: usize = 0;
        let ghost start = z_vec@;
        while i < inst.len()
            invariant
                i <= inst.len(),
                z_vec@ == start + inst@.take(i as int),
            decreases inst.len() - i,
        {
            z_vec.push(inst[i]);
            assert(z_vec@ =~= start + inst@.take(i + 1));
            i = i + 1;
        }
        assert(inst@.take(inst.len() as int) =~= inst@);
        let z_a = gather_exec(&z_vec, &self.a);
        let z_b = gather_exec(&z_vec, &self.b);
        let z_c = gather_exec(&z_vec, &self.c);
        PlonkishZs { z: z_vec, z_a, z_b, z_c }
    }
}

} // verus!

verus! {

/// `sum_{k < d} digit(idx, n, k) * n^k`: the first `d` digits read back.
pub open spec fn digits_value(idx: nat, n: nat, d: nat) -> nat
    decreases d,
{
    if d == 0 {
        0
    } else {
        digits_value(idx, n, (d - 1) as nat) + digit(idx, n, (d - 1) as nat) * npow(n, (d - 1) as nat)
    }
}

/// The first `d` base-`n` digits of `idx` read back give `idx mod n^d`.
pub proof fn lemma_digits_value(idx: nat, n: nat, d: nat)
    requires
        n >= 1,
    ensures
        digits_value(idx, n, d) == idx % npow(n, d),
    decreases d,
{
    if d == 0 {
        assert(npow(n, 0) == 1);
        assert(idx % 1 == 0);
    } else {
        let m = (d - 1) as nat;
        lemma_digits_value(idx, n, m);
        let a = npow(n, m);
        lemma_npow_pos(n, m);
        vstd::arithmetic::div_mod::lemma_mod_breakdown(idx as int, a as int, n as int);
        assert(npow(n, d) == n * a);
        assert(n * a == a * n) by (nonlinear_arith);
        assert(digit(idx, n, m) * a == a * ((idx / a) % n)) by (nonlinear_arith)
            requires
                digit(idx, n, m) == (idx / a) % n,
        ;
    }
}

/// The largest entry bounds every entry.
proof fn lemma_seq_max_bounds(s: Seq<usize>, i: int)
    requires
        0 <= i < s.len(),
    ensures
        s[i] <= seq_max(s),
    decreases s.len(),
{
    if s.len() > 1 && i < s.len() - 1 {
        lemma_seq_max_bounds(s.drop_last(), i);
    }
}

/// The one-hot encoding of the wiring loses nothing: in row `i`, the table
/// of each dimension holds a one at exactly one digit position, the address
/// digit of that dimension, and those digits read back in base `N` give the
/// address of row `i`.
pub proof fn lemma_one_hot_encodes_address(indices: Seq<usize>, i: int)
    requires
        encodable(indices),
        0 <= i < indices.len(),
    ensures
        ({
            let n = addr_base((seq_max(indices) + 1) as nat, ADDR_DIM as nat);
            let ts = addr_tables_of(indices);
            &&& forall|k: int, d: int|
                0 <= k < ADDR_DIM && 0 <= d < n ==> (#[trigger] ts[k][i * n + d] == 1 <==> d == digit(
                    indices[i] as nat,
                    n,
                    k as nat,
                ))
            &&& digits_value(indices[i] as nat, n, ADDR_DIM as nat) == indices[i]
        }),
{
    let kk = (seq_max(indices) + 1) as nat;
    let n = addr_base(kk, ADDR_DIM as nat);
    let rows = next_pow2(indices.len() as nat);
    lemma_addr_base_from(kk, ADDR_DIM as nat, 1);
    assert(n >= 1);
    crate::nexus_spartan::lemma_next_pow2_is_pow2(indices.len() as nat);
    assert forall|k: int, d: int| 0 <= k < ADDR_DIM && 0 <= d < n implies (#[trigger] addr_tables_of(indices)[k][i
        * n + d] == 1 <==> d == digit(indices[i] as nat, n, k as nat)) by {
        let p = i * n + d;
        vstd::arithmetic::div_mod::lemma_fundamental_div_mod_converse(p, n as int, i, d);
        assert(p < rows * n) by (nonlinear_arith)
            requires
                p == i * n + d,
                0 <= d < n,
                0 <= i < rows,
        ;
        assert(p >= 0) by (nonlinear_arith)
            requires
                p == i * n + d,
                0 <= d,
                0 <= i,
                n >= 1,
        ;
    }
    lemma_seq_max_bounds(indices, i);
    lemma_digits_value(indices[i] as nat, n, ADDR_DIM as nat);
    vstd::arithmetic::div_mod::lemma_small_mod(indices[i] as nat, npow(n, ADDR_DIM as nat));
}

} // verus!
