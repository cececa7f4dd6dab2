//! Multilinear polynomials given by their evaluations over the Boolean
//! hypercube, and the equality polynomial `eq(r, x)`.
use crate::field::{fadd, fmul, fsub, values, Scalar};
use crate::nexus_spartan::{copy_slice, next_pow2, next_power_of_two};
use vstd::arithmetic::power2::pow2;
use vstd::prelude::*;

verus! {

/// Fixes the most significant variable of the table `s` to `r`: entry `i` of
/// the result is `s[i] + r * (s[i + n] - s[i])` where `n` is half the length.
pub open spec fn bind_top(s: Seq<nat>, r: nat) -> Seq<nat> {
    let n = s.len() / 2;
    Seq::new(n, |i: int| fadd(s[i], fmul(r, fsub(s[i + n], s[i]))))
}

/// Fixes the variables of `s`, most significant first, to the coordinates of `rs`.
pub open spec fn bind_all(s: Seq<nat>, rs: Seq<nat>) -> Seq<nat>
    decreases rs.len(),
{
    if rs.len() == 0 {
        s
    } else {
        bind_all(bind_top(s, rs[0]), rs.drop_first())
    }
}

/// The table of `eq(r, x)` over `x` in the hypercube, with `r[0]` naming
/// the most significant bit of the index.
pub open spec fn eq_table(r: Seq<nat>) -> Seq<nat>
    decreases r.len(),
{
    if r.len() == 0 {
        seq![1nat]
    } else {
        let t = eq_table(r.drop_last());
        let rl = r.last();
        Seq::new(
            2 * t.len(),
            |x: int|
                if x % 2 == 1 {
                    fmul(t[x / 2], rl)
                } else {
                    fsub(t[x / 2], fmul(t[x / 2], rl))
                },
        )
    }
}

/// The equality table of a point of dimension `n` has `2^n` entries.
pub(crate) proof fn lemma_eq_table_len(r: Seq<nat>)
    ensures
        eq_table(r).len() == pow2(r.len()),
    decreases r.len(),
{
    if r.len() > 0 {
        lemma_eq_table_len(r.drop_last());
        vstd::arithmetic::power2::lemma_pow2_unfold(r.len());
    } else {
        vstd::arithmetic::power2::lemma2_to64();
    }
}

/// `eq(r, rx) = prod_i (r_i * rx_i + (1 - r_i) * (1 - rx_i))`.
pub open spec fn eq_eval(r: Seq<nat>, rx: Seq<nat>) -> nat
    decreases r.len(),
{
    if r.len() == 0 {
        1
    } else {
        let a = r.last();
        let b = rx[r.len() - 1];
        fmul(
            eq_eval(r.drop_last(), rx.drop_last()),
            fadd(fmul(a, b), fmul(fsub(1, a), fsub(1, b))),
        )
    }
}

/// A multilinear polynomial given by its evaluations over the hypercube.
#[derive(Clone, Debug)]
pub struct MultilinearPolynomial {
    pub evaluation_over_boolean_hypercube: Vec<Scalar>,
}

impl MultilinearPolynomial {
    /// The values of the evaluation table.
    pub open spec fn table(&self) -> Seq<nat> {
        values(self.evaluation_over_boolean_hypercube@)
    }

    /// The polynomial with the given evaluation table.
    pub fn new(evals: Vec<Scalar>) -> (r: MultilinearPolynomial)
        ensures
            r.evaluation_over_boolean_hypercube@ == evals@,
    {
        MultilinearPolynomial { evaluation_over_boolean_hypercube: evals }
    }

    /// The number of entries of the table.
    pub fn len(&self) -> (r: usize)
        ensures
            r == self.evaluation_over_boolean_hypercube.len(),
    {
        self.evaluation_over_boolean_hypercube.len()
    }

    /// Entry `i` of the table.
    pub fn get(&self, i: usize) -> (r: Scalar)
        requires
            i < self.evaluation_over_boolean_hypercube.len(),
        ensures
            r == self.evaluation_over_boolean_hypercube@[i as int],
    {
        self.evaluation_over_boolean_hypercube[i]
    }

    /// Fixes the most significant variable to `r`, halving the table.
    pub fn bound_poly_var_top(&mut self, r: &Scalar)
        requires
            old(self).evaluation_over_boolean_hypercube.len() >= 2,
        ensures
            final(self).table() == bind_top(old(self).table(), r@),
            final(self).evaluation_over_boolean_hypercube.len() == old(self).evaluation_over_boolean_hypercube.len() / 2,
    {
        let ghost t = self.table();
        let n = self.evaluation_over_boolean_hypercube.len() / 2;
        let mut next: Vec<Scalar> = Vec::new();
        for i in 0..n
            invariant
                n == self.evaluation_over_boolean_hypercube.len() / 2,
                t == self.table(),
                next.len() == i,
                forall|j: int| 0 <= j < i ==> (#[trigger] next[j])@ == bind_top(t, r@)[j],
        {
            let lo = self.evaluation_over_boolean_hypercube[i];
            let hi = self.evaluation_over_boolean_hypercube[i + n];
            next.push(lo.add(r.mul(hi.sub(lo))));
        }
        assert(values(next@) =~= bind_top(t, r@));
        self.evaluation_over_boolean_hypercube = next;
    }

    /// Multiplies every entry by `c`.
    pub fn scalar_mul(&mut self, c: &Scalar)
        ensures
            final(self).table() == old(self).table().map_values(|x: nat| fmul(x, c@)),
            final(self).evaluation_over_boolean_hypercube.len() == old(self).evaluation_over_boolean_hypercube.len(),
    {
        let ghost t = self.table();
        let n = self.evaluation_over_boolean_hypercube.len();
        let mut next: Vec<Scalar> = Vec::new();
        for i in 0..n
            invariant
                n == self.evaluation_over_boolean_hypercube.len(),
                t == self.table(),
                next.len() == i,
                forall|j: int| 0 <= j < i ==> (#[trigger] next[j])@ == fmul(t[j], c@),
        {
            next.push(self.evaluation_over_boolean_hypercube[i].mul(*c));
        }
        assert(values(next@) =~= t.map_values(|x: nat| fmul(x, c@)));
        self.evaluation_over_boolean_hypercube = next;
    }

    /// The entrywise sum of two tables of the same length.
    pub fn add(&self, other: &MultilinearPolynomial) -> (r: MultilinearPolynomial)
        requires
            self.evaluation_over_boolean_hypercube.len() == other.evaluation_over_boolean_hypercube.len(),
        ensures
            r.table() == Seq::new(self.table().len(), |i: int| fadd(self.table()[i], other.table()[i])),
            r.evaluation_over_boolean_hypercube.len() == self.evaluation_over_boolean_hypercube.len(),
    {
        let n = self.evaluation_over_boolean_hypercube.len();
        let mut next: Vec<Scalar> = Vec::new();
        for i in 0..n
            invariant
                n == self.evaluation_over_boolean_hypercube.len(),
                n == other.evaluation_over_boolean_hypercube.len(),
                next.len() == i,
                forall|j: int| 0 <= j < i ==> (#[trigger] next[j])@ == fadd(self.table()[j], other.table()[j]),
        {
            next.push(self.evaluation_over_boolean_hypercube[i].add(other.evaluation_over_boolean_hypercube[i]));
        }
        let r = MultilinearPolynomial { evaluation_over_boolean_hypercube: next };
        assert(r.table() =~= Seq::new(self.table().len(), |i: int| fadd(self.table()[i], other.table()[i])));
        r
    }

    /// The value of the polynomial at `point`: its variables fixed, most
    /// significant first, to the coordinates of `point`.
    pub fn evaluate(&self, point: &[Scalar]) -> (r: Scalar)
        requires
            self.evaluation_over_boolean_hypercube.len() == pow2(point.len() as nat),
        ensures
            r@ == bind_all(self.table(), values(point@))[0],
    {
        let mut cur = MultilinearPolynomial {
            evaluation_over_boolean_hypercube: copy_slice(self.evaluation_over_boolean_hypercube.as_slice()),
        };
        let ghost pv = values(point@);
        assert(pv.skip(0) =~= pv);
        for k in 0..point.len()
            invariant
                pv == values(point@),
                cur.evaluation_over_boolean_hypercube.len() == pow2((point.len() - k) as nat),
                bind_all(self.table(), pv) == bind_all(cur.table(), pv.skip(k as int)),
        {
            proof {
                vstd::arithmetic::power2::lemma_pow2_unfold((point.len() - k) as nat);
                vstd::arithmetic::power2::lemma_pow2_pos((point.len() - k - 1) as nat);
                assert(pv.skip(k as int).drop_first() =~= pv.skip(k + 1));
            }
            cur.bound_poly_var_top(&point[k]);
        }
        proof {
            vstd::arithmetic::power2::lemma2_to64();
            assert(pv.skip(point.len() as int).len() == 0);
        }
        cur.evaluation_over_boolean_hypercube[0]
    }
}

/// `vs` followed by zeros up to the least power of two at least its length.
pub open spec fn zero_padded(vs: Seq<nat>) -> Seq<nat> {
    vs + Seq::new((next_pow2(vs.len()) - vs.len()) as nat, |i: int| 0nat)
}

/// The multilinear polynomial of `v` padded with zeros to a power of two.
pub fn vec_to_mle(v: &Vec<Scalar>) -> (r: MultilinearPolynomial)
    requires
        v.len() <= usize::MAX / 2 + 1,
    ensures
        r.evaluation_over_boolean_hypercube.len() == next_pow2(v.len() as nat),
        r.table() == zero_padded(values(v@)),
{
    let n = next_power_of_two(v.len());
    let mut evals = copy_slice(v.as_slice());
    while evals.len() < n
        invariant
            v.len() <= evals.len() <= n,
            values(evals@) == values(v@) + Seq::new((evals.len() - v.len()) as nat, |i: int| 0nat),
        decreases n - evals.len(),
    {
        let ghost before = evals@;
        evals.push(Scalar::zero());
        assert(values(evals@) =~= values(before).push(0nat));
        assert(values(evals@) =~= values(v@) + Seq::new((evals.len() - v.len()) as nat, |i: int| 0nat));
    }
    MultilinearPolynomial::new(evals)
}

/// The equality polynomial `eq(r, .)` for a fixed point `r`.
#[derive(Clone, Debug)]
pub struct EqPolynomial {
    pub r: Vec<Scalar>,
}

impl EqPolynomial {
    /// The equality polynomial at the point `r`.
    pub fn new(r: Vec<Scalar>) -> (e: EqPolynomial)
        ensures
            e.r@ == r@,
    {
        EqPolynomial { r }
    }

    /// The table of `eq(r, x)` over the hypercube.
    pub fn evals(&self) -> (t: Vec<Scalar>)
        requires
            pow2(self.r.len() as nat) <= usize::MAX,
        ensures
            values(t@) == eq_table(values(self.r@)),
            t.len() == pow2(self.r.len() as nat),
    {
        let ghost rv = values(self.r@);
        let mut t: Vec<Scalar> = Vec::new();
        t.push(Scalar::one());
        proof {
            vstd::arithmetic::power2::lemma2_to64();
            assert(rv.take(0) =~= Seq::<nat>::empty());
            assert(values(t@) =~= eq_table(rv.take(0)));
        }
        for j in 0..self.r.len()
            invariant
                rv == values(self.r@),
                pow2(self.r.len() as nat) <= usize::MAX,
                t.len() == pow2(j as nat),
                values(t@) == eq_table(rv.take(j as int)),
        {
            let rj = self.r[j];
            let size = t.len();
            proof {
                vstd::arithmetic::power2::lemma_pow2_unfold((j + 1) as nat);
                if j + 1 < self.r.len() {
                    vstd::arithmetic::power2::lemma_pow2_strictly_increases((j + 1) as nat, self.r.len() as nat);
                }
                assert(rv.take(j + 1).drop_last() =~= rv.take(j as int));
            }
            let ghost prev = values(t@);
            let mut next: Vec<Scalar> = Vec::new();
            for x in 0..2 * size
                invariant
                    size == t.len(),
                    prev == values(t@),
                    next.len() == x,
                    forall|y: int| 0 <= y < x ==> (#[trigger] next[y])@ == (if y % 2 == 1 {
                        fmul(prev[y / 2], rj@)
                    } else {
                        fsub(prev[y / 2], fmul(prev[y / 2], rj@))
                    }),
            {
                let s = t[x / 2];
                let hi = s.mul(rj);
                if x % 2 == 1 {
                    next.push(hi);
                } else {
                    next.push(s.sub(hi));
                }
            }
            assert(values(next@) =~= eq_table(rv.take(j + 1)));
            t = next;
        }
        assert(rv.take(self.r.len() as int) =~= rv);
        t
    }

    /// `eq(r, rx)` at a point `rx` of the same dimension.
    pub fn evaluate(&self, rx: &[Scalar]) -> (e: Scalar)
        requires
            rx.len() == self.r.len(),
        ensures
            e@ == eq_eval(values(self.r@), values(rx@)),
    {
        let ghost rv = values(self.r@);
        let ghost xv = values(rx@);
        let mut acc = Scalar::one();
        let one = Scalar::one();
        proof {
            assert(rv.take(0) =~= Seq::<nat>::empty());
        }
        for i in 0..rx.len()
            invariant
                rv == values(self.r@),
                xv == values(rx@),
                rx.len() == self.r.len(),
                one@ == 1,
                acc@ == eq_eval(rv.take(i as int), xv.take(i as int)),
        {
            let a = self.r[i];
            let b = rx[i];
            let term = a.mul(b).add(one.sub(a).mul(one.sub(b)));
            acc = acc.mul(term);
            proof {
                assert(rv.take(i + 1).drop_last() =~= rv.take(i as int));
                assert(xv.take(i + 1).drop_last() =~= xv.take(i as int));
            }
        }
        assert(rv.take(rx.len() as int) =~= rv);
        assert(xv.take(rx.len() as int) =~= xv);
        acc
    }
}

} // verus!

verus! {

/// The `n` binary digits of `x`, most significant first.
pub open spec fn bits_msb(x: nat, n: nat) -> Seq<nat>
    decreases n,
{
    if n == 0 {
        Seq::empty()
    } else {
        seq![(x / pow2((n - 1) as nat)) % 2] + bits_msb(x % pow2((n - 1) as nat), (n - 1) as nat)
    }
}

/// Every entry of `t` is a field value.
pub open spec fn canonical_table(t: Seq<nat>) -> bool {
    forall|i: int| 0 <= i < t.len() ==> #[trigger] t[i] < crate::field::modulus()
}

/// Fixing the top variable to a bit keeps the half of the table it selects.
proof fn lemma_bind_top_bit(t: Seq<nat>, b: nat, i: int)
    requires
        b == 0 || b == 1,
        canonical_table(t),
        t.len() % 2 == 0,
        0 <= i < t.len() / 2,
    ensures
        bind_top(t, b)[i] == t[i + b * (t.len() / 2)],
{
    let p = crate::field::modulus();
    let h = t.len() / 2;
    let lo = t[i];
    let hi = t[i + h];
    assert(lo < p);
    assert(hi < p);
    let d = fsub(hi, lo);
    assert(bind_top(t, b)[i] == fadd(lo, fmul(b, d)));
    if b == 0 {
        assert(fmul(0, d) == 0);
        vstd::arithmetic::div_mod::lemma_small_mod(lo, p);
        assert(fadd(lo, 0) == lo);
    } else {
        crate::field::lemma_ops_congruent(hi, lo);
        vstd::arithmetic::div_mod::lemma_small_mod(d, p);
        assert(fmul(1, d) == d);
        crate::field::lemma_ops_congruent(lo, d);
        crate::field::lemma_congruent_ops(lo as int, d as int, lo as int, hi - lo);
        crate::field::lemma_congruent_values(fadd(lo, d), hi);
    }
}

/// Evaluating a table of `2^n` field values at the vertex named by the bits
/// of `x` gives its entry `x`.
pub proof fn lemma_evaluate_at_vertex(t: Seq<nat>, x: nat, n: nat)
    requires
        t.len() == pow2(n),
        x < pow2(n),
        canonical_table(t),
    ensures
        bind_all(t, bits_msb(x, n))[0] == t[x as int],
    decreases n,
{
    let bits = bits_msb(x, n);
    if n == 0 {
        vstd::arithmetic::power2::lemma2_to64();
        assert(bits =~= Seq::<nat>::empty());
    } else {
        let m = (n - 1) as nat;
        let h = pow2(m);
        vstd::arithmetic::power2::lemma_pow2_unfold(n);
        vstd::arithmetic::power2::lemma_pow2_pos(m);
        let q = x / h;
        vstd::arithmetic::div_mod::lemma_fundamental_div_mod(x as int, h as int);
        assert(q < 2) by {
            vstd::arithmetic::div_mod::lemma_div_by_multiple_is_strongly_ordered(x as int, (2 * h) as int, 2, h as int);
            vstd::arithmetic::div_mod::lemma_div_multiples_vanish(2, h as int);
        }
        vstd::arithmetic::div_mod::lemma_small_mod(q, 2);
        let b = q % 2;
        let rest = x % h;
        vstd::arithmetic::div_mod::lemma_mod_bound(x as int, h as int);
        let t2 = bind_top(t, b);
        assert(bits[0] == b);
        assert(bits.drop_first() =~= bits_msb(rest, m));
        assert(t2.len() == h);
        assert(canonical_table(t2)) by {
            assert forall|i: int| 0 <= i < t2.len() implies #[trigger] t2[i] < crate::field::modulus() by {
                lemma_bind_top_bit(t, b, i);
            }
        }
        lemma_evaluate_at_vertex(t2, rest, m);
        lemma_bind_top_bit(t, b, rest as int);
        assert(x == rest + b * h) by {
            assert(x as int == h * q + rest);
        }
    }
}

/// The bits of `x` end with its lowest bit, after the bits of `x / 2`.
proof fn lemma_bits_msb_last(x: nat, n: nat)
    requires
        n >= 1,
        x < pow2(n),
    ensures
        bits_msb(x, n) == bits_msb(x / 2, (n - 1) as nat).push(x % 2),
    decreases n,
{
    let m = (n - 1) as nat;
    vstd::arithmetic::power2::lemma_pow2_unfold(n);
    vstd::arithmetic::power2::lemma_pow2_pos(m);
    if n == 1 {
        vstd::arithmetic::power2::lemma2_to64();
        assert(pow2(0) == 1);
        assert(x / 1 == x);
        assert(bits_msb(x / 2, 0) =~= Seq::<nat>::empty());
        assert(bits_msb(x % 1, 0) =~= Seq::<nat>::empty());
        assert(bits_msb(x, 1) =~= seq![x % 2]);
    } else {
        let h = pow2(m);
        let k = (m - 1) as nat;
        let g = pow2(k);
        vstd::arithmetic::power2::lemma_pow2_unfold(m);
        vstd::arithmetic::power2::lemma_pow2_pos(k);
        // the leading bit agrees: x / 2^m = (x / 2) / 2^(m - 1)
        vstd::arithmetic::div_mod::lemma_div_denominator(x as int, 2, g as int);
        assert((x / 2) / g == x / (2 * g));
        assert(2 * g == h);
        // the rest: x % 2^m has the bits of x after the first
        let rest = x % h;
        vstd::arithmetic::div_mod::lemma_mod_bound(x as int, h as int);
        lemma_bits_msb_last(rest, m);
        // (x % 2^m) / 2 = (x / 2) % 2^(m - 1) and (x % 2^m) % 2 = x % 2
        vstd::arithmetic::div_mod::lemma_mod_breakdown(x as int, 2, g as int);
        vstd::arithmetic::div_mod::lemma_fundamental_div_mod(rest as int, 2);
        vstd::arithmetic::div_mod::lemma_mod_bound(x as int, 2);
        vstd::arithmetic::div_mod::lemma_mod_bound((x / 2) as int, g as int);
        assert(rest == 2 * ((x / 2) % g) + x % 2);
        vstd::arithmetic::div_mod::lemma_fundamental_div_mod_converse(rest as int, 2, ((x / 2) % g) as int, (x % 2) as int);
        assert(rest / 2 == (x / 2) % g);
        assert(rest % 2 == x % 2);
        let lhs = bits_msb(x, n);
        let rhs = bits_msb(x / 2, m).push(x % 2);
        assert(bits_msb(x / 2, m) =~= seq![((x / 2) / g) % 2] + bits_msb((x / 2) % g, k));
        assert(lhs =~= seq![(x / h) % 2] + bits_msb(rest, m));
        assert(bits_msb(rest, m) =~= bits_msb(rest / 2, k).push(rest % 2));
        assert(lhs =~= rhs);
    }
}

/// The bits of `x` are `n` digits.
proof fn lemma_bits_msb_len(x: nat, n: nat)
    requires
        x < pow2(n),
    ensures
        bits_msb(x, n).len() == n,
    decreases n,
{
    if n > 0 {
        let m = (n - 1) as nat;
        vstd::arithmetic::power2::lemma_pow2_unfold(n);
        lemma_bits_msb_last(x, n);
        lemma_bits_msb_len(x / 2, m);
    } else {
        assert(bits_msb(x, n) =~= Seq::<nat>::empty());
    }
}

/// One factor of `eq` at a bit `b`: `e * (a b + (1 - a)(1 - b))` is `e a`
/// for `b = 1` and `e - e a` for `b = 0`.
proof fn lemma_eq_factor_at_bit(e: nat, a: nat, b: nat)
    requires
        e < crate::field::modulus(),
        a < crate::field::modulus(),
        b == 0 || b == 1,
    ensures
        fmul(e, fadd(fmul(a, b), fmul(fsub(1, a), fsub(1, b)))) == (if b == 1 {
            fmul(e, a)
        } else {
            fsub(e, fmul(e, a))
        }),
{
    let p = crate::field::modulus();
    let one_a = fsub(1, a);
    let one_b = fsub(1, b);
    crate::field::lemma_ops_congruent(1, a);
    crate::field::lemma_ops_congruent(1, b);
    vstd::arithmetic::div_mod::lemma_small_mod(1, p);
    vstd::arithmetic::div_mod::lemma_small_mod(a, p);
    vstd::arithmetic::div_mod::lemma_small_mod(one_a, p);
    if b == 1 {
        assert(one_b == 0);
        assert(fmul(one_a, 0) == 0);
        assert(fmul(a, 1) == a);
        assert(fadd(a, 0) == a);
    } else {
        crate::field::lemma_congruent_values(one_b, 1);
        assert(fmul(a, 0) == 0);
        assert(fmul(one_a, 1) == one_a);
        assert(fadd(0, one_a) == one_a);
        crate::field::lemma_ops_congruent(e, one_a);
        crate::field::lemma_ops_congruent(e, a);
        crate::field::lemma_ops_congruent(e, fmul(e, a));
        crate::field::lemma_congruent_ops(e as int, one_a as int, e as int, 1 - a);
        crate::field::lemma_congruent_ops(e as int, fmul(e, a) as int, e as int, (e * a) as int);
        assert(e * (1 - a) == e - e * a) by (nonlinear_arith);
        crate::field::lemma_congruent_values(fmul(e, one_a), fsub(e, fmul(e, a)));
    }
}

/// Entry `x` of the equality table of `r` is `eq(r, bits(x))`: the table
/// lists the equality polynomial over the hypercube.
pub proof fn lemma_eq_table_entry(r: Seq<nat>, x: nat)
    requires
        x < pow2(r.len()),
        canonical_table(r),
    ensures
        eq_table(r)[x as int] == eq_eval(r, bits_msb(x, r.len())),
    decreases r.len(),
{
    if r.len() == 0 {
        vstd::arithmetic::power2::lemma2_to64();
    } else {
        let n = r.len();
        let m = (n - 1) as nat;
        let init = r.drop_last();
        let a = r.last();
        assert(a < crate::field::modulus());
        vstd::arithmetic::power2::lemma_pow2_unfold(n);
        vstd::arithmetic::power2::lemma_pow2_pos(m);
        assert(x / 2 < pow2(m));
        lemma_eq_table_len(init);
        lemma_eq_table_entry(init, x / 2);
        lemma_bits_msb_last(x, n);
        lemma_bits_msb_len(x / 2, m);
        let rx = bits_msb(x, n);
        assert(rx.drop_last() =~= bits_msb(x / 2, m));
        assert(rx[n - 1] == x % 2);
        let e = eq_eval(init, bits_msb(x / 2, m));
        assert(e < crate::field::modulus()) by {
            if m > 0 {
                let ii = init.last();
                let bb = bits_msb(x / 2, m)[m - 1];
                crate::field::lemma_ops_congruent(
                    eq_eval(init.drop_last(), bits_msb(x / 2, m).drop_last()),
                    fadd(fmul(ii, bb), fmul(fsub(1, ii), fsub(1, bb))),
                );
            }
        }
        lemma_eq_factor_at_bit(e, a, x % 2);
    }
}

} // verus!

verus! {

/// The table `x -> a[x] + b[x] * w`.
pub open spec fn lin_table(a: Seq<nat>, b: Seq<nat>, w: nat) -> Seq<nat> {
    Seq::new(a.len(), |x: int| fadd(a[x], fmul(b[x], w)))
}

/// The table `x -> a[x] * w`.
pub open spec fn scaled_table(a: Seq<nat>, w: nat) -> Seq<nat> {
    a.map_values(|x: nat| fmul(x, w))
}

/// One entry of a bound table is congruent to `lo + r (hi - lo)`.
pub(crate) proof fn lemma_bind_entry_congruent(lo: nat, hi: nat, r: nat)
    ensures
        crate::field::congruent(fadd(lo, fmul(r, fsub(hi, lo))) as int, lo + r * (hi - lo)),
        fadd(lo, fmul(r, fsub(hi, lo))) < crate::field::modulus(),
{
    let d = fsub(hi, lo);
    crate::field::lemma_ops_congruent(hi, lo);
    crate::field::lemma_ops_congruent(r, d);
    crate::field::lemma_ops_congruent(lo, fmul(r, d));
    crate::field::lemma_congruent_ops(r as int, d as int, r as int, hi - lo);
    crate::field::lemma_congruent_ops(lo as int, fmul(r, d) as int, lo as int, r * (hi - lo));
}

/// Binding the top variable of a table of field values keeps field values.
pub(crate) proof fn lemma_bind_top_canonical(t: Seq<nat>, r: nat)
    ensures
        canonical_table(bind_top(t, r)),
{
    assert forall|i: int| 0 <= i < bind_top(t, r).len() implies #[trigger] bind_top(t, r)[i] < crate::field::modulus() by {
        lemma_bind_entry_congruent(t[i], t[i + t.len() / 2], r);
    }
}

/// Binding the top variable commutes with `a + b * w`.
proof fn lemma_bind_top_lin(a: Seq<nat>, b: Seq<nat>, w: nat, r: nat)
    requires
        a.len() == b.len(),
    ensures
        bind_top(lin_table(a, b, w), r) == lin_table(bind_top(a, r), bind_top(b, r), w),
{
    let h = a.len() / 2;
    let lhs = bind_top(lin_table(a, b, w), r);
    let rhs = lin_table(bind_top(a, r), bind_top(b, r), w);
    assert forall|i: int| 0 <= i < h implies lhs[i] == rhs[i] by {
        let (a0, a1, b0, b1) = (a[i], a[i + h], b[i], b[i + h]);
        let l0 = fadd(a0, fmul(b0, w));
        let l1 = fadd(a1, fmul(b1, w));
        crate::field::lemma_ops_congruent(b0, w);
        crate::field::lemma_ops_congruent(b1, w);
        crate::field::lemma_ops_congruent(a0, fmul(b0, w));
        crate::field::lemma_ops_congruent(a1, fmul(b1, w));
        crate::field::lemma_congruent_ops(a0 as int, fmul(b0, w) as int, a0 as int, (b0 * w) as int);
        crate::field::lemma_congruent_ops(a1 as int, fmul(b1, w) as int, a1 as int, (b1 * w) as int);
        let (x0, x1, y0, y1, wi, ri) = (a0 as int, a1 as int, b0 as int, b1 as int, w as int, r as int);
        // the left side: bind the combined entries
        lemma_bind_entry_congruent(l0, l1, r);
        crate::field::lemma_congruent_ops(l1 as int, l0 as int, x1 + y1 * wi, x0 + y0 * wi);
        crate::field::lemma_congruent_ops(ri, l1 - l0, ri, (x1 + y1 * wi) - (x0 + y0 * wi));
        crate::field::lemma_congruent_ops(l0 as int, ri * (l1 - l0), x0 + y0 * wi, ri * ((x1 + y1 * wi) - (x0 + y0 * wi)));
        // the right side: combine the bound entries
        let ba = fadd(a0, fmul(r, fsub(a1, a0)));
        let bb = fadd(b0, fmul(r, fsub(b1, b0)));
        lemma_bind_entry_congruent(a0, a1, r);
        lemma_bind_entry_congruent(b0, b1, r);
        crate::field::lemma_ops_congruent(bb, w);
        crate::field::lemma_ops_congruent(ba, fmul(bb, w));
        crate::field::lemma_congruent_ops(bb as int, wi, y0 + ri * (y1 - y0), wi);
        crate::field::lemma_congruent_ops(ba as int, fmul(bb, w) as int, x0 + ri * (x1 - x0), (y0 + ri * (y1 - y0)) * wi);
        assert((x0 + y0 * wi) + ri * ((x1 + y1 * wi) - (x0 + y0 * wi)) == (x0 + ri * (x1 - x0)) + (y0 + ri * (y1 - y0)) * wi)
            by (nonlinear_arith);
        crate::field::lemma_congruent_values(lhs[i], rhs[i]);
    }
    assert(lhs =~= rhs);
}

/// Binding the top variable commutes with scaling by `w`.
proof fn lemma_bind_top_scaled(a: Seq<nat>, w: nat, r: nat)
    ensures
        bind_top(scaled_table(a, w), r) == scaled_table(bind_top(a, r), w),
{
    let h = a.len() / 2;
    let lhs = bind_top(scaled_table(a, w), r);
    let rhs = scaled_table(bind_top(a, r), w);
    assert forall|i: int| 0 <= i < h implies lhs[i] == rhs[i] by {
        let (a0, a1) = (a[i], a[i + h]);
        let s0 = fmul(a0, w);
        let s1 = fmul(a1, w);
        crate::field::lemma_ops_congruent(a0, w);
        crate::field::lemma_ops_congruent(a1, w);
        let (x0, x1, wi, ri) = (a0 as int, a1 as int, w as int, r as int);
        lemma_bind_entry_congruent(s0, s1, r);
        crate::field::lemma_congruent_ops(s1 as int, s0 as int, x1 * wi, x0 * wi);
        crate::field::lemma_congruent_ops(ri, s1 - s0, ri, x1 * wi - x0 * wi);
        crate::field::lemma_congruent_ops(s0 as int, ri * (s1 - s0), x0 * wi, ri * (x1 * wi - x0 * wi));
        let ba = fadd(a0, fmul(r, fsub(a1, a0)));
        lemma_bind_entry_congruent(a0, a1, r);
        crate::field::lemma_ops_congruent(ba, w);
        crate::field::lemma_congruent_ops(ba as int, wi, x0 + ri * (x1 - x0), wi);
        assert(x0 * wi + ri * (x1 * wi - x0 * wi) == (x0 + ri * (x1 - x0)) * wi) by (nonlinear_arith);
        crate::field::lemma_congruent_values(lhs[i], rhs[i]);
    }
    assert(lhs =~= rhs);
}

/// Fixing variables commutes with `a + b * w`.
pub proof fn lemma_bind_all_lin(a: Seq<nat>, b: Seq<nat>, w: nat, rs: Seq<nat>)
    requires
        a.len() == b.len(),
    ensures
        bind_all(lin_table(a, b, w), rs) == lin_table(bind_all(a, rs), bind_all(b, rs), w),
    decreases rs.len(),
{
    if rs.len() == 0 {
    } else {
        lemma_bind_top_lin(a, b, w, rs[0]);
        lemma_bind_all_lin(bind_top(a, rs[0]), bind_top(b, rs[0]), w, rs.drop_first());
    }
}

/// Fixing variables commutes with scaling by `w`.
pub proof fn lemma_bind_all_scaled(a: Seq<nat>, w: nat, rs: Seq<nat>)
    ensures
        bind_all(scaled_table(a, w), rs) == scaled_table(bind_all(a, rs), w),
    decreases rs.len(),
{
    if rs.len() > 0 {
        lemma_bind_top_scaled(a, w, rs[0]);
        lemma_bind_all_scaled(bind_top(a, rs[0]), w, rs.drop_first());
    }
}

/// Fixing at least one variable leaves field values.
pub proof fn lemma_bind_all_canonical(t: Seq<nat>, rs: Seq<nat>)
    requires
        canonical_table(t),
    ensures
        canonical_table(bind_all(t, rs)),
    decreases rs.len(),
{
    if rs.len() > 0 {
        lemma_bind_top_canonical(t, rs[0]);
        lemma_bind_all_canonical(bind_top(t, rs[0]), rs.drop_first());
    }
}

} // verus!
