//! Polynomials in one variable given by their integer coefficients, lowest
//! degree first, and the facts the sum-check proofs need about them: sums,
//! scalings and products by lines evaluate as they should, and field values
//! congruent to such evaluations combine into evaluations again.
use crate::field::{congruent, fadd, fmul, lemma_congruent_ops, lemma_ops_congruent};
use vstd::prelude::*;

verus! {

/// The value at `x` of the polynomial with coefficients `c`, by Horner's rule.
pub open spec fn peval(c: Seq<int>, x: int) -> int
    decreases c.len(),
{
    if c.len() == 0 {
        0
    } else {
        c[0] + x * peval(c.drop_first(), x)
    }
}

/// Coefficient `i` of `c`, zero past its end.
pub open spec fn coeff(c: Seq<int>, i: int) -> int {
    if 0 <= i < c.len() {
        c[i]
    } else {
        0
    }
}

/// The sum of two polynomials.
pub open spec fn padd(p: Seq<int>, q: Seq<int>) -> Seq<int> {
    let n = if p.len() >= q.len() {
        p.len()
    } else {
        q.len()
    };
    Seq::new(n, |i: int| coeff(p, i) + coeff(q, i))
}

/// The polynomial times the constant `a`.
pub open spec fn pscale(p: Seq<int>, a: int) -> Seq<int> {
    Seq::new(p.len(), |i: int| a * p[i])
}

/// The line `l + d X`.
pub open spec fn pline(l: int, d: int) -> Seq<int> {
    seq![l, d]
}

/// The polynomial times the line `l + d X`.
pub open spec fn pmul_line(p: Seq<int>, l: int, d: int) -> Seq<int> {
    padd(pscale(p, l), seq![0int] + pscale(p, d))
}

/// Sums evaluate to the sum of the values; the longer list sets the length.
pub proof fn lemma_padd(p: Seq<int>, q: Seq<int>, x: int)
    ensures
        peval(padd(p, q), x) == peval(p, x) + peval(q, x),
        padd(p, q).len() == if p.len() >= q.len() {
            p.len()
        } else {
            q.len()
        },
    decreases p.len() + q.len(),
{
    let s = padd(p, q);
    if p.len() == 0 {
        assert(s =~= q);
    } else if q.len() == 0 {
        assert(s =~= p);
    } else {
        let (p1, q1) = (p.drop_first(), q.drop_first());
        lemma_padd(p1, q1, x);
        assert(s.drop_first() =~= padd(p1, q1));
        vstd::arithmetic::mul::lemma_mul_is_distributive_add(x, peval(p1, x), peval(q1, x));
    }
}

/// Scaling scales the value.
pub proof fn lemma_pscale(p: Seq<int>, a: int, x: int)
    ensures
        peval(pscale(p, a), x) == a * peval(p, x),
        pscale(p, a).len() == p.len(),
    decreases p.len(),
{
    if p.len() > 0 {
        let p1 = p.drop_first();
        lemma_pscale(p1, a, x);
        assert(pscale(p, a).drop_first() =~= pscale(p1, a));
        let v = peval(p1, x);
        assert(a * p[0] + x * (a * v) == a * (p[0] + x * v)) by (nonlinear_arith);
    }
}

/// Multiplying by a line multiplies the value by the line's value and adds
/// one coefficient.
pub proof fn lemma_pmul_line(p: Seq<int>, l: int, d: int, x: int)
    ensures
        peval(pmul_line(p, l, d), x) == peval(p, x) * (l + x * d),
        pmul_line(p, l, d).len() == p.len() + 1,
{
    lemma_pscale(p, l, x);
    lemma_pscale(p, d, x);
    let sh = seq![0int] + pscale(p, d);
    assert(sh.drop_first() =~= pscale(p, d));
    assert(peval(sh, x) == x * (d * peval(p, x)));
    lemma_padd(pscale(p, l), sh, x);
    let v = peval(p, x);
    assert(l * v + x * (d * v) == v * (l + x * d)) by (nonlinear_arith);
}

/// A line evaluates to `l + x d`.
pub proof fn lemma_pline(l: int, d: int, x: int)
    ensures
        peval(pline(l, d), x) == l + x * d,
        pline(l, d).len() == 2,
{
    let p = pline(l, d);
    assert(p.drop_first() =~= seq![d]);
    assert(p.drop_first().drop_first() =~= Seq::<int>::empty());
    assert(peval(p.drop_first().drop_first(), x) == 0);
    assert(peval(p.drop_first(), x) == d);
}

/// A field sum of values congruent to two polynomials' values is congruent
/// to the value of their sum.
pub proof fn lemma_cong_add(a: nat, b: nat, p: Seq<int>, q: Seq<int>, x: int)
    requires
        congruent(a as int, peval(p, x)),
        congruent(b as int, peval(q, x)),
    ensures
        congruent(fadd(a, b) as int, peval(padd(p, q), x)),
        fadd(a, b) < crate::field::modulus(),
{
    lemma_ops_congruent(a, b);
    lemma_congruent_ops(a as int, b as int, peval(p, x), peval(q, x));
    lemma_padd(p, q, x);
}

/// A field product of a value congruent to a polynomial's value and a value
/// congruent to a line's value is congruent to the value of their product.
pub proof fn lemma_cong_mul_line(a: nat, b: nat, p: Seq<int>, l: int, d: int, x: int)
    requires
        congruent(a as int, peval(p, x)),
        congruent(b as int, l + x * d),
    ensures
        congruent(fmul(a, b) as int, peval(pmul_line(p, l, d), x)),
        fmul(a, b) < crate::field::modulus(),
{
    lemma_ops_congruent(a, b);
    lemma_congruent_ops(a as int, b as int, peval(p, x), l + x * d);
    lemma_pmul_line(p, l, d, x);
}

/// The same with the line first.
pub proof fn lemma_cong_line_mul(a: nat, b: nat, p: Seq<int>, l: int, d: int, x: int)
    requires
        congruent(a as int, l + x * d),
        congruent(b as int, peval(p, x)),
    ensures
        congruent(fmul(a, b) as int, peval(pmul_line(p, l, d), x)),
        fmul(a, b) < crate::field::modulus(),
{
    lemma_ops_congruent(a, b);
    lemma_congruent_ops(a as int, b as int, l + x * d, peval(p, x));
    lemma_pmul_line(p, l, d, x);
    assert((l + x * d) * peval(p, x) == peval(p, x) * (l + x * d)) by (nonlinear_arith);
}

/// A field product by a constant.
pub proof fn lemma_cong_scale(a: nat, w: nat, p: Seq<int>, x: int)
    requires
        congruent(a as int, peval(p, x)),
    ensures
        congruent(fmul(a, w) as int, peval(pscale(p, w as int), x)),
        congruent(fmul(w, a) as int, peval(pscale(p, w as int), x)),
        fmul(a, w) < crate::field::modulus(),
        fmul(w, a) < crate::field::modulus(),
{
    lemma_ops_congruent(a, w);
    lemma_ops_congruent(w, a);
    lemma_congruent_ops(a as int, w as int, peval(p, x), w as int);
    lemma_congruent_ops(w as int, a as int, w as int, peval(p, x));
    lemma_pscale(p, w as int, x);
    assert(peval(p, x) * (w as int) == (w as int) * peval(p, x)) by (nonlinear_arith);
}

} // verus!
