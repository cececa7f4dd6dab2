//! The sum-check provers of SpeedySpartan: each round sends the values of
//! the round polynomial, draws a challenge from the transcript and fixes the
//! top variable of every table to it.
use crate::field::{fadd, fmul, values, Scalar};
use crate::mle::{bind_all, bind_top, MultilinearPolynomial};
use crate::nexus_spartan::copy_slice;
use crate::sumcheck_utils::{
    compute_eval_points_degree_d, hypercube_sum, max_len, round_evals, round_ready, tables, uniform_tables, Combiner,
};
use crate::transcript::{absorb, after_challenge, challenge_value, Transcript, NEXT_ROUND_LABEL, POLY_LABEL};
use crate::unipoly::{lagrange_eval, UniPoly};
use vstd::arithmetic::power2::pow2;
use vstd::prelude::*;

verus! {

/// Every table has a power-of-two length with at least `rounds` variables.
pub open spec fn tables_fit(ts: Seq<Seq<nat>>, rounds: nat) -> bool {
    forall|j: int| 0 <= j < ts.len() ==> exists|e: nat| e >= rounds && (#[trigger] ts[j]).len() == pow2(e)
}

/// The tables after the first `i` challenges have been fixed.
pub open spec fn round_tables(ts0: Seq<Seq<nat>>, rs: Seq<nat>, i: nat) -> Seq<Seq<nat>> {
    ts0.map_values(|t: Seq<nat>| bind_all(t, rs.take(i as int)))
}

/// The values of the round polynomial of round `i`.
pub open spec fn round_poly(ts0: Seq<Seq<nat>>, rs: Seq<nat>, i: nat, d: nat, comb: Combiner) -> Seq<nat> {
    round_evals(round_tables(ts0, rs, i), d, comb)
}

/// The transcript state before round `i`.
pub open spec fn state_before(ts0: Seq<Seq<nat>>, rs: Seq<nat>, d: nat, comb: Combiner, st0: Seq<u8>, i: nat) -> Seq<u8>
    decreases i,
{
    if i == 0 {
        st0
    } else {
        let k = (i - 1) as nat;
        after_challenge(
            absorb(state_before(ts0, rs, d, comb, st0, k), POLY_LABEL@, round_poly(ts0, rs, k, d, comb)),
            NEXT_ROUND_LABEL@,
        )
    }
}

/// The challenge of round `i`.
pub open spec fn round_challenge(ts0: Seq<Seq<nat>>, rs: Seq<nat>, d: nat, comb: Combiner, st0: Seq<u8>, i: nat) -> nat {
    challenge_value(
        absorb(state_before(ts0, rs, d, comb, st0, i), POLY_LABEL@, round_poly(ts0, rs, i, d, comb)),
        NEXT_ROUND_LABEL@,
    )
}

/// A run of `n` sum-check rounds on the tables `ts0` from the transcript
/// state `st0`: the round polynomials `polys`, the running claims `claims`
/// (the first is `claim`, each next one the round polynomial at the round's
/// challenge) and the challenges `rs` drawn from the transcript.
pub open spec fn sumcheck_run(
    ts0: Seq<Seq<nat>>,
    d: nat,
    comb: Combiner,
    st0: Seq<u8>,
    n: nat,
    claim: nat,
    polys: Seq<Seq<nat>>,
    claims: Seq<nat>,
    rs: Seq<nat>,
) -> bool {
    &&& polys.len() == n
    &&& claims.len() == n + 1
    &&& rs.len() == n
    &&& claims[0] == claim
    &&& forall|i: int| 0 <= i < n ==> #[trigger] polys[i] == round_poly(ts0, rs, i as nat, d, comb)
    &&& forall|i: int| 0 <= i < n ==> #[trigger] rs[i] == round_challenge(ts0, rs, d, comb, st0, i as nat)
    &&& forall|i: int| 0 <= i < n ==> #[trigger] claims[i + 1] == lagrange_eval(polys[i], rs[i])
}

/// The value lists of a list of univariate polynomials.
pub open spec fn poly_values(ps: Seq<UniPoly>) -> Seq<Seq<nat>> {
    ps.map_values(|p: UniPoly| values(p.evals@))
}

pub(crate) proof fn lemma_bind_all_push(t: Seq<nat>, s: Seq<nat>, x: nat)
    ensures
        bind_all(t, s.push(x)) == bind_top(bind_all(t, s), x),
    decreases s.len(),
{
    if s.len() == 0 {
        assert(s.push(x).drop_first() =~= Seq::<nat>::empty());
        assert(s.push(x)[0] == x);
        assert(bind_all(bind_top(t, x), Seq::<nat>::empty()) == bind_top(t, x));
        assert(bind_all(t, s) == t);
    } else {
        assert(s.push(x).drop_first() =~= s.drop_first().push(x));
        assert(s.push(x)[0] == s[0]);
        lemma_bind_all_push(bind_top(t, s[0]), s.drop_first(), x);
    }
}

/// The least number of variables of a table of `n` entries.
pub fn log_2(n: usize) -> (k: usize)
    requires
        n >= 1,
        n <= usize::MAX / 2 + 1,
    ensures
        pow2(k as nat) >= n,
        k > 0 ==> pow2((k - 1) as nat) < n,
{
    let mut k: usize = 0;
    let mut p: usize = 1;
    proof {
        vstd::arithmetic::power2::lemma2_to64();
    }
    while p < n
        invariant
            p == pow2(k as nat),
            n <= usize::MAX / 2 + 1,
            k > 0 ==> pow2((k - 1) as nat) < n,
            k <= 64,
            p >= 1,
            p == 1 || p < 2 * n,
        decreases 2 * n - p,
    {
        proof {
            vstd::arithmetic::power2::lemma_pow2_unfold((k + 1) as nat);
            vstd::arithmetic::power2::lemma2_to64();
            if k >= 63 {
                vstd::arithmetic::power2::lemma2_to64_rest();
                if k > 63 {
                    vstd::arithmetic::power2::lemma_pow2_strictly_increases(63, k as nat);
                }
            }
        }
        p = p * 2;
        k = k + 1;
    }
    k
}

/// For a power of two, `log_2` gives the exponent.
pub proof fn lemma_log_2_exact(n: nat, k: nat, e: nat)
    requires
        n == pow2(e),
        pow2(k) >= n,
        k > 0 ==> pow2((k - 1) as nat) < n,
    ensures
        k == e,
{
    if k < e {
        vstd::arithmetic::power2::lemma_pow2_strictly_increases(k, e);
    } else if k > e {
        if (k - 1) as nat > e {
            vstd::arithmetic::power2::lemma_pow2_strictly_increases(e, (k - 1) as nat);
        }
    }
}

/// A copy of a polynomial.
pub fn copy_poly(p: &MultilinearPolynomial) -> (r: MultilinearPolynomial)
    ensures
        r.evaluation_over_boolean_hypercube@ == p.evaluation_over_boolean_hypercube@,
{
    MultilinearPolynomial { evaluation_over_boolean_hypercube: copy_slice(p.evaluation_over_boolean_hypercube.as_slice()) }
}

/// Runs `num_rounds` sum-check rounds of degree `d` over `polys` with the
/// combiner `comb`, starting from `claim`. Returns the round polynomials,
/// the running claims and the challenges; `polys` ends with every challenge
/// fixed.
pub fn run_sumcheck(
    polys: &mut Vec<MultilinearPolynomial>,
    claim: &Scalar,
    d: usize,
    comb: &Combiner,
    num_rounds: usize,
    transcript: &mut Transcript,
) -> (r: (Vec<UniPoly>, Vec<Scalar>, Vec<Scalar>))
    requires
        old(polys).len() > 0,
        old(polys).len() >= comb.arity(),
        comb.arity() <= usize::MAX,
        d < u64::MAX,
        d < usize::MAX,
        tables_fit(tables(old(polys)@), num_rounds as nat),
    ensures
        sumcheck_run(
            tables(old(polys)@),
            d as nat,
            *comb,
            old(transcript)@,
            num_rounds as nat,
            claim@,
            poly_values(r.0@),
            values(r.1@),
            values(r.2@),
        ),
        final(transcript)@ == state_before(tables(old(polys)@), values(r.2@), d as nat, *comb, old(transcript)@, num_rounds as nat),
        final(polys).len() == old(polys).len(),
        tables(final(polys)@) == round_tables(tables(old(polys)@), values(r.2@), num_rounds as nat),
        tables_fit(tables(final(polys)@), 0),
{
    let ghost ts0 = tables(polys@);
    let ghost st0 = transcript@;
    let mut rs: Vec<Scalar> = Vec::new();
    let mut unis: Vec<UniPoly> = Vec::new();
    let mut claims: Vec<Scalar> = Vec::new();
    claims.push(*claim);
    assert(ts0.map_values(|t: Seq<nat>| bind_all(t, values(rs@).take(0))) =~= ts0) by {
        assert forall|j: int| 0 <= j < ts0.len() implies bind_all(ts0[j], values(rs@).take(0)) == ts0[j] by {
            assert(values(rs@).take(0).len() == 0);
        }
    }
    for round in 0..num_rounds
        invariant
            ts0.len() == polys.len(),
            polys.len() > 0,
            polys.len() >= comb.arity(),
            comb.arity() <= usize::MAX,
            d < u64::MAX,
            d < usize::MAX,
            tables_fit(ts0, num_rounds as nat),
            rs.len() == round,
            tables_fit(tables(polys@), (num_rounds - round) as nat),
            tables(polys@) == round_tables(ts0, values(rs@), round as nat),
            transcript@ == state_before(ts0, values(rs@), d as nat, *comb, st0, round as nat),
            sumcheck_run(ts0, d as nat, *comb, st0, round as nat, claim@, poly_values(unis@), values(claims@), values(rs@)),
    {
        let ghost cur = tables(polys@);
        proof {
            assert forall|j: int| 0 <= j < cur.len() implies (#[trigger] cur[j]).len() >= 2 by {
                let e = choose|e: nat| e >= (num_rounds - round) && (#[trigger] cur[j]).len() == pow2(e);
                vstd::arithmetic::power2::lemma_pow2_unfold(e);
                vstd::arithmetic::power2::lemma_pow2_pos((e - 1) as nat);
            }
            crate::sumcheck_utils::lemma_max_len_bound(cur);
            let jm = choose|j: int| 0 <= j < cur.len() && (#[trigger] cur[j]).len() == max_len(cur);
            let em = choose|e: nat| e >= (num_rounds - round) && (#[trigger] cur[jm]).len() == pow2(e);
            assert(pow2(em) == max_len(cur));
            assert(round_ready(cur));
        }
        let evals = compute_eval_points_degree_d(polys.as_slice(), d, comb);
        let poly = UniPoly::from_evals(evals.as_slice());
        poly.append_to_transcript(&POLY_LABEL, transcript);
        let r_i = transcript.challenge_scalar(&NEXT_ROUND_LABEL);
        let ghost rs_old = values(rs@);
        let ghost unis_old = poly_values(unis@);
        let ghost claims_old = values(claims@);
        rs.push(r_i);
        let next_claim = poly.evaluate(&r_i);
        claims.push(next_claim);
        unis.push(poly);
        let mut next: Vec<MultilinearPolynomial> = Vec::new();
        for j in 0..polys.len()
            invariant
                next.len() == j,
                cur == tables(polys@),
                forall|jj: int| 0 <= jj < cur.len() ==> (#[trigger] cur[jj]).len() >= 2,
                forall|jj: int| 0 <= jj < j ==> (#[trigger] next@[jj]).table() == bind_top(cur[jj], r_i@),
        {
            assert(cur[j as int] == polys@[j as int].table());
            let mut p = copy_poly(&polys[j]);
            p.bound_poly_var_top(&r_i);
            next.push(p);
        }
        *polys = next;
        proof {
            let rsv = values(rs@);
            assert(rsv =~= rs_old.push(r_i@));
            assert(poly_values(unis@) =~= unis_old.push(values(evals@)));
            assert(values(claims@) =~= claims_old.push(next_claim@));
            lemma_round_step(ts0, rs_old, r_i@, d as nat, *comb, st0, round as nat, claim@,
                unis_old, claims_old, values(evals@), next_claim@);
            lemma_tables_step(ts0, rs_old, r_i@, round as nat);
            assert(tables(polys@) =~= round_tables(ts0, rsv, (round + 1) as nat));
            assert forall|j: int| 0 <= j < ts0.len() implies exists|e: nat| e >= (num_rounds - (round + 1)) && (#[trigger] tables(polys@)[j]).len() == pow2(e) by {
                let e = choose|e: nat| e >= (num_rounds - round) && (#[trigger] cur[j]).len() == pow2(e);
                vstd::arithmetic::power2::lemma_pow2_unfold(e);
                assert(tables(polys@)[j].len() == pow2((e - 1) as nat));
            }
        }
    }
    (unis, claims, rs)
}

/// One more round keeps the run consistent.
proof fn lemma_round_step(
    ts0: Seq<Seq<nat>>,
    rs_old: Seq<nat>,
    ri: nat,
    d: nat,
    comb: Combiner,
    st0: Seq<u8>,
    round: nat,
    claim: nat,
    unis_old: Seq<Seq<nat>>,
    claims_old: Seq<nat>,
    new_poly: Seq<nat>,
    new_claim: nat,
)
    requires
        rs_old.len() == round,
        sumcheck_run(ts0, d, comb, st0, round, claim, unis_old, claims_old, rs_old),
        new_poly == round_poly(ts0, rs_old, round, d, comb),
        ri == challenge_value(absorb(state_before(ts0, rs_old, d, comb, st0, round), POLY_LABEL@, new_poly), NEXT_ROUND_LABEL@),
        new_claim == lagrange_eval(new_poly, ri),
    ensures
        sumcheck_run(ts0, d, comb, st0, round + 1, claim, unis_old.push(new_poly), claims_old.push(new_claim), rs_old.push(ri)),
        state_before(ts0, rs_old.push(ri), d, comb, st0, round + 1) == after_challenge(
            absorb(state_before(ts0, rs_old, d, comb, st0, round), POLY_LABEL@, new_poly),
            NEXT_ROUND_LABEL@,
        ),
{
    let rsv = rs_old.push(ri);
    assert(rsv.take(round as int) =~= rs_old);
    assert forall|i: nat| i <= round + 1 implies #[trigger] state_before(ts0, rsv, d, comb, st0, i)
        == state_before(ts0, rs_old, d, comb, st0, i) by {
        lemma_state_before_prefix(ts0, rsv, rs_old, d, comb, st0, i);
    }
    assert forall|i: nat| i <= round implies #[trigger] round_tables(ts0, rsv, i) == round_tables(ts0, rs_old, i) by {
        lemma_state_before_prefix(ts0, rsv, rs_old, d, comb, st0, i);
    }
    let unis = unis_old.push(new_poly);
    let claims = claims_old.push(new_claim);
    assert forall|i: int| 0 <= i < round + 1 implies #[trigger] unis[i] == round_poly(ts0, rsv, i as nat, d, comb) by {
        assert(round_tables(ts0, rsv, i as nat) == round_tables(ts0, rs_old, i as nat));
    }
    assert forall|i: int| 0 <= i < round + 1 implies #[trigger] rsv[i] == round_challenge(ts0, rsv, d, comb, st0, i as nat) by {
        assert(round_tables(ts0, rsv, i as nat) == round_tables(ts0, rs_old, i as nat));
        assert(state_before(ts0, rsv, d, comb, st0, i as nat) == state_before(ts0, rs_old, d, comb, st0, i as nat));
        if i < round {
            assert(rsv[i] == rs_old[i]);
        }
    }
    assert forall|i: int| 0 <= i < round + 1 implies #[trigger] claims[i + 1] == lagrange_eval(unis[i], rsv[i]) by {
        if i < round {
            assert(claims[i + 1] == claims_old[i + 1]);
        }
    }
}

/// Fixing the new challenge moves the tables to the next round.
pub(crate) proof fn lemma_tables_step(ts0: Seq<Seq<nat>>, rs_old: Seq<nat>, ri: nat, round: nat)
    requires
        rs_old.len() == round,
    ensures
        forall|j: int| 0 <= j < ts0.len() ==> bind_top(#[trigger] round_tables(ts0, rs_old, round)[j], ri)
            == round_tables(ts0, rs_old.push(ri), round + 1)[j],
{
    let rsv = rs_old.push(ri);
    assert(rsv.take((round + 1) as int) =~= rs_old.push(ri));
    assert(rs_old.take(round as int) =~= rs_old);
    assert forall|j: int| 0 <= j < ts0.len() implies bind_top(#[trigger] round_tables(ts0, rs_old, round)[j], ri)
        == round_tables(ts0, rsv, round + 1)[j] by {
        lemma_bind_all_push(ts0[j], rs_old, ri);
    }
}

/// The transcript states depend only on the challenges of earlier rounds.
proof fn lemma_state_before_prefix(
    ts0: Seq<Seq<nat>>,
    rs1: Seq<nat>,
    rs2: Seq<nat>,
    d: nat,
    comb: Combiner,
    st0: Seq<u8>,
    i: nat,
)
    requires
        rs2.len() <= rs1.len(),
        i <= rs2.len() + 1,
        rs1.take(rs2.len() as int) == rs2,
    ensures
        state_before(ts0, rs1, d, comb, st0, i) == state_before(ts0, rs2, d, comb, st0, i),
        i <= rs2.len() ==> round_tables(ts0, rs1, i) == round_tables(ts0, rs2, i),
    decreases i,
{
    if i <= rs2.len() {
        assert(rs1.take(i as int) =~= rs2.take(i as int));
        assert(round_tables(ts0, rs1, i) =~= round_tables(ts0, rs2, i));
    }
    if i > 0 {
        lemma_state_before_prefix(ts0, rs1, rs2, d, comb, st0, (i - 1) as nat);
    }
}

} // verus!

verus! {

proof fn lemma_bound_len(ts: Seq<Seq<nat>>)
    requires
        tables_fit(ts, 0),
    ensures
        forall|j: int| 0 <= j < ts.len() ==> (#[trigger] ts[j]).len() >= 1,
{
    assert forall|j: int| 0 <= j < ts.len() implies (#[trigger] ts[j]).len() >= 1 by {
        let e = choose|e: nat| e >= 0 && (#[trigger] ts[j]).len() == pow2(e);
        vstd::arithmetic::power2::lemma_pow2_pos(e);
    }
}

/// `len` is a power of two and every table is a power of two at least as long.
pub open spec fn fits_rounds(ts: Seq<Seq<nat>>, len: nat) -> bool {
    &&& exists|e: nat| pow2(e) == len
    &&& forall|j: int| 0 <= j < ts.len() ==> (exists|e: nat| pow2(e) == (#[trigger] ts[j]).len()) && ts[j].len() >= len
}

proof fn lemma_fits_rounds(ts: Seq<Seq<nat>>, k: nat)
    requires
        fits_rounds(ts, pow2(k)),
    ensures
        tables_fit(ts, k),
{
    assert forall|j: int| 0 <= j < ts.len() implies exists|e: nat| e >= k && (#[trigger] ts[j]).len() == pow2(e) by {
        let e = choose|e: nat| pow2(e) == (#[trigger] ts[j]).len();
        if e < k {
            vstd::arithmetic::power2::lemma_pow2_strictly_increases(e, k);
        }
    }
}

/// The number of rounds for tables of `len` entries, with its meaning.
fn rounds_for(len: usize, Ghost(ts): Ghost<Seq<Seq<nat>>>) -> (k: usize)
    requires
        len >= 1,
        len <= usize::MAX / 2 + 1,
        fits_rounds(ts, len as nat),
    ensures
        pow2(k as nat) == len,
        tables_fit(ts, k as nat),
{
    let k = log_2(len);
    proof {
        let e = choose|e: nat| pow2(e) == len;
        lemma_log_2_exact(len as nat, k as nat, e);
        lemma_fits_rounds(ts, k as nat);
    }
    k
}

/// The entries `lo..hi` of a list of polynomials, copied.
fn copy_range(v: &Vec<MultilinearPolynomial>, lo: usize, hi: usize) -> (r: Vec<MultilinearPolynomial>)
    requires
        lo <= hi <= v.len(),
    ensures
        tables(r@) == tables(v@).subrange(lo as int, hi as int),
        r.len() == hi - lo,
{
    let mut r: Vec<MultilinearPolynomial> = Vec::new();
    let mut i = lo;
    while i < hi
        invariant
            lo <= i <= hi <= v.len(),
            tables(r@) == tables(v@).subrange(lo as int, i as int),
            r.len() == i - lo,
        decreases hi - i,
    {
        let ghost before = r@;
        let c = copy_poly(&v[i]);
        assert(c.table() == v@[i as int].table());
        r.push(c);
        assert(tables(r@) =~= tables(before).push(c.table()));
        assert(tables(r@) =~= tables(v@).subrange(lo as int, i + 1));
        i = i + 1;
    }
    r
}

/// Appends copies of the polynomials of `src` to `dst`.
pub(crate) fn extend_polys(dst: &mut Vec<MultilinearPolynomial>, src: &Vec<MultilinearPolynomial>)
    ensures
        tables(final(dst)@) == tables(old(dst)@) + tables(src@),
        final(dst).len() == old(dst).len() + src.len(),
{
    let ghost start = tables(dst@);
    for i in 0..src.len()
        invariant
            tables(dst@) == start + tables(src@).take(i as int),
            dst.len() == start.len() + i,
    {
        let ghost before = dst@;
        let c = copy_poly(&src[i]);
        assert(c.table() == src@[i as int].table());
        dst.push(c);
        assert(tables(dst@) =~= tables(before).push(c.table()));
        assert(tables(src@).take(i + 1) =~= tables(src@).take(i as int).push(src@[i as int].table()));
        assert(tables(dst@) =~= start + tables(src@).take(i + 1));
    }
    assert(tables(src@).take(src.len() as int) =~= tables(src@));
}

/// The value left in a table once every challenge is fixed.
pub open spec fn final_value(t: Seq<nat>, rs: Seq<nat>) -> nat {
    bind_all(t, rs)[0]
}

/// The outcome of the Plonkish sum-check: the round messages, the running
/// claims, the challenges and the values of every table at the challenge point.
#[derive(Clone, Debug)]
pub struct PlonkishSumcheckResult {
    pub polys: Vec<UniPoly>,
    pub claims_per_round: Vec<Scalar>,
    pub challenge_points: Vec<Scalar>,
    pub v_l: Scalar,
    pub v_r: Scalar,
    pub v_o: Scalar,
    pub v_m: Scalar,
    pub v_c: Scalar,
    pub v_a: Scalar,
    pub v_b: Scalar,
    pub v_zc: Scalar,
    pub eq: Scalar,
}

/// The tables of the Plonkish sum-check in the order the combiner reads them.
pub open spec fn plonkish_tables(
    q_l: Seq<nat>,
    q_r: Seq<nat>,
    q_o: Seq<nat>,
    q_m: Seq<nat>,
    q_c: Seq<nat>,
    z_a: Seq<nat>,
    z_b: Seq<nat>,
    z_c: Seq<nat>,
    eq: Seq<nat>,
) -> Seq<Seq<nat>> {
    seq![q_l, q_r, q_o, q_m, q_c, z_a, z_b, z_c, eq]
}

/// What the Plonkish sum-check hands back for the tables `ts0` (in the order
/// of `plonkish_tables`), starting from the transcript state `st` and the
/// claim `claim`: one round per variable of `z_a`, the round messages and
/// claims of an honest run, and the value of every table at the challenges.
#[verifier::opaque]
pub open spec fn plonkish_outcome(ts0: Seq<Seq<nat>>, st: Seq<u8>, claim: nat, r: PlonkishSumcheckResult) -> bool {
    let n = r.challenge_points.len();
    let rs = values(r.challenge_points@);
    &&& pow2(n as nat) == ts0[5].len()
    &&& sumcheck_run(ts0, 4, Combiner::Plonkish, st, n as nat, claim, poly_values(r.polys@), values(r.claims_per_round@), rs)
    &&& r.v_l@ == final_value(ts0[0], rs)
    &&& r.v_r@ == final_value(ts0[1], rs)
    &&& r.v_o@ == final_value(ts0[2], rs)
    &&& r.v_m@ == final_value(ts0[3], rs)
    &&& r.v_c@ == final_value(ts0[4], rs)
    &&& r.v_a@ == final_value(ts0[5], rs)
    &&& r.v_b@ == final_value(ts0[6], rs)
    &&& r.v_zc@ == final_value(ts0[7], rs)
    &&& r.eq@ == final_value(ts0[8], rs)
}

/// Proves `claim = sum_x eq(x) (q_l z_a + q_r z_b + q_o z_c + q_m z_a z_b + q_c)(x)`
/// by sum-check with rounds of degree four, one round per variable of `z_a`.
pub fn prove_plonkish_sumcheck(
    claim: &Scalar,
    q_l: &mut MultilinearPolynomial,
    q_r: &mut MultilinearPolynomial,
    q_o: &mut MultilinearPolynomial,
    q_m: &mut MultilinearPolynomial,
    q_c: &mut MultilinearPolynomial,
    z_a: &mut MultilinearPolynomial,
    z_b: &mut MultilinearPolynomial,
    z_c: &mut MultilinearPolynomial,
    eq_poly: &mut MultilinearPolynomial,
    transcript: &mut Transcript,
) -> (r: PlonkishSumcheckResult)
    requires
        1 <= old(z_a).evaluation_over_boolean_hypercube.len() <= usize::MAX / 2 + 1,
        fits_rounds(
            plonkish_tables(old(q_l).table(), old(q_r).table(), old(q_o).table(), old(q_m).table(), old(q_c).table(),
                old(z_a).table(), old(z_b).table(), old(z_c).table(), old(eq_poly).table()),
            old(z_a).evaluation_over_boolean_hypercube.len() as nat,
        ),
    ensures
        ({
            let ts0 = plonkish_tables(old(q_l).table(), old(q_r).table(), old(q_o).table(), old(q_m).table(),
                old(q_c).table(), old(z_a).table(), old(z_b).table(), old(z_c).table(), old(eq_poly).table());
            let n = r.challenge_points.len();
            let rs = values(r.challenge_points@);
            &&& plonkish_outcome(ts0, old(transcript)@, claim@, r)
            &&& final(transcript)@ == state_before(ts0, rs, 4, Combiner::Plonkish, old(transcript)@, n as nat)
            &&& final(q_l).table() == bind_all(old(q_l).table(), rs)
            &&& final(q_r).table() == bind_all(old(q_r).table(), rs)
            &&& final(q_o).table() == bind_all(old(q_o).table(), rs)
            &&& final(q_m).table() == bind_all(old(q_m).table(), rs)
            &&& final(q_c).table() == bind_all(old(q_c).table(), rs)
            &&& final(z_a).table() == bind_all(old(z_a).table(), rs)
            &&& final(z_b).table() == bind_all(old(z_b).table(), rs)
            &&& final(z_c).table() == bind_all(old(z_c).table(), rs)
            &&& final(eq_poly).table() == bind_all(old(eq_poly).table(), rs)
        }),
{
    proof {
        reveal(plonkish_outcome);
    }
    let ghost ts0 = plonkish_tables(q_l.table(), q_r.table(), q_o.table(), q_m.table(), q_c.table(),
        z_a.table(), z_b.table(), z_c.table(), eq_poly.table());
    let num_rounds = rounds_for(z_a.len(), Ghost(ts0));
    let mut ps: Vec<MultilinearPolynomial> = Vec::new();
    ps.push(copy_poly(q_l));
    ps.push(copy_poly(q_r));
    ps.push(copy_poly(q_o));
    ps.push(copy_poly(q_m));
    ps.push(copy_poly(q_c));
    ps.push(copy_poly(z_a));
    ps.push(copy_poly(z_b));
    ps.push(copy_poly(z_c));
    ps.push(copy_poly(eq_poly));
    assert(tables(ps@) =~= ts0);
    let (polys, claims_per_round, r) = run_sumcheck(&mut ps, claim, 4, &Combiner::Plonkish, num_rounds, transcript);
    let ghost rs = values(r@);
    assert(rs.take(num_rounds as int) =~= rs);
    assert(tables(ps@)[0] == bind_all(ts0[0], rs));
    *q_l = copy_poly(&ps[0]);
    *q_r = copy_poly(&ps[1]);
    *q_o = copy_poly(&ps[2]);
    *q_m = copy_poly(&ps[3]);
    *q_c = copy_poly(&ps[4]);
    *z_a = copy_poly(&ps[5]);
    *z_b = copy_poly(&ps[6]);
    *z_c = copy_poly(&ps[7]);
    *eq_poly = copy_poly(&ps[8]);
    proof {
        assert(tables(ps@)[1] == bind_all(ts0[1], rs));
        assert(tables(ps@)[2] == bind_all(ts0[2], rs));
        assert(tables(ps@)[3] == bind_all(ts0[3], rs));
        assert(tables(ps@)[4] == bind_all(ts0[4], rs));
        assert(tables(ps@)[5] == bind_all(ts0[5], rs));
        assert(tables(ps@)[6] == bind_all(ts0[6], rs));
        assert(tables(ps@)[7] == bind_all(ts0[7], rs));
        assert(tables(ps@)[8] == bind_all(ts0[8], rs));
        lemma_bound_len(tables(ps@));
    }
    PlonkishSumcheckResult {
        polys,
        claims_per_round,
        challenge_points: r,
        v_l: q_l.get(0),
        v_r: q_r.get(0),
        v_o: q_o.get(0),
        v_m: q_m.get(0),
        v_c: q_c.get(0),
        v_a: z_a.get(0),
        v_b: z_b.get(0),
        v_zc: z_c.get(0),
        eq: eq_poly.get(0),
    }
}

} // verus!

verus! {

/// All entries but the first.
fn drop_first(v: &Vec<Scalar>) -> (r: Vec<Scalar>)
    requires
        v.len() >= 1,
    ensures
        r@ == v@.drop_first(),
{
    let mut r: Vec<Scalar> = Vec::new();
    for i in 1..v.len()
        invariant
            r@ == v@.subrange(1, i as int),
    {
        r.push(v[i]);
        assert(r@ =~= v@.subrange(1, i + 1));
    }
    r
}

/// The values left in each table once every challenge is fixed.
pub open spec fn final_values(ts: Seq<Seq<nat>>, rs: Seq<nat>) -> Seq<nat> {
    ts.map_values(|t: Seq<nat>| final_value(t, rs))
}

/// The tables with every challenge fixed.
pub open spec fn bound_tables(ts: Seq<Seq<nat>>, rs: Seq<nat>) -> Seq<Seq<nat>> {
    ts.map_values(|t: Seq<nat>| bind_all(t, rs))
}

/// The first entry of each polynomial.
fn first_entries(v: &Vec<MultilinearPolynomial>) -> (r: Vec<Scalar>)
    requires
        forall|j: int| 0 <= j < v.len() ==> (#[trigger] tables(v@)[j]).len() >= 1,
    ensures
        values(r@) == tables(v@).map_values(|t: Seq<nat>| t[0]),
{
    let mut r: Vec<Scalar> = Vec::new();
    for j in 0..v.len()
        invariant
            forall|jj: int| 0 <= jj < v.len() ==> (#[trigger] tables(v@)[jj]).len() >= 1,
            values(r@) == tables(v@).map_values(|t: Seq<nat>| t[0]).take(j as int),
    {
        assert(tables(v@)[j as int] == v@[j as int].table());
        let ghost before = r@;
        let x = v[j].get(0);
        assert(x@ == tables(v@)[j as int][0]);
        r.push(x);
        assert(values(r@) =~= values(before).push(x@));
        assert(values(r@) =~= tables(v@).map_values(|t: Seq<nat>| t[0]).take(j + 1));
    }
    assert(tables(v@).map_values(|t: Seq<nat>| t[0]).take(v.len() as int) =~= tables(v@).map_values(|t: Seq<nat>| t[0]));
    r
}

proof fn lemma_round_tables_full(ts0: Seq<Seq<nat>>, rs: Seq<nat>)
    ensures
        round_tables(ts0, rs, rs.len()) == bound_tables(ts0, rs),
{
    assert(rs.take(rs.len() as int) =~= rs);
    assert(round_tables(ts0, rs, rs.len()) =~= bound_tables(ts0, rs));
}

/// The outcome of the address sum-check.
#[derive(Clone, Debug)]
pub struct AddrMSumcheckResult {
    pub polys: Vec<UniPoly>,
    pub claims_per_round: Vec<Scalar>,
    pub challenge_points: Vec<Scalar>,
    pub addr_a_evals: Vec<Scalar>,
    pub addr_b_evals: Vec<Scalar>,
    pub addr_c_evals: Vec<Scalar>,
    pub z_eval: Scalar,
    pub w_eval: Scalar,
}

/// The tables of the address sum-check in the order the combiner reads them.
pub open spec fn addr_tables(a: Seq<Seq<nat>>, b: Seq<Seq<nat>>, c: Seq<Seq<nat>>, z: Seq<nat>, eq: Seq<nat>) -> Seq<Seq<nat>> {
    a + b + c + seq![z, eq]
}

/// What the address sum-check hands back for the address tables `a`, `b`,
/// `c`, the wire table `z`, the equality table `eq` and the witness table
/// `w`, starting from the transcript state `st` and the claim `claim`.
#[verifier::opaque]
pub open spec fn addr_outcome(
    a: Seq<Seq<nat>>,
    b: Seq<Seq<nat>>,
    c: Seq<Seq<nat>>,
    z: Seq<nat>,
    eq: Seq<nat>,
    w: Seq<nat>,
    dimension: usize,
    rho: Scalar,
    st: Seq<u8>,
    claim: nat,
    r: AddrMSumcheckResult,
) -> bool {
    let ts0 = addr_tables(a, b, c, z, eq);
    let comb = Combiner::Addr { dimension, rho };
    let n = r.challenge_points.len();
    let rs = values(r.challenge_points@);
    &&& pow2(n as nat) == a[0].len()
    &&& sumcheck_run(ts0, (dimension + 2) as nat, comb, st, n as nat, claim, poly_values(r.polys@), values(r.claims_per_round@), rs)
    &&& values(r.addr_a_evals@) == final_values(a, rs)
    &&& values(r.addr_b_evals@) == final_values(b, rs)
    &&& values(r.addr_c_evals@) == final_values(c, rs)
    &&& r.z_eval@ == final_value(z, rs)
    &&& r.w_eval@ == final_value(w, after_first(rs))
}

/// The challenges after the first one (none when there are none).
pub open spec fn after_first(rs: Seq<nat>) -> Seq<nat> {
    if rs.len() == 0 {
        rs
    } else {
        rs.drop_first()
    }
}

/// The witness table has half the length of the address tables, or both
/// have a single entry.
pub open spec fn witness_fits(wlen: nat, len: nat) -> bool {
    2 * wlen == len || (len == 1 && wlen == 1)
}

/// Proves `claim = sum_x z(x) eq(x) (prod_i a_i(x) + rho prod_i b_i(x) + rho^2 prod_i c_i(x))`
/// for the one-hot address tables `a`, `b`, `c` by sum-check with rounds of
/// degree `dimension + 2`, one round per variable of `addr_a[0]` (none for
/// tables of one entry). Also evaluates the witness polynomial at the
/// challenges after the first.
#[verifier::rlimit(60)]
pub fn prove_addr_sumcheck(
    dimension: usize,
    claim: &Scalar,
    rho: &Scalar,
    eq_poly: &mut MultilinearPolynomial,
    addr_a: &mut Vec<MultilinearPolynomial>,
    addr_b: &mut Vec<MultilinearPolynomial>,
    addr_c: &mut Vec<MultilinearPolynomial>,
    padded_z: &mut MultilinearPolynomial,
    witness_polynomial: &MultilinearPolynomial,
    transcript: &mut Transcript,
) -> (r: AddrMSumcheckResult)
    requires
        old(addr_a).len() >= 1,
        1 <= old(addr_a)@[0].evaluation_over_boolean_hypercube.len() <= usize::MAX / 2 + 1,
        old(addr_a).len() + old(addr_b).len() + old(addr_c).len() >= 3 * dimension,
        3 * dimension + 2 <= usize::MAX,
        fits_rounds(
            addr_tables(tables(old(addr_a)@), tables(old(addr_b)@), tables(old(addr_c)@), old(padded_z).table(), old(eq_poly).table()),
            old(addr_a)@[0].evaluation_over_boolean_hypercube.len() as nat,
        ),
        witness_fits(
            witness_polynomial.evaluation_over_boolean_hypercube.len() as nat,
            old(addr_a)@[0].evaluation_over_boolean_hypercube.len() as nat,
        ),
    ensures
        ({
            let ts0 = addr_tables(tables(old(addr_a)@), tables(old(addr_b)@), tables(old(addr_c)@), old(padded_z).table(), old(eq_poly).table());
            let comb = Combiner::Addr { dimension, rho: *rho };
            let n = r.challenge_points.len();
            let rs = values(r.challenge_points@);
            &&& addr_outcome(tables(old(addr_a)@), tables(old(addr_b)@), tables(old(addr_c)@), old(padded_z).table(),
                old(eq_poly).table(), witness_polynomial.table(), dimension, *rho, old(transcript)@, claim@, r)
            &&& final(transcript)@ == state_before(ts0, rs, (dimension + 2) as nat, comb, old(transcript)@, n as nat)
            &&& tables(final(addr_a)@) == bound_tables(tables(old(addr_a)@), rs)
            &&& tables(final(addr_b)@) == bound_tables(tables(old(addr_b)@), rs)
            &&& tables(final(addr_c)@) == bound_tables(tables(old(addr_c)@), rs)
            &&& final(padded_z).table() == bind_all(old(padded_z).table(), rs)
            &&& final(eq_poly).table() == bind_all(old(eq_poly).table(), rs)
        }),
{
    proof {
        reveal(addr_outcome);
    }
    let ghost ts0 = addr_tables(tables(addr_a@), tables(addr_b@), tables(addr_c@), padded_z.table(), eq_poly.table());
    let num_rounds = rounds_for(addr_a[0].len(), Ghost(ts0));
    let la = addr_a.len();
    let lb = addr_b.len();
    let lc = addr_c.len();
    let mut ps: Vec<MultilinearPolynomial> = Vec::new();
    extend_polys(&mut ps, addr_a);
    extend_polys(&mut ps, addr_b);
    extend_polys(&mut ps, addr_c);
    ps.push(copy_poly(padded_z));
    ps.push(copy_poly(eq_poly));
    assert(tables(ps@) =~= ts0);
    let comb = Combiner::Addr { dimension, rho: *rho };
    let (polys, claims_per_round, r) = run_sumcheck(&mut ps, claim, dimension + 2, &comb, num_rounds, transcript);
    let ghost rs = values(r@);
    proof {
        lemma_round_tables_full(ts0, rs);
        lemma_bound_len(tables(ps@));
    }
    *addr_a = copy_range(&ps, 0, la);
    *addr_b = copy_range(&ps, la, la + lb);
    *addr_c = copy_range(&ps, la + lb, la + lb + lc);
    *padded_z = copy_poly(&ps[la + lb + lc]);
    *eq_poly = copy_poly(&ps[la + lb + lc + 1]);
    proof {
        let bt = bound_tables(ts0, rs);
        assert(tables(addr_a@) =~= bound_tables(tables(old(addr_a)@), rs));
        assert(tables(addr_b@) =~= bound_tables(tables(old(addr_b)@), rs));
        assert(tables(addr_c@) =~= bound_tables(tables(old(addr_c)@), rs));
        assert(tables(ps@)[la + lb + lc] == bt[la + lb + lc]);
        assert(tables(ps@)[la + lb + lc + 1] == bt[la + lb + lc + 1]);
    }
    let addr_a_evals = first_entries(addr_a);
    let addr_b_evals = first_entries(addr_b);
    let addr_c_evals = first_entries(addr_c);
    proof {
        assert(values(addr_a_evals@) =~= final_values(tables(old(addr_a)@), rs));
        assert(values(addr_b_evals@) =~= final_values(tables(old(addr_b)@), rs));
        assert(values(addr_c_evals@) =~= final_values(tables(old(addr_c)@), rs));
        vstd::arithmetic::power2::lemma2_to64();
        if num_rounds >= 1 {
            vstd::arithmetic::power2::lemma_pow2_unfold(num_rounds as nat);
        }
    }
    let tail = if r.len() > 0 {
        drop_first(&r)
    } else {
        Vec::new()
    };
    assert(values(tail@) =~= after_first(rs));
    let w_eval = witness_polynomial.evaluate(tail.as_slice());
    AddrMSumcheckResult {
        polys,
        claims_per_round,
        challenge_points: r,
        addr_a_evals,
        addr_b_evals,
        addr_c_evals,
        z_eval: padded_z.get(0),
        w_eval,
    }
}

} // verus!

verus! {

/// The outcome of the rerandomization sum-check over four equality tables.
#[derive(Clone, Debug)]
pub struct RerandomizationEvaluationResult {
    pub polys: Vec<UniPoly>,
    pub claims_per_round: Vec<Scalar>,
    pub challenge_points: Vec<Scalar>,
    pub prev_poly_v: Scalar,
    pub plonk_poly_v: Scalar,
    pub addr_poly_v: Scalar,
}

/// Proves `claim = sum_x sum_{i < 4} sigma^i eq_i(x) p_i(x)` where
/// `p = [prev, plonkish, addr, z]`, by sum-check with rounds of degree two,
/// one round per variable of `prev_poly`.
#[verifier::rlimit(60)]
pub fn prove_rerandomization_sumcheck(
    claim: &Scalar,
    eq_polys: &mut Vec<MultilinearPolynomial>,
    prev_poly: &mut MultilinearPolynomial,
    plonkish_poly: &mut MultilinearPolynomial,
    addr_poly: &mut MultilinearPolynomial,
    z_poly: &mut MultilinearPolynomial,
    sigma: &Scalar,
    transcript: &mut Transcript,
) -> (r: RerandomizationEvaluationResult)
    requires
        old(eq_polys).len() >= 4,
        1 <= old(prev_poly).evaluation_over_boolean_hypercube.len() <= usize::MAX / 2 + 1,
        fits_rounds(
            tables(old(eq_polys)@) + seq![old(prev_poly).table(), old(plonkish_poly).table(), old(addr_poly).table(), old(z_poly).table()],
            old(prev_poly).evaluation_over_boolean_hypercube.len() as nat,
        ),
    ensures
        ({
            let ts0 = tables(old(eq_polys)@) + seq![old(prev_poly).table(), old(plonkish_poly).table(), old(addr_poly).table(), old(z_poly).table()];
            let comb = Combiner::Rerand { sigma: *sigma };
            let n = r.challenge_points.len();
            let rs = values(r.challenge_points@);
            &&& pow2(n as nat) == old(prev_poly).evaluation_over_boolean_hypercube.len()
            &&& sumcheck_run(ts0, 2, comb, old(transcript)@, n as nat, claim@, poly_values(r.polys@), values(r.claims_per_round@), rs)
            &&& final(transcript)@ == state_before(ts0, rs, 2, comb, old(transcript)@, n as nat)
            &&& tables(final(eq_polys)@) == bound_tables(tables(old(eq_polys)@), rs)
            &&& final(prev_poly).table() == bind_all(old(prev_poly).table(), rs)
            &&& final(plonkish_poly).table() == bind_all(old(plonkish_poly).table(), rs)
            &&& final(addr_poly).table() == bind_all(old(addr_poly).table(), rs)
            &&& final(z_poly).table() == bind_all(old(z_poly).table(), rs)
            &&& r.prev_poly_v@ == final_value(old(prev_poly).table(), rs)
            &&& r.plonk_poly_v@ == final_value(old(plonkish_poly).table(), rs)
            &&& r.addr_poly_v@ == final_value(old(addr_poly).table(), rs)
        }),
{
    let ghost ts0 = tables(eq_polys@) + seq![prev_poly.table(), plonkish_poly.table(), addr_poly.table(), z_poly.table()];
    let num_rounds = rounds_for(prev_poly.len(), Ghost(ts0));
    let m = eq_polys.len();
    let mut ps: Vec<MultilinearPolynomial> = Vec::new();
    extend_polys(&mut ps, eq_polys);
    ps.push(copy_poly(prev_poly));
    ps.push(copy_poly(plonkish_poly));
    ps.push(copy_poly(addr_poly));
    ps.push(copy_poly(z_poly));
    assert(tables(ps@) =~= ts0);
    let comb = Combiner::Rerand { sigma: *sigma };
    let (polys, claims_per_round, r) = run_sumcheck(&mut ps, claim, 2, &comb, num_rounds, transcript);
    let ghost rs = values(r@);
    proof {
        lemma_round_tables_full(ts0, rs);
        lemma_bound_len(tables(ps@));
    }
    *eq_polys = copy_range(&ps, 0, m);
    *prev_poly = copy_poly(&ps[m]);
    *plonkish_poly = copy_poly(&ps[m + 1]);
    *addr_poly = copy_poly(&ps[m + 2]);
    *z_poly = copy_poly(&ps[m + 3]);
    proof {
        let bt = bound_tables(ts0, rs);
        assert(tables(eq_polys@) =~= bound_tables(tables(old(eq_polys)@), rs));
        assert(tables(ps@)[m as int] == bt[m as int]);
        assert(tables(ps@)[m + 1] == bt[m + 1]);
        assert(tables(ps@)[m + 2] == bt[m + 2]);
        assert(tables(ps@)[m + 3] == bt[m + 3]);
    }
    RerandomizationEvaluationResult {
        polys,
        claims_per_round,
        challenge_points: r,
        prev_poly_v: prev_poly.get(0),
        plonk_poly_v: plonkish_poly.get(0),
        addr_poly_v: addr_poly.get(0),
    }
}

/// The outcome of the random-combination sum-check.
#[derive(Clone, Debug)]
pub struct RerandSumcheckEvaluationResult {
    /// the round messages (univariates of degree two)
    pub polys: Vec<UniPoly>,
    /// the running claim at the start and after each round
    pub claims_per_round: Vec<Scalar>,
    /// the challenges, one per round
    pub challenge_points: Vec<Scalar>,
    /// the final value of every equality table, then of every target table
    pub final_poly_values: Vec<Scalar>,
    pub sigma: Scalar,
}

/// All tables have length `len`.
pub open spec fn all_len(ts: Seq<Seq<nat>>, len: nat) -> bool {
    forall|j: int| 0 <= j < ts.len() ==> (#[trigger] ts[j]).len() == len
}

/// What the random-combination sum-check hands back for the equality tables
/// `eqs` and the target tables `ps`, starting from the transcript state `st`
/// and the claim `claim`.
#[verifier::opaque]
pub open spec fn random_combination_outcome(
    eqs: Seq<Seq<nat>>,
    ps: Seq<Seq<nat>>,
    sigma: Scalar,
    st: Seq<u8>,
    claim: nat,
    r: RerandSumcheckEvaluationResult,
) -> bool {
    let ts0 = eqs + ps;
    let comb = Combiner::RandomCombination { m: eqs.len() as usize, sigma };
    let n = r.challenge_points.len();
    let rs = values(r.challenge_points@);
    &&& pow2(n as nat) == eqs[0].len()
    &&& sumcheck_run(ts0, 2, comb, st, n as nat, claim, poly_values(r.polys@), values(r.claims_per_round@), rs)
    &&& values(r.final_poly_values@) == final_values(ts0, rs)
    &&& r.sigma == sigma
}

/// Proves `claim = sum_x sum_i sigma^i eq_i(x) p_i(x)` by sum-check with
/// rounds of degree two over tables that all have the same power-of-two length.
#[verifier::rlimit(60)]
pub fn prove_random_combination_sumcheck(
    claim: &Scalar,
    eq_polys: &mut Vec<MultilinearPolynomial>,
    polys: &mut Vec<MultilinearPolynomial>,
    sigma: &Scalar,
    transcript: &mut Transcript,
) -> (r: RerandSumcheckEvaluationResult)
    requires
        old(eq_polys).len() >= 1,
        old(polys).len() == old(eq_polys).len(),
        2 * old(eq_polys).len() <= usize::MAX,
        1 <= old(eq_polys)@[0].evaluation_over_boolean_hypercube.len() <= usize::MAX / 2 + 1,
        exists|e: nat| pow2(e) == old(eq_polys)@[0].evaluation_over_boolean_hypercube.len(),
        all_len(tables(old(eq_polys)@) + tables(old(polys)@), old(eq_polys)@[0].evaluation_over_boolean_hypercube.len() as nat),
    ensures
        ({
            let ts0 = tables(old(eq_polys)@) + tables(old(polys)@);
            let comb = Combiner::RandomCombination { m: old(eq_polys).len(), sigma: *sigma };
            let n = r.challenge_points.len();
            let rs = values(r.challenge_points@);
            &&& random_combination_outcome(tables(old(eq_polys)@), tables(old(polys)@), *sigma, old(transcript)@, claim@, r)
            &&& final(transcript)@ == state_before(ts0, rs, 2, comb, old(transcript)@, n as nat)
            &&& tables(final(eq_polys)@) == bound_tables(tables(old(eq_polys)@), rs)
            &&& tables(final(polys)@) == bound_tables(tables(old(polys)@), rs)
        }),
{
    proof {
        reveal(random_combination_outcome);
    }
    let ghost ts0 = tables(eq_polys@) + tables(polys@);
    let m = eq_polys.len();
    let len0 = eq_polys[0].len();
    proof {
        assert(ts0[0] == eq_polys@[0].table());
        assert forall|j: int| 0 <= j < ts0.len() implies (exists|e: nat| pow2(e) == (#[trigger] ts0[j]).len()) && ts0[j].len() >= len0 by {
            assert(ts0[j].len() == len0);
        }
        assert(fits_rounds(ts0, len0 as nat));
    }
    let num_rounds = rounds_for(len0, Ghost(ts0));
    let mut ps: Vec<MultilinearPolynomial> = Vec::new();
    extend_polys(&mut ps, eq_polys);
    extend_polys(&mut ps, polys);
    assert(tables(ps@) =~= ts0);
    let comb = Combiner::RandomCombination { m, sigma: *sigma };
    let (unis, claims_per_round, r) = run_sumcheck(&mut ps, claim, 2, &comb, num_rounds, transcript);
    let ghost rs = values(r@);
    proof {
        lemma_round_tables_full(ts0, rs);
        lemma_bound_len(tables(ps@));
    }
    *eq_polys = copy_range(&ps, 0, m);
    *polys = copy_range(&ps, m, 2 * m);
    let final_vals = first_entries(&ps);
    proof {
        assert(tables(eq_polys@) =~= bound_tables(tables(old(eq_polys)@), rs));
        assert(tables(polys@) =~= bound_tables(tables(old(polys)@), rs));
        assert(values(final_vals@) =~= final_values(ts0, rs));
    }
    RerandSumcheckEvaluationResult {
        polys: unis,
        claims_per_round,
        challenge_points: r,
        final_poly_values: final_vals,
        sigma: *sigma,
    }
}

} // verus!

verus! {

/// Fixing `s.len() <= m` variables of a table of `2^m` entries leaves
/// `2^(m - s.len())` entries.
pub(crate) proof fn lemma_bind_all_len(t: Seq<nat>, s: Seq<nat>, m: nat)
    requires
        t.len() == pow2(m),
        s.len() <= m,
    ensures
        bind_all(t, s).len() == pow2((m - s.len()) as nat),
    decreases s.len(),
{
    if s.len() > 0 {
        vstd::arithmetic::power2::lemma_pow2_unfold(m);
        lemma_bind_all_len(bind_top(t, s[0]), s.drop_first(), (m - 1) as nat);
    }
}

/// With `i` challenges fixed, tables of `2^n` field values hold `2^(n - i)`
/// field values.
pub(crate) proof fn lemma_round_tables_uniform(ts0: Seq<Seq<nat>>, rs: Seq<nat>, n: nat, i: nat)
    requires
        uniform_tables(ts0, pow2(n)),
        i <= n,
        i <= rs.len(),
    ensures
        uniform_tables(round_tables(ts0, rs, i), pow2((n - i) as nat)),
{
    let ts = round_tables(ts0, rs, i);
    let len = pow2((n - i) as nat);
    assert(rs.take(i as int).len() == i);
    assert forall|j: int| 0 <= j < ts.len() implies (#[trigger] ts[j]).len() == len && forall|x: int|
        0 <= x < len ==> #[trigger] ts[j][x] < crate::field::modulus() by {
        let t0 = ts0[j];
        assert(t0.len() == pow2(n));
        lemma_bind_all_len(t0, rs.take(i as int), n);
        assert(crate::mle::canonical_table(t0)) by {
            assert forall|x: int| 0 <= x < t0.len() implies #[trigger] t0[x] < crate::field::modulus() by {
                assert(ts0[j][x] < crate::field::modulus());
            }
        }
        crate::mle::lemma_bind_all_canonical(t0, rs.take(i as int));
        assert(ts[j] == bind_all(t0, rs.take(i as int)));
    }
}

/// Every round message of an honest run answers the sum over the current
/// tables: for tables of `2^n` field values, the values at `X = 0` and
/// `X = 1` of the message of round `i < n` add up to the sum over the
/// hypercube of the combined tables with the first `i` challenges fixed.
/// In round zero that sum is the claim the run starts from, when the claim
/// is honest.
pub proof fn lemma_round_messages_answer_current_sum(
    ts0: Seq<Seq<nat>>,
    d: nat,
    comb: Combiner,
    st0: Seq<u8>,
    n: nat,
    claim: nat,
    polys: Seq<Seq<nat>>,
    claims: Seq<nat>,
    rs: Seq<nat>,
    i: nat,
)
    requires
        sumcheck_run(ts0, d, comb, st0, n, claim, polys, claims, rs),
        ts0.len() > 0,
        uniform_tables(ts0, pow2(n)),
        d >= 1,
        i < n,
    ensures
        fadd(polys[i as int][0], polys[i as int][1]) == hypercube_sum(round_tables(ts0, rs, i), comb),
        i == 0 ==> round_tables(ts0, rs, i) == ts0,
{
    let ts = round_tables(ts0, rs, i);
    let len = pow2((n - i) as nat);
    assert(polys[i as int] == round_poly(ts0, rs, i, d, comb));
    lemma_round_tables_uniform(ts0, rs, n, i);
    vstd::arithmetic::power2::lemma_pow2_unfold((n - i) as nat);
    vstd::arithmetic::power2::lemma_pow2_pos((n - i - 1) as nat);
    crate::sumcheck_utils::lemma_round_consistency(ts, len, d, comb);
    if i == 0 {
        assert(rs.take(0) =~= Seq::<nat>::empty());
        assert(ts =~= ts0);
    }
}

} // verus!
