//! Rank-one constraint systems over the scalar field: building a padded
//! instance from sparse matrices and checking an assignment against it.
use crate::field::{fadd, fmul, values, Scalar};
use vstd::prelude::*;

verus! {

/// The errors of building or checking an R1CS instance.
#[derive(Clone, Copy, Debug, PartialEq, Eq, Structural)]
pub enum R1CSError {
    /// A matrix entry names a row or a column outside the instance.
    InvalidIndex,
    /// An assignment does not have the length the instance expects.
    InvalidNumberOfInputs,
}

/// A sparse matrix entry `(row, column, value)` taken by its value.
pub open spec fn entry_view(e: (usize, usize, Scalar)) -> (nat, nat, nat) {
    (e.0 as nat, e.1 as nat, e.2@)
}

/// The entries of a sparse matrix taken by their values.
pub open spec fn entries_view(m: Seq<(usize, usize, Scalar)>) -> Seq<(nat, nat, nat)> {
    m.map_values(|e: (usize, usize, Scalar)| entry_view(e))
}

/// The `row`-th coordinate of the product of a sparse matrix with the vector `z`.
pub open spec fn row_dot(m: Seq<(nat, nat, nat)>, z: Seq<nat>, row: nat) -> nat
    decreases m.len(),
{
    if m.len() == 0 {
        0
    } else {
        let e = m.last();
        let rest = row_dot(m.drop_last(), z, row);
        if e.0 == row {
            fadd(rest, fmul(e.2, z[e.1 as int]))
        } else {
            rest
        }
    }
}

/// Every entry of `m` lies in a `num_rows` by `num_cols` matrix.
pub open spec fn entries_in_range(m: Seq<(nat, nat, nat)>, num_rows: nat, num_cols: nat) -> bool {
    forall|i: int| 0 <= i < m.len() ==> (#[trigger] m[i]).0 < num_rows && m[i].1 < num_cols
}

/// `(A z) * (B z) == C z` holds in each of the first `num_cons` rows.
pub open spec fn satisfies(
    a: Seq<(nat, nat, nat)>,
    b: Seq<(nat, nat, nat)>,
    c: Seq<(nat, nat, nat)>,
    num_cons: nat,
    z: Seq<nat>,
) -> bool {
    forall|r: nat| r < num_cons ==> fmul(#[trigger] row_dot(a, z, r), row_dot(b, z, r)) == row_dot(c, z, r)
}

/// The vector `vars || 1 || inputs` that the matrices multiply.
pub open spec fn z_vector(vars: Seq<nat>, inputs: Seq<nat>) -> Seq<nat> {
    vars + seq![1nat] + inputs
}

/// The least power of two that is at least `n`, searched upwards from `p`.
pub open spec fn next_pow2_from(n: nat, p: nat) -> nat
    decreases (if p < n { n - p } else { 0 }),
{
    if p >= n || p == 0 {
        p
    } else {
        next_pow2_from(n, 2 * p)
    }
}

/// The least power of two that is at least `n` (one for zero).
pub open spec fn next_pow2(n: nat) -> nat {
    next_pow2_from(n, 1)
}

/// The least power of two that is at least `n`, as `usize::next_power_of_two` computes it.
pub fn next_power_of_two(n: usize) -> (r: usize)
    requires
        n <= usize::MAX / 2 + 1,
    ensures
        r as nat == next_pow2(n as nat),
        r >= n,
        r >= 1,
        n >= 1 ==> r < 2 * n,
{
    let mut p: usize = 1;
    while p < n
        invariant
            p >= 1,
            n <= usize::MAX / 2 + 1,
            next_pow2_from(n as nat, p as nat) == next_pow2(n as nat),
            p == 1 || p < 2 * n,
        decreases 2 * n - p,
    {
        p = p * 2;
    }
    p
}

/// A fresh vector holding the elements of a slice.
pub fn copy_slice<T: Copy>(s: &[T]) -> (r: Vec<T>)
    ensures
        r@ == s@,
{
    let mut r: Vec<T> = Vec::new();
    for i in 0..s.len()
        invariant
            r@ == s@.take(i as int),
    {
        r.push(s[i]);
        assert(s@.take(i + 1) =~= s@.take(i as int).push(s@[i as int]));
    }
    assert(s@.take(s.len() as int) =~= s@);
    r
}

/// Appends copies of the elements of `src` to `dst`.
pub(crate) fn append_copies<T: Copy>(dst: &mut Vec<T>, src: &[T])
    ensures
        final(dst)@ == old(dst)@ + src@,
{
    let ghost start = dst@;
    for i in 0..src.len()
        invariant
            dst@ == start + src@.take(i as int),
    {
        dst.push(src[i]);
        assert(start + src@.take(i + 1) =~= (start + src@.take(i as int)).push(src@[i as int]));
    }
    assert(src@.take(src.len() as int) =~= src@);
}

/// A vector of `n` zero elements.
pub(crate) fn zeros(n: usize) -> (r: Vec<Scalar>)
    ensures
        r.len() == n,
        forall|i: int| 0 <= i < n ==> (#[trigger] r[i])@ == 0,
{
    let mut r: Vec<Scalar> = Vec::new();
    for i in 0..n
        invariant
            r.len() == i,
            forall|j: int| 0 <= j < i ==> (#[trigger] r[j])@ == 0,
    {
        r.push(Scalar::zero());
    }
    r
}

/// The product of a sparse matrix with `z`, a vector of `n` coordinates.
fn mat_vec(m: &Vec<(usize, usize, Scalar)>, z: &Vec<Scalar>, n: usize) -> (r: Vec<Scalar>)
    requires
        entries_in_range(entries_view(m@), n as nat, z.len() as nat),
    ensures
        r.len() == n,
        forall|i: int| 0 <= i < n ==> (#[trigger] r[i])@ == row_dot(entries_view(m@), values(z@), i as nat),
{
    let mut acc = zeros(n);
    let ghost mv = entries_view(m@);
    let ghost zv = values(z@);
    for i in 0..m.len()
        invariant
            mv == entries_view(m@),
            zv == values(z@),
            entries_in_range(mv, n as nat, z.len() as nat),
            acc.len() == n,
            forall|r: int| 0 <= r < n ==> (#[trigger] acc[r])@ == row_dot(mv.take(i as int), zv, r as nat),
    {
        let (row, col, val) = m[i];
        assert(mv[i as int] == entry_view(m@[i as int]));
        assert(mv[i as int].1 < z.len());
        assert(mv[i as int].0 < n);
        let term = val.mul(z[col]);
        let updated = acc[row].add(term);
        acc.set(row, updated);
        assert(mv.take(i + 1).drop_last() =~= mv.take(i as int));
        assert forall|r: int| 0 <= r < n implies (#[trigger] acc[r])@ == row_dot(mv.take(i + 1), zv, r as nat) by {
            assert(mv.take(i + 1).last() == mv[i as int]);
        }
    }
    assert(mv.take(m.len() as int) =~= mv);
    acc
}

/// An R1CS instance: `num_cons` constraints over `num_vars` witness variables
/// and `num_inputs` public inputs, given by three sparse matrices whose
/// columns index `vars || 1 || inputs`.
pub struct R1CSInstance {
    num_cons: usize,
    num_vars: usize,
    num_inputs: usize,
    a: Vec<(usize, usize, Scalar)>,
    b: Vec<(usize, usize, Scalar)>,
    c: Vec<(usize, usize, Scalar)>,
}

impl R1CSInstance {
    #[verifier::type_invariant]
    closed spec fn well_formed(self) -> bool {
        &&& self.num_vars + 1 + self.num_inputs <= usize::MAX
        &&& entries_in_range(entries_view(self.a@), self.num_cons as nat, self.num_cols())
        &&& entries_in_range(entries_view(self.b@), self.num_cons as nat, self.num_cols())
        &&& entries_in_range(entries_view(self.c@), self.num_cons as nat, self.num_cols())
    }

    /// The number of columns, `num_vars + 1 + num_inputs`.
    pub closed spec fn num_cols(self) -> nat {
        (self.num_vars + 1 + self.num_inputs) as nat
    }

    /// The number of constraints.
    pub closed spec fn spec_num_cons(self) -> nat {
        self.num_cons as nat
    }

    /// The number of witness variables.
    pub closed spec fn spec_num_vars(self) -> nat {
        self.num_vars as nat
    }

    /// The number of public inputs.
    pub closed spec fn spec_num_inputs(self) -> nat {
        self.num_inputs as nat
    }

    /// The entries of the `A` matrix.
    pub closed spec fn spec_a(self) -> Seq<(nat, nat, nat)> {
        entries_view(self.a@)
    }

    /// The entries of the `B` matrix.
    pub closed spec fn spec_b(self) -> Seq<(nat, nat, nat)> {
        entries_view(self.b@)
    }

    /// The entries of the `C` matrix.
    pub closed spec fn spec_c(self) -> Seq<(nat, nat, nat)> {
        entries_view(self.c@)
    }

    /// Whether `z` satisfies every constraint of this instance.
    pub open spec fn satisfied_by(self, z: Seq<nat>) -> bool {
        satisfies(self.spec_a(), self.spec_b(), self.spec_c(), self.spec_num_cons(), z)
    }

    /// Builds an instance from its dimensions and matrices.
    pub fn new(
        num_cons: usize,
        num_vars: usize,
        num_inputs: usize,
        a: &[(usize, usize, Scalar)],
        b: &[(usize, usize, Scalar)],
        c: &[(usize, usize, Scalar)],
    ) -> (r: R1CSInstance)
        requires
            num_vars + 1 + num_inputs <= usize::MAX,
            entries_in_range(entries_view(a@), num_cons as nat, (num_vars + 1 + num_inputs) as nat),
            entries_in_range(entries_view(b@), num_cons as nat, (num_vars + 1 + num_inputs) as nat),
            entries_in_range(entries_view(c@), num_cons as nat, (num_vars + 1 + num_inputs) as nat),
        ensures
            r.spec_num_cons() == num_cons,
            r.spec_num_vars() == num_vars,
            r.spec_num_inputs() == num_inputs,
            r.spec_a() == entries_view(a@),
            r.spec_b() == entries_view(b@),
            r.spec_c() == entries_view(c@),
    {
        R1CSInstance { num_cons, num_vars, num_inputs, a: copy_slice(a), b: copy_slice(b), c: copy_slice(c) }
    }

    /// The number of witness variables.
    pub fn get_num_vars(&self) -> (r: usize)
        ensures
            r == self.spec_num_vars(),
    {
        self.num_vars
    }

    /// The number of public inputs.
    pub fn get_num_inputs(&self) -> (r: usize)
        ensures
            r == self.spec_num_inputs(),
    {
        self.num_inputs
    }

    /// The number of constraints.
    pub fn get_num_cons(&self) -> (r: usize)
        ensures
            r == self.spec_num_cons(),
    {
        self.num_cons
    }

    /// Whether `vars || 1 || inputs` satisfies every constraint.
    pub fn is_sat(&self, vars: &[Scalar], inputs: &[Scalar]) -> (r: bool)
        requires
            vars.len() == self.spec_num_vars(),
            inputs.len() == self.spec_num_inputs(),
        ensures
            r == self.satisfied_by(z_vector(values(vars@), values(inputs@))),
    {
        proof {
            use_type_invariant(self);
        }
        let mut z: Vec<Scalar> = copy_slice(vars);
        z.push(Scalar::one());
        let mut k: usize = 0;
        while k < inputs.len()
            invariant
                k <= inputs.len(),
                z@ == vars@ + seq![z@[vars.len() as int]] + inputs@.take(k as int),
                z@[vars.len() as int]@ == 1,
            decreases inputs.len() - k,
        {
            z.push(inputs[k]);
            assert(inputs@.take(k + 1) =~= inputs@.take(k as int).push(inputs@[k as int]));
            k = k + 1;
        }
        assert(inputs@.take(inputs.len() as int) =~= inputs@);
        let ghost zv = z_vector(values(vars@), values(inputs@));
        assert(values(z@) =~= zv);
        let az = mat_vec(&self.a, &z, self.num_cons);
        let bz = mat_vec(&self.b, &z, self.num_cons);
        let cz = mat_vec(&self.c, &z, self.num_cons);
        let mut i: usize = 0;
        while i < self.num_cons
            invariant
                i <= self.num_cons,
                zv == z_vector(values(vars@), values(inputs@)),
                az.len() == self.num_cons && bz.len() == self.num_cons && cz.len() == self.num_cons,
                forall|j: int| 0 <= j < self.num_cons ==> (#[trigger] az[j])@ == row_dot(self.spec_a(), zv, j as nat),
                forall|j: int| 0 <= j < self.num_cons ==> (#[trigger] bz[j])@ == row_dot(self.spec_b(), zv, j as nat),
                forall|j: int| 0 <= j < self.num_cons ==> (#[trigger] cz[j])@ == row_dot(self.spec_c(), zv, j as nat),
                forall|r: nat| r < i ==> fmul(#[trigger] row_dot(self.spec_a(), zv, r), row_dot(self.spec_b(), zv, r)) == row_dot(self.spec_c(), zv, r),
            decreases self.num_cons - i,
        {
            let lhs = az[i].mul(bz[i]);
            if !lhs.equals(&cz[i]) {
                assert(fmul(row_dot(self.spec_a(), zv, i as nat), row_dot(self.spec_b(), zv, i as nat)) != row_dot(self.spec_c(), zv, i as nat));
                assert(!self.satisfied_by(zv));
                return false;
            }
            i = i + 1;
        }
        true
    }
}

} // verus!

verus! {

/// Values assigned to the witness variables or to the public inputs of an instance.
#[derive(Clone)]
pub struct Assignment {
    pub assignment: Vec<Scalar>,
}

/// An assignment to the witness variables of an instance.
pub type VarsAssignment = Assignment;

/// An assignment to the public inputs of an instance.
pub type InputsAssignment = Assignment;

impl Assignment {
    /// An assignment holding the given values.
    pub fn new(assignment: &[Scalar]) -> (r: Result<Assignment, R1CSError>)
        ensures
            r matches Ok(x) && x.assignment@ == assignment@,
    {
        Ok(Assignment { assignment: copy_slice(assignment) })
    }

    /// This assignment extended with zeros to length `len`.
    fn pad(&self, len: usize) -> (r: VarsAssignment)
        requires
            len > self.assignment.len(),
        ensures
            r.assignment.len() == len,
            values(r.assignment@) == values(self.assignment@) + Seq::new(
                (len - self.assignment.len()) as nat,
                |i: int| 0nat,
            ),
    {
        let mut padded = copy_slice(self.assignment.as_slice());
        let n = self.assignment.len();
        while padded.len() < len
            invariant
                n == self.assignment.len(),
                n <= padded.len() <= len,
                values(padded@) == values(self.assignment@) + Seq::new(
                    (padded.len() - n) as nat,
                    |i: int| 0nat,
                ),
            decreases len - padded.len(),
        {
            let ghost before = padded@;
            padded.push(Scalar::zero());
            assert(values(padded@) =~= values(before).push(0nat));
            assert(values(padded@) =~= values(self.assignment@) + Seq::new(
                (padded.len() - n) as nat,
                |i: int| 0nat,
            ));
        }
        VarsAssignment { assignment: padded }
    }
}

} // verus!

verus! {

/// The larger of two numbers.
pub open spec fn max_nat(a: nat, b: nat) -> nat {
    if a >= b {
        a
    } else {
        b
    }
}

/// The number of witness variables after padding: a power of two that
/// leaves room for the constant and the public inputs.
pub open spec fn num_vars_padded(num_vars: nat, num_inputs: nat) -> nat {
    next_pow2(max_nat(num_vars, num_inputs + 1))
}

/// The number of constraints after padding: a power of two, at least two.
pub open spec fn num_cons_padded(num_cons: nat) -> nat {
    if num_cons <= 1 {
        2
    } else {
        next_pow2(num_cons)
    }
}

/// An entry of a user matrix moved to the padded layout: input columns
/// (and the constant column) are shifted past the padded witness columns.
pub open spec fn remap_entry(e: (nat, nat, nat), num_vars: nat, nvp: nat) -> (nat, nat, nat) {
    if e.1 >= num_vars {
        (e.0, (e.1 + nvp - num_vars) as nat, e.2)
    } else {
        e
    }
}

/// The zero entries added to an instance with fewer than two constraints.
pub open spec fn padding_entries(count: nat, num_cons: nat, ncp: nat, num_vars: nat) -> Seq<
    (nat, nat, nat),
> {
    if num_cons <= 1 && count < ncp {
        Seq::new((ncp - count) as nat, |k: int| ((count + k) as nat, num_vars, 0nat))
    } else {
        Seq::empty()
    }
}

/// A user matrix as the padded instance holds it.
pub open spec fn padded_matrix(
    m: Seq<(nat, nat, nat)>,
    num_cons: nat,
    num_vars: nat,
    num_inputs: nat,
) -> Seq<(nat, nat, nat)> {
    m.map_values(|e: (nat, nat, nat)| remap_entry(e, num_vars, num_vars_padded(num_vars, num_inputs)))
        + padding_entries(m.len(), num_cons, num_cons_padded(num_cons), num_vars)
}

/// `v` extended with zeros to length `len`.
pub open spec fn pad_values(v: Seq<nat>, len: nat) -> Seq<nat> {
    v + Seq::new((len - v.len()) as nat, |i: int| 0nat)
}

/// The description of an R1CS instance after padding.
pub struct Instance {
    pub inst: R1CSInstance,
}

/// Checks the entries of a user matrix and moves them to the padded layout.
fn remap_matrix(
    tups: &[(usize, usize, Scalar)],
    num_cons: usize,
    num_vars: usize,
    num_inputs: usize,
    nvp: usize,
    ncp: usize,
) -> (r: Result<Vec<(usize, usize, Scalar)>, R1CSError>)
    requires
        num_vars <= nvp,
        nvp + 1 + num_inputs <= usize::MAX,
        ncp == num_cons_padded(num_cons as nat),
        nvp == num_vars_padded(num_vars as nat, num_inputs as nat),
    ensures
        match r {
            Ok(m) => entries_in_range(entries_view(tups@), num_cons as nat, (num_vars + 1 + num_inputs) as nat)
                && entries_view(m@) == padded_matrix(entries_view(tups@), num_cons as nat, num_vars as nat, num_inputs as nat),
            Err(e) => e == R1CSError::InvalidIndex
                && !entries_in_range(entries_view(tups@), num_cons as nat, (num_vars + 1 + num_inputs) as nat),
        },
{
    let ghost tv = entries_view(tups@);
    let ghost ncols = (num_vars + 1 + num_inputs) as nat;
    let mut mat: Vec<(usize, usize, Scalar)> = Vec::new();
    for i in 0..tups.len()
        invariant
            tv == entries_view(tups@),
            ncols == num_vars + 1 + num_inputs,
            num_vars <= nvp,
            nvp + 1 + num_inputs <= usize::MAX,
            nvp == num_vars_padded(num_vars as nat, num_inputs as nat),
            entries_in_range(tv.take(i as int), num_cons as nat, ncols),
            entries_view(mat@) == tv.take(i as int).map_values(
                |e: (nat, nat, nat)| remap_entry(e, num_vars as nat, nvp as nat),
            ),
    {
        let (row, col, val) = tups[i];
        assert(tv[i as int] == entry_view(tups@[i as int]));
        if row >= num_cons {
            assert(!(tv[i as int].0 < num_cons && tv[i as int].1 < ncols));
            assert(!entries_in_range(tv, num_cons as nat, ncols));
            return Err(R1CSError::InvalidIndex);
        }
        if col >= num_vars + 1 + num_inputs {
            assert(!(tv[i as int].0 < num_cons && tv[i as int].1 < ncols));
            assert(!entries_in_range(tv, num_cons as nat, ncols));
            return Err(R1CSError::InvalidIndex);
        }
        let ghost before = mat@;
        if col >= num_vars {
            mat.push((row, (col - num_vars) + nvp, val));
        } else {
            mat.push((row, col, val));
        }
        assert(entries_view(mat@) =~= entries_view(before).push(
            remap_entry(tv[i as int], num_vars as nat, nvp as nat),
        ));
        assert(tv.take(i + 1) =~= tv.take(i as int).push(tv[i as int]));
        assert(entries_in_range(tv.take(i + 1), num_cons as nat, ncols)) by {
            assert forall|j: int| 0 <= j < i + 1 implies (#[trigger] tv.take(i + 1)[j]).0 < num_cons
                && tv.take(i + 1)[j].1 < ncols by {
                if j < i {
                    assert(tv.take(i + 1)[j] == tv.take(i as int)[j]);
                }
            }
        }
        assert(tv.take(i + 1).map_values(
            |e: (nat, nat, nat)| remap_entry(e, num_vars as nat, nvp as nat),
        ) =~= tv.take(i as int).map_values(
            |e: (nat, nat, nat)| remap_entry(e, num_vars as nat, nvp as nat),
        ).push(remap_entry(tv[i as int], num_vars as nat, nvp as nat)));
    }
    assert(tv.take(tups.len() as int) =~= tv);
    let ghost remapped = entries_view(mat@);
    if num_cons == 0 || num_cons == 1 {
        let mut i: usize = tups.len();
        while i < ncp
            invariant
                tups.len() <= i || ncp <= tups.len(),
                num_cons <= 1,
                ncp == num_cons_padded(num_cons as nat),
                i >= tups.len(),
                i <= ncp || i == tups.len(),
                entries_view(mat@) == remapped + Seq::new(
                    (i - tups.len()) as nat,
                    |k: int| ((tups.len() + k) as nat, num_vars as nat, 0nat),
                ),
            decreases ncp - i,
        {
            let ghost before = mat@;
            mat.push((i, num_vars, Scalar::zero()));
            assert(entries_view(mat@) =~= entries_view(before).push((i as nat, num_vars as nat, 0nat)));
            i = i + 1;
            assert(entries_view(mat@) =~= remapped + Seq::new(
                (i - tups.len()) as nat,
                |k: int| ((tups.len() + k) as nat, num_vars as nat, 0nat),
            ));
        }
        assert(entries_view(mat@) =~= padded_matrix(tv, num_cons as nat, num_vars as nat, num_inputs as nat));
    } else {
        assert(entries_view(mat@) =~= padded_matrix(tv, num_cons as nat, num_vars as nat, num_inputs as nat));
    }
    Ok(mat)
}

} // verus!

verus! {

impl Instance {
    /// Builds the padded instance of `num_cons` constraints over `num_vars`
    /// witness variables and `num_inputs` public inputs from the sparse
    /// matrices `a`, `b`, `c`, whose columns index `vars || 1 || inputs`.
    /// Fails with `InvalidIndex` when an entry names a row at or past
    /// `num_cons` or a column at or past `num_vars + 1 + num_inputs`.
    pub fn new(
        num_cons: usize,
        num_vars: usize,
        num_inputs: usize,
        a: &[(usize, usize, Scalar)],
        b: &[(usize, usize, Scalar)],
        c: &[(usize, usize, Scalar)],
    ) -> (r: Result<Instance, R1CSError>)
        requires
            num_cons <= usize::MAX / 2 + 1,
            max_nat(num_vars as nat, (num_inputs + 1) as nat) <= usize::MAX / 2 + 1,
            num_vars_padded(num_vars as nat, num_inputs as nat) + 1 + num_inputs <= usize::MAX,
        ensures
            match r {
                Ok(inst) => {
                    &&& entries_in_range(entries_view(a@), num_cons as nat, (num_vars + 1 + num_inputs) as nat)
                    &&& entries_in_range(entries_view(b@), num_cons as nat, (num_vars + 1 + num_inputs) as nat)
                    &&& entries_in_range(entries_view(c@), num_cons as nat, (num_vars + 1 + num_inputs) as nat)
                    &&& inst.inst.spec_num_cons() == num_cons_padded(num_cons as nat)
                    &&& inst.inst.spec_num_vars() == num_vars_padded(num_vars as nat, num_inputs as nat)
                    &&& inst.inst.spec_num_inputs() == num_inputs
                    &&& inst.inst.spec_a() == padded_matrix(entries_view(a@), num_cons as nat, num_vars as nat, num_inputs as nat)
                    &&& inst.inst.spec_b() == padded_matrix(entries_view(b@), num_cons as nat, num_vars as nat, num_inputs as nat)
                    &&& inst.inst.spec_c() == padded_matrix(entries_view(c@), num_cons as nat, num_vars as nat, num_inputs as nat)
                },
                Err(e) => e == R1CSError::InvalidIndex && !(
                    entries_in_range(entries_view(a@), num_cons as nat, (num_vars + 1 + num_inputs) as nat)
                    && entries_in_range(entries_view(b@), num_cons as nat, (num_vars + 1 + num_inputs) as nat)
                    && entries_in_range(entries_view(c@), num_cons as nat, (num_vars + 1 + num_inputs) as nat)),
            },
    {
        // witness columns: at least num_inputs + 1, rounded up to a power of two
        let mut nvp = num_vars;
        if nvp < num_inputs + 1 {
            nvp = num_inputs + 1;
        }
        let np = next_power_of_two(nvp);
        if np != nvp {
            nvp = np;
        }
        // constraints: at least two, rounded up to a power of two
        let ncp = if num_cons <= 1 {
            2
        } else {
            next_power_of_two(num_cons)
        };
        assert(ncp == num_cons_padded(num_cons as nat));
        assert(nvp == num_vars_padded(num_vars as nat, num_inputs as nat));
        let a_padded = match remap_matrix(a, num_cons, num_vars, num_inputs, nvp, ncp) {
            Ok(m) => m,
            Err(e) => {
                return Err(e);
            },
        };
        let b_padded = match remap_matrix(b, num_cons, num_vars, num_inputs, nvp, ncp) {
            Ok(m) => m,
            Err(e) => {
                return Err(e);
            },
        };
        let c_padded = match remap_matrix(c, num_cons, num_vars, num_inputs, nvp, ncp) {
            Ok(m) => m,
            Err(e) => {
                return Err(e);
            },
        };
        proof {
            lemma_padded_in_range(entries_view(a@), num_cons as nat, num_vars as nat, num_inputs as nat);
            lemma_padded_in_range(entries_view(b@), num_cons as nat, num_vars as nat, num_inputs as nat);
            lemma_padded_in_range(entries_view(c@), num_cons as nat, num_vars as nat, num_inputs as nat);
        }
        let inst = R1CSInstance::new(
            ncp,
            nvp,
            num_inputs,
            a_padded.as_slice(),
            b_padded.as_slice(),
            c_padded.as_slice(),
        );
        Ok(Instance { inst })
    }
}

/// A padded user matrix lies inside the padded instance.
proof fn lemma_padded_in_range(m: Seq<(nat, nat, nat)>, num_cons: nat, num_vars: nat, num_inputs: nat)
    requires
        entries_in_range(m, num_cons, num_vars + 1 + num_inputs),
        num_cons <= num_cons_padded(num_cons),
        num_vars <= num_vars_padded(num_vars, num_inputs),
    ensures
        entries_in_range(
            padded_matrix(m, num_cons, num_vars, num_inputs),
            num_cons_padded(num_cons),
            num_vars_padded(num_vars, num_inputs) + 1 + num_inputs,
        ),
{
    let nvp = num_vars_padded(num_vars, num_inputs);
    let ncp = num_cons_padded(num_cons);
    let pm = padded_matrix(m, num_cons, num_vars, num_inputs);
    let rm = m.map_values(|e: (nat, nat, nat)| remap_entry(e, num_vars, nvp));
    let pad = padding_entries(m.len(), num_cons, ncp, num_vars);
    assert forall|i: int| 0 <= i < pm.len() implies (#[trigger] pm[i]).0 < ncp && pm[i].1 < nvp + 1
        + num_inputs by {
        if i < rm.len() {
            assert(pm[i] == rm[i]);
            assert(m[i].0 < num_cons && m[i].1 < num_vars + 1 + num_inputs);
        } else {
            assert(pm[i] == pad[i - rm.len()]);
        }
    }
}

} // verus!

verus! {

impl Instance {
    /// Whether the witness `vars`, padded with zeros to the instance's width,
    /// together with `inputs` satisfies the instance. Fails with
    /// `InvalidNumberOfInputs` when `vars` is longer than the padded witness
    /// or `inputs` does not have the number of public inputs.
    pub fn is_sat(&self, vars: &VarsAssignment, inputs: &InputsAssignment) -> (r: Result<
        bool,
        R1CSError,
    >)
        ensures
            r is Err <==> (vars.assignment.len() > self.inst.spec_num_vars()
                || inputs.assignment.len() != self.inst.spec_num_inputs()),
            r matches Err(e) ==> e == R1CSError::InvalidNumberOfInputs,
            r matches Ok(b) ==> b == self.inst.satisfied_by(
                z_vector(
                    pad_values(values(vars.assignment@), self.inst.spec_num_vars()),
                    values(inputs.assignment@),
                ),
            ),
    {
        if vars.assignment.len() > self.inst.get_num_vars() {
            return Err(R1CSError::InvalidNumberOfInputs);
        }
        if inputs.assignment.len() != self.inst.get_num_inputs() {
            return Err(R1CSError::InvalidNumberOfInputs);
        }
        let num_padded_vars = self.inst.get_num_vars();
        let num_vars = vars.assignment.len();
        let padded_vars = if num_padded_vars > num_vars {
            vars.pad(num_padded_vars)
        } else {
            let v = VarsAssignment { assignment: copy_slice(vars.assignment.as_slice()) };
            assert(values(v.assignment@) =~= pad_values(values(vars.assignment@), num_padded_vars as nat));
            v
        };
        Ok(self.inst.is_sat(padded_vars.assignment.as_slice(), inputs.assignment.as_slice()))
    }
}

} // verus!

verus! {

pub(crate) proof fn lemma_next_pow2_from_bounds(n: nat, p: nat)
    requires
        p >= 1,
    ensures
        next_pow2_from(n, p) >= n,
        next_pow2_from(n, p) >= p,
    decreases (if p < n { n - p } else { 0 }),
{
    if p < n {
        lemma_next_pow2_from_bounds(n, 2 * p);
    }
}

proof fn lemma_next_pow2_from_pow2(n: nat, k: nat)
    ensures
        exists|e: nat| vstd::arithmetic::power2::pow2(e) == next_pow2_from(n, vstd::arithmetic::power2::pow2(k)),
    decreases (if vstd::arithmetic::power2::pow2(k) < n { n - vstd::arithmetic::power2::pow2(k) } else { 0 }),
{
    let p = vstd::arithmetic::power2::pow2(k);
    vstd::arithmetic::power2::lemma_pow2_pos(k);
    if p >= n {
        assert(vstd::arithmetic::power2::pow2(k) == next_pow2_from(n, p));
    } else {
        vstd::arithmetic::power2::lemma_pow2_unfold(k + 1);
        assert(vstd::arithmetic::power2::pow2(k + 1) == 2 * p);
        lemma_next_pow2_from_pow2(n, k + 1);
    }
}

/// The least power of two at least `n` is a power of two.
pub(crate) proof fn lemma_next_pow2_is_pow2(n: nat)
    ensures
        exists|e: nat| vstd::arithmetic::power2::pow2(e) == next_pow2(n),
        next_pow2(n) >= n,
        next_pow2(n) >= 1,
{
    vstd::arithmetic::power2::lemma2_to64();
    lemma_next_pow2_from_pow2(n, 0);
    lemma_next_pow2_from_bounds(n, 1);
}

/// A coordinate of a matrix-vector product is a field value.
proof fn lemma_row_dot_canonical(m: Seq<(nat, nat, nat)>, z: Seq<nat>, row: nat)
    ensures
        row_dot(m, z, row) < crate::field::modulus(),
    decreases m.len(),
{
    if m.len() > 0 {
        lemma_row_dot_canonical(m.drop_last(), z, row);
    }
}

/// Rows that no entry names multiply to zero.
proof fn lemma_row_dot_empty_row(m: Seq<(nat, nat, nat)>, z: Seq<nat>, row: nat)
    requires
        forall|i: int| 0 <= i < m.len() ==> (#[trigger] m[i]).0 != row,
    ensures
        row_dot(m, z, row) == 0,
    decreases m.len(),
{
    if m.len() > 0 {
        assert(m.last() == m[m.len() - 1]);
        lemma_row_dot_empty_row(m.drop_last(), z, row);
    }
}

/// Appending entries of value zero changes no coordinate of the product.
proof fn lemma_row_dot_zero_suffix(m: Seq<(nat, nat, nat)>, t: Seq<(nat, nat, nat)>, z: Seq<nat>, row: nat)
    requires
        forall|i: int| 0 <= i < t.len() ==> (#[trigger] t[i]).2 == 0,
    ensures
        row_dot(m + t, z, row) == row_dot(m, z, row),
    decreases t.len(),
{
    if t.len() == 0 {
        assert(m + t =~= m);
    } else {
        let t2 = t.drop_last();
        assert((m + t).drop_last() =~= m + t2);
        assert((m + t).last() == t[t.len() - 1]);
        lemma_row_dot_zero_suffix(m, t2, z, row);
        lemma_row_dot_canonical(m + t2, z, row);
        vstd::arithmetic::mul::lemma_mul_basics(z[t[t.len() - 1].1 as int] as int);
    }
}

/// Moving the entries to the padded layout, with the witness padded by
/// zeros, leaves every coordinate of the product unchanged.
proof fn lemma_row_dot_remap(
    m: Seq<(nat, nat, nat)>,
    num_vars: nat,
    nvp: nat,
    vars: Seq<nat>,
    inputs: Seq<nat>,
    row: nat,
)
    requires
        num_vars <= nvp,
        vars.len() == num_vars,
        entries_in_range(m, row + 1 + m.len() + 1, num_vars + 1 + inputs.len()) || forall|i: int|
            0 <= i < m.len() ==> (#[trigger] m[i]).1 < num_vars + 1 + inputs.len(),
    ensures
        row_dot(
            m.map_values(|e: (nat, nat, nat)| remap_entry(e, num_vars, nvp)),
            z_vector(pad_values(vars, nvp), inputs),
            row,
        ) == row_dot(m, z_vector(vars, inputs), row),
    decreases m.len(),
{
    let rm = m.map_values(|e: (nat, nat, nat)| remap_entry(e, num_vars, nvp));
    let zp = z_vector(pad_values(vars, nvp), inputs);
    let z = z_vector(vars, inputs);
    if m.len() > 0 {
        let m2 = m.drop_last();
        assert(rm.drop_last() =~= m2.map_values(|e: (nat, nat, nat)| remap_entry(e, num_vars, nvp)));
        assert forall|i: int| 0 <= i < m2.len() implies (#[trigger] m2[i]).1 < num_vars + 1 + inputs.len() by {
            assert(m2[i] == m[i]);
        }
        lemma_row_dot_remap(m2, num_vars, nvp, vars, inputs, row);
        let e = m[m.len() - 1];
        assert(m.last() == e);
        assert(rm.last() == remap_entry(e, num_vars, nvp));
        assert(e.1 < num_vars + 1 + inputs.len());
        if e.1 >= num_vars {
            assert(zp[(e.1 + nvp - num_vars) as int] == z[e.1 as int]);
        } else {
            assert(zp[e.1 as int] == z[e.1 as int]);
        }
    }
}

/// A user matrix and its padded form give the same product on rows below
/// `num_cons`, and zero on the added rows.
proof fn lemma_row_dot_padded(
    m: Seq<(nat, nat, nat)>,
    num_cons: nat,
    num_vars: nat,
    num_inputs: nat,
    vars: Seq<nat>,
    inputs: Seq<nat>,
    row: nat,
)
    requires
        entries_in_range(m, num_cons, num_vars + 1 + num_inputs),
        vars.len() == num_vars,
        inputs.len() == num_inputs,
    ensures
        row_dot(
            padded_matrix(m, num_cons, num_vars, num_inputs),
            z_vector(pad_values(vars, num_vars_padded(num_vars, num_inputs)), inputs),
            row,
        ) == if row < num_cons {
            row_dot(m, z_vector(vars, inputs), row)
        } else {
            0
        },
{
    let nvp = num_vars_padded(num_vars, num_inputs);
    let ncp = num_cons_padded(num_cons);
    lemma_next_pow2_from_bounds(max_nat(num_vars, num_inputs + 1), 1);
    let rm = m.map_values(|e: (nat, nat, nat)| remap_entry(e, num_vars, nvp));
    let pad = padding_entries(m.len(), num_cons, ncp, num_vars);
    let zp = z_vector(pad_values(vars, nvp), inputs);
    assert forall|i: int| 0 <= i < m.len() implies (#[trigger] m[i]).1 < num_vars + 1 + inputs.len() by {}
    lemma_row_dot_remap(m, num_vars, nvp, vars, inputs, row);
    assert forall|i: int| 0 <= i < pad.len() implies (#[trigger] pad[i]).2 == 0 by {}
    lemma_row_dot_zero_suffix(rm, pad, zp, row);
    if row >= num_cons {
        assert forall|i: int| 0 <= i < m.len() implies (#[trigger] m[i]).0 != row by {}
        lemma_row_dot_empty_row(m, z_vector(vars, inputs), row);
    }
}

/// Padding preserves satisfiability: a witness satisfies the constraints
/// given by `a`, `b`, `c` exactly when the witness padded with zeros
/// satisfies the padded instance that `Instance::new` builds from them.
pub proof fn lemma_padding_preserves_satisfaction(
    a: Seq<(nat, nat, nat)>,
    b: Seq<(nat, nat, nat)>,
    c: Seq<(nat, nat, nat)>,
    num_cons: nat,
    num_vars: nat,
    num_inputs: nat,
    vars: Seq<nat>,
    inputs: Seq<nat>,
)
    requires
        entries_in_range(a, num_cons, num_vars + 1 + num_inputs),
        entries_in_range(b, num_cons, num_vars + 1 + num_inputs),
        entries_in_range(c, num_cons, num_vars + 1 + num_inputs),
        vars.len() == num_vars,
        inputs.len() == num_inputs,
    ensures
        satisfies(
            padded_matrix(a, num_cons, num_vars, num_inputs),
            padded_matrix(b, num_cons, num_vars, num_inputs),
            padded_matrix(c, num_cons, num_vars, num_inputs),
            num_cons_padded(num_cons),
            z_vector(pad_values(vars, num_vars_padded(num_vars, num_inputs)), inputs),
        ) == satisfies(a, b, c, num_cons, z_vector(vars, inputs)),
{
    let pa = padded_matrix(a, num_cons, num_vars, num_inputs);
    let pb = padded_matrix(b, num_cons, num_vars, num_inputs);
    let pc = padded_matrix(c, num_cons, num_vars, num_inputs);
    let ncp = num_cons_padded(num_cons);
    let zp = z_vector(pad_values(vars, num_vars_padded(num_vars, num_inputs)), inputs);
    let z = z_vector(vars, inputs);
    lemma_next_pow2_from_bounds(num_cons, 1);
    assert(num_cons <= ncp);
    assert forall|r: nat| r < ncp implies #[trigger] row_dot(pa, zp, r) == (if r < num_cons {
        row_dot(a, z, r)
    } else {
        0
    }) && row_dot(pb, zp, r) == (if r < num_cons {
        row_dot(b, z, r)
    } else {
        0
    }) && row_dot(pc, zp, r) == (if r < num_cons {
        row_dot(c, z, r)
    } else {
        0
    }) by {
        lemma_row_dot_padded(a, num_cons, num_vars, num_inputs, vars, inputs, r);
        lemma_row_dot_padded(b, num_cons, num_vars, num_inputs, vars, inputs, r);
        lemma_row_dot_padded(c, num_cons, num_vars, num_inputs, vars, inputs, r);
    }
    if satisfies(a, b, c, num_cons, z) {
        assert forall|r: nat| r < ncp implies fmul(#[trigger] row_dot(pa, zp, r), row_dot(pb, zp, r))
            == row_dot(pc, zp, r) by {
            if r < num_cons {
                assert(fmul(row_dot(a, z, r), row_dot(b, z, r)) == row_dot(c, z, r));
            } else {
                vstd::arithmetic::mul::lemma_mul_basics(0);
            }
        }
    }
    if satisfies(pa, pb, pc, ncp, zp) {
        assert forall|r: nat| r < num_cons implies fmul(#[trigger] row_dot(a, z, r), row_dot(b, z, r))
            == row_dot(c, z, r) by {
            assert(fmul(row_dot(pa, zp, r), row_dot(pb, zp, r)) == row_dot(pc, zp, r));
        }
    }
}

} // verus!

verus! {

/// The bit size of the scalar field's modulus.
pub const MODULUS_BIT_SIZE: u32 = 255;

/// How many entries of `s` equal `v`.
pub open spec fn count_equal(s: Seq<nat>, v: nat) -> nat
    decreases s.len(),
{
    if s.len() == 0 {
        0
    } else {
        count_equal(s.drop_last(), v) + if s.last() == v {
            1nat
        } else {
            0nat
        }
    }
}

/// The total number of binary digits of the entries of `s`.
pub open spec fn sum_bit_lengths(s: Seq<nat>) -> nat
    decreases s.len(),
{
    if s.len() == 0 {
        0
    } else {
        sum_bit_lengths(s.drop_last()) + crate::field::bit_length(s.last())
    }
}

/// The fewest binary digits of an entry of the nonempty `s`.
pub open spec fn min_bit_length(s: Seq<nat>) -> nat
    decreases s.len(),
{
    if s.len() <= 1 {
        crate::field::bit_length(s[0])
    } else {
        let m = min_bit_length(s.drop_last());
        let b = crate::field::bit_length(s.last());
        if b < m {
            b
        } else {
            m
        }
    }
}

/// The most binary digits of an entry of the nonempty `s`.
pub open spec fn max_bit_length(s: Seq<nat>) -> nat
    decreases s.len(),
{
    if s.len() <= 1 {
        crate::field::bit_length(s[0])
    } else {
        let m = max_bit_length(s.drop_last());
        let b = crate::field::bit_length(s.last());
        if b > m {
            b
        } else {
            m
        }
    }
}

/// Counts describing how sparse a vector of field elements is.
#[derive(Clone, Copy, Debug, PartialEq, Eq, Structural)]
pub struct SparsenessReport {
    /// The number of entries.
    pub total: usize,
    /// The number of zero entries.
    pub zero_count: usize,
    /// The number of entries equal to one.
    pub one_count: usize,
    /// The total number of binary digits of the entries.
    pub sum_bits: u32,
    /// The fewest binary digits of an entry.
    pub min_bits: u32,
    /// The most binary digits of an entry.
    pub max_bits: u32,
    /// The bit size of the field's modulus.
    pub modulus_bit_length: u32,
    /// `total` times `modulus_bit_length`.
    pub max_bit_length_possible: u32,
}

proof fn lemma_bit_length_bound(n: nat, k: nat)
    requires
        n < vstd::arithmetic::power2::pow2(k),
    ensures
        crate::field::bit_length(n) <= k,
    decreases k,
{
    vstd::arithmetic::power2::lemma_pow2_pos(k);
    if n > 0 {
        if k == 0 {
            vstd::arithmetic::power2::lemma2_to64();
        } else {
            vstd::arithmetic::power2::lemma_pow2_unfold(k);
            lemma_bit_length_bound(n / 2, (k - 1) as nat);
        }
    }
}

/// A field element has at most `MODULUS_BIT_SIZE` binary digits.
proof fn lemma_element_bit_length(x: nat)
    requires
        x < crate::field::modulus(),
    ensures
        crate::field::bit_length(x) <= 255,
{
    vstd::arithmetic::power2::lemma2_to64();
    vstd::arithmetic::power2::lemma2_to64_rest();
    vstd::arithmetic::power2::lemma_pow2_adds(64, 64);
    vstd::arithmetic::power2::lemma_pow2_adds(128, 64);
    vstd::arithmetic::power2::lemma_pow2_adds(192, 63);
    assert(vstd::arithmetic::power2::pow2(255) == 57896044618658097711785492504343953926634992332820282019728792003956564819968nat);
    lemma_bit_length_bound(x, 255);
}

/// The zero count, one count and bit-length statistics of a nonempty vector.
pub fn analyze_vector_sparseness(z: &Vec<Scalar>) -> (r: SparsenessReport)
    requires
        z.len() > 0,
        z.len() * 255 <= u32::MAX,
    ensures
        r.total == z.len(),
        r.zero_count == count_equal(values(z@), 0),
        r.one_count == count_equal(values(z@), 1),
        r.sum_bits == sum_bit_lengths(values(z@)),
        r.min_bits == min_bit_length(values(z@)),
        r.max_bits == max_bit_length(values(z@)),
        r.modulus_bit_length == MODULUS_BIT_SIZE,
        r.max_bit_length_possible == z.len() * 255,
{
    let ghost zv = values(z@);
    let total = z.len();
    let mut zero_count: usize = 0;
    let mut one_count: usize = 0;
    let mut sum_bits: u32 = 0;
    let mut min_bits: u32 = 0;
    let mut max_bits: u32 = 0;
    for i in 0..total
        invariant
            total == z.len(),
            zv == values(z@),
            total * 255 <= u32::MAX,
            zero_count == count_equal(zv.take(i as int), 0),
            one_count == count_equal(zv.take(i as int), 1),
            zero_count <= i && one_count <= i,
            sum_bits == sum_bit_lengths(zv.take(i as int)),
            sum_bits <= i * 255,
            i > 0 ==> min_bits == min_bit_length(zv.take(i as int)),
            i > 0 ==> max_bits == max_bit_length(zv.take(i as int)),
    {
        let x = z[i];
        proof {
            use_type_invariant(&x);
            lemma_element_bit_length(x@);
            assert(zv.take(i + 1).drop_last() =~= zv.take(i as int));
            assert(zv.take(i + 1).last() == x@);
        }
        if x.is_zero() {
            zero_count = zero_count + 1;
        }
        if x.is_one() {
            one_count = one_count + 1;
        }
        let bits = x.num_bits();
        sum_bits = sum_bits + bits;
        if i == 0 {
            min_bits = bits;
            max_bits = bits;
            assert(zv.take(1).len() == 1);
        } else {
            if bits < min_bits {
                min_bits = bits;
            }
            if bits > max_bits {
                max_bits = bits;
            }
        }
    }
    assert(zv.take(total as int) =~= zv);
    SparsenessReport {
        total,
        zero_count,
        one_count,
        sum_bits,
        min_bits,
        max_bits,
        modulus_bit_length: MODULUS_BIT_SIZE,
        max_bit_length_possible: (total as u32) * MODULUS_BIT_SIZE,
    }
}

} // verus!
