//! Rank-1 Constraint Systems: collections of constraints
//! `<a_i, c> * <b_i, c> = <c_i, c>` over the scalar field, with metadata on
//! the input/output partitioning of the wires.

use crate::math::field_element::{FieldElement, FieldOrder};
use crate::math::polynomial::seq_views;
use vstd::arithmetic::div_mod::{lemma_add_mod_noop, lemma_mod_twice, lemma_small_mod};
use vstd::prelude::*;

verus! {


/// Failure cases of constructing constraints and constraint systems.
#[derive(Clone, Copy, Debug, PartialEq, Eq, Structural)]
pub enum CreationError {
    /// The rows of a constraint or of a system disagree in length.
    VectorsSizeMismatch,
    /// The number of declared inputs and outputs exceeds the number of
    /// non-constant wires.
    InputOutputTooBig,
}

/// The inner product of the first `j` entries of two vectors, before
/// reduction.
pub open spec fn dot_raw(a: Seq<int>, b: Seq<int>, j: nat) -> int
    decreases j,
{
    if j == 0 {
        0
    } else {
        dot_raw(a, b, (j - 1) as nat) + a[j - 1] * b[j - 1]
    }
}

/// Whether a solution `s` satisfies the constraint with rows `a`, `b`, `c`:
/// the product of the first two inner products equals the third, in the
/// scalar field.
pub open spec fn constraint_satisfied(a: Seq<int>, b: Seq<int>, c: Seq<int>, s: Seq<int>, m: int) -> bool {
    ((dot_raw(a, s, a.len()) % m) * (dot_raw(b, s, b.len()) % m)) % m == dot_raw(c, s, c.len()) % m
}

/// One R1CS gate: three coefficient rows of equal length.
#[derive(Clone, Debug, PartialEq, Eq)]
pub struct Constraint<O: FieldOrder> {
    pub a: Vec<FieldElement<O>>,
    pub b: Vec<FieldElement<O>>,
    pub c: Vec<FieldElement<O>>,
}

/// An R1CS: a nonempty list of constraints over a common set of wires,
/// with the counts of public input and output wires.
#[derive(Clone, Debug, PartialEq, Eq)]
pub struct R1CS<O: FieldOrder> {
    pub constraints: Vec<Constraint<O>>,
    pub number_of_inputs: usize,
    pub number_of_outputs: usize,
}

/// Computes the inner product of `v1` and `v2` in the scalar field.
pub fn multiply_vectors<O: FieldOrder>(v1: &[FieldElement<O>], v2: &[FieldElement<O>]) -> (r:
    FieldElement<O>)
    requires
        v1@.len() <= v2@.len(),
    ensures
        r@ == dot_raw(seq_views(v1@), seq_views(v2@), v1@.len()) % FieldElement::<O>::order_spec(),
{
    let ghost m = FieldElement::<O>::order_spec();
    let ghost av = seq_views(v1@);
    let ghost bv = seq_views(v2@);
    let mut acc = FieldElement::<O>::zero();
    let mut i: usize = 0;
    proof {
        O::order_positive();
        lemma_small_mod(0nat, m as nat);
    }
    while i < v1.len()
        invariant
            i <= v1@.len(),
            v1@.len() <= v2@.len(),
            av == seq_views(v1@),
            bv == seq_views(v2@),
            m == FieldElement::<O>::order_spec(),
            m >= 2,
            acc@ == dot_raw(av, bv, i as nat) % m,
        decreases v1@.len() - i,
    {
        let ghost acc_old = acc@;
        let term = v1[i].mul(v2[i]);
        acc = acc.add(term);
        proof {
            let p = av[i as int] * bv[i as int];
            assert(term@ == p % m);
            lemma_add_mod_noop(dot_raw(av, bv, i as nat), p, m);
            lemma_mod_twice(dot_raw(av, bv, i as nat), m);
            lemma_mod_twice(p, m);
            assert((acc_old + term@) % m == (dot_raw(av, bv, i as nat) + p) % m) by {
                lemma_add_mod_noop(dot_raw(av, bv, i as nat) % m, p % m, m);
            }
            assert(dot_raw(av, bv, (i + 1) as nat) == dot_raw(av, bv, i as nat) + p);
        }
        i += 1;
    }
    acc
}

impl<O: FieldOrder> Constraint<O> {
    /// The three rows of the constraint agree in length.
    pub open spec fn well_formed(self) -> bool {
        self.a@.len() == self.b@.len() && self.a@.len() == self.c@.len()
    }

    /// Creates a new constraint from the rows `a`, `b`, `c`, which must
    /// agree in length.
    pub fn new(
        a: Vec<FieldElement<O>>,
        b: Vec<FieldElement<O>>,
        c: Vec<FieldElement<O>>,
    ) -> (r: Result<Self, CreationError>)
        ensures
            r is Ok <==> (a@.len() == b@.len() && a@.len() == c@.len()),
            r matches Ok(v) ==> v.a@ == a@ && v.b@ == b@ && v.c@ == c@,
            r matches Err(e) ==> e == CreationError::VectorsSizeMismatch,
    {
        if a.len() != b.len() || a.len() != c.len() || b.len() != c.len() {
            Err(CreationError::VectorsSizeMismatch)
        } else {
            Ok(Self { a, b, c })
        }
    }

    /// Whether the solution `s` satisfies this constraint.
    pub fn verify_solution(&self, s: &[FieldElement<O>]) -> (r: bool)
        requires
            self.well_formed(),
            self.a@.len() <= s@.len(),
        ensures
            r == constraint_satisfied(
                seq_views(self.a@),
                seq_views(self.b@),
                seq_views(self.c@),
                seq_views(s@),
                FieldElement::<O>::order_spec(),
            ),
    {
        let left = multiply_vectors(&self.a, s).mul(multiply_vectors(&self.b, s));
        let right = multiply_vectors(&self.c, s);
        left == right
    }
}

/// Copies a row of field elements; the copy has the same view.
fn copy_row<O: FieldOrder>(v: &Vec<FieldElement<O>>) -> (r: Vec<FieldElement<O>>)
    ensures
        r@ == v@,
{
    let mut copy: Vec<FieldElement<O>> = Vec::new();
    let mut i: usize = 0;
    while i < v.len()
        invariant
            i <= v@.len(),
            copy@ == v@.subrange(0, i as int),
        decreases v@.len() - i,
    {
        copy.push(v[i]);
        proof {
            assert(copy@ =~= v@.subrange(0, i + 1));
        }
        i += 1;
    }
    proof {
        assert(copy@ =~= v@);
    }
    copy
}

impl<O: FieldOrder> R1CS<O> {
    /// The system is nonempty, all rows have the witness size, and the
    /// declared inputs and outputs leave room for the constant wire.
    pub open spec fn well_formed(self) -> bool {
        &&& self.constraints@.len() >= 1
        &&& forall|i: int|
            0 <= i < self.constraints@.len() ==> (#[trigger] self.constraints@[i]).well_formed()
                && self.constraints@[i].a@.len() == self.constraints@[0].a@.len()
        &&& self.number_of_inputs + self.number_of_outputs + 1 <= self.constraints@[0].a@.len()
    }

    /// Creates an R1CS from a nonempty list of constraints whose rows all
    /// have the same length, and the counts of input and output wires.
    pub fn new(
        constraints: Vec<Constraint<O>>,
        number_of_inputs: usize,
        number_of_outputs: usize,
    ) -> (r: Result<Self, CreationError>)
        requires
            constraints@.len() >= 1,
        ensures
            r matches Ok(v) ==> v.constraints@ == constraints@ && v.number_of_inputs
                == number_of_inputs && v.number_of_outputs == number_of_outputs && v.well_formed(),
            r is Ok <==> ((forall|i: int|
                0 <= i < constraints@.len() ==> (#[trigger] constraints@[i]).well_formed()
                    && constraints@[i].a@.len() == constraints@[0].a@.len())
                && number_of_inputs + number_of_outputs + 1 <= constraints@[0].a@.len()),
            !(forall|i: int|
                0 <= i < constraints@.len() ==> (#[trigger] constraints@[i]).well_formed()
                    && constraints@[i].a@.len() == constraints@[0].a@.len()) ==> r == Result::<
                Self,
                CreationError,
            >::Err(CreationError::VectorsSizeMismatch),
            (forall|i: int|
                0 <= i < constraints@.len() ==> (#[trigger] constraints@[i]).well_formed()
                    && constraints@[i].a@.len() == constraints@[0].a@.len())
                && number_of_inputs + number_of_outputs + 1 > constraints@[0].a@.len() ==> r
                == Result::<Self, CreationError>::Err(CreationError::InputOutputTooBig),
    {
        let witness_size = constraints[0].a.len();
        let mut all_same_length = true;
        let mut i: usize = 0;
        while i < constraints.len()
            invariant
                i <= constraints@.len(),
                constraints@.len() >= 1,
                witness_size == constraints@[0].a@.len(),
                all_same_length == (forall|j: int|
                    0 <= j < i ==> (#[trigger] constraints@[j]).well_formed()
                        && constraints@[j].a@.len() == constraints@[0].a@.len()),
            decreases constraints@.len() - i,
        {
            let c = &constraints[i];
            if c.a.len() != witness_size || c.b.len() != witness_size || c.c.len()
                != witness_size {
                all_same_length = false;
            }
            i += 1;
        }
        if !all_same_length {
            Err(CreationError::VectorsSizeMismatch)
        } else if witness_size == 0 || number_of_inputs > witness_size - 1 || number_of_outputs
            > witness_size - 1 - number_of_inputs {
            Err(CreationError::InputOutputTooBig)
        } else {
            Ok(Self { constraints, number_of_inputs, number_of_outputs })
        }
    }

    /// Whether the three dense matrices agree in shape and leave room for
    /// the constant wire: the outer lengths agree, every row has the
    /// length of the first `a` row, and the declared inputs and outputs
    /// fit.
    pub open spec fn matrixes_well_formed(
        a: Seq<Vec<FieldElement<O>>>,
        b: Seq<Vec<FieldElement<O>>>,
        c: Seq<Vec<FieldElement<O>>>,
        number_of_inputs: usize,
        number_of_outputs: usize,
    ) -> bool {
        &&& a.len() == b.len()
        &&& a.len() == c.len()
        &&& forall|i: int|
            0 <= i < a.len() ==> (#[trigger] a[i])@.len() == b[i]@.len() && a[i]@.len()
                == c[i]@.len() && a[i]@.len() == a[0]@.len()
        &&& number_of_inputs + number_of_outputs + 1 <= a[0]@.len()
    }

    /// Creates an R1CS from the three dense matrices of row coefficients.
    pub fn new_with_matrixes(
        a: Vec<Vec<FieldElement<O>>>,
        b: Vec<Vec<FieldElement<O>>>,
        c: Vec<Vec<FieldElement<O>>>,
        number_of_inputs: usize,
        number_of_outputs: usize,
    ) -> (r: Result<Self, CreationError>)
        requires
            a@.len() >= 1,
        ensures
            r is Ok <==> Self::matrixes_well_formed(
                a@,
                b@,
                c@,
                number_of_inputs,
                number_of_outputs,
            ),
            r matches Ok(v) ==> {
                &&& v.well_formed()
                &&& v.number_of_inputs == number_of_inputs
                &&& v.number_of_outputs == number_of_outputs
                &&& v.constraints@.len() == a@.len()
                &&& forall|i: int|
                    0 <= i < a@.len() ==> (#[trigger] v.constraints@[i]).a@ == a@[i]@
                        && v.constraints@[i].b@ == b@[i]@ && v.constraints@[i].c@ == c@[i]@
            },
            r matches Err(e) ==> e == CreationError::VectorsSizeMismatch || e
                == CreationError::InputOutputTooBig,
    {
        if a.len() != b.len() || a.len() != c.len() {
            return Err(CreationError::VectorsSizeMismatch);
        }
        let mut constraints: Vec<Constraint<O>> = Vec::new();
        let n = a.len();
        let mut i: usize = 0;
        while i < n
            invariant
                i <= n,
                n == a@.len(),
                n == b@.len(),
                n == c@.len(),
                constraints@.len() == i,
                forall|j: int|
                    0 <= j < i ==> (#[trigger] constraints@[j]).a@ == a@[j]@
                        && constraints@[j].b@ == b@[j]@ && constraints@[j].c@ == c@[j]@
                        && constraints@[j].well_formed(),
            decreases n - i,
        {
            let ra = copy_row(&a[i]);
            let rb = copy_row(&b[i]);
            let rc = copy_row(&c[i]);
            match Constraint::new(ra, rb, rc) {
                Ok(constraint) => constraints.push(constraint),
                Err(e) => {
                    proof {
                        // this row breaks the shape condition
                        assert((#[trigger] a@[i as int])@.len() != b@[i as int]@.len() || a@[
                            i as int
                        ]@.len() != c@[i as int]@.len());
                        assert(!Self::matrixes_well_formed(
                            a@,
                            b@,
                            c@,
                            number_of_inputs,
                            number_of_outputs,
                        ));
                    }
                    return Err(e);
                },
            }
            i += 1;
        }
        let result = Self::new(constraints, number_of_inputs, number_of_outputs);
        proof {
            // the shape condition on the matrices coincides with the
            // condition checked over the assembled constraints
            let mwf = Self::matrixes_well_formed(
                a@,
                b@,
                c@,
                number_of_inputs,
                number_of_outputs,
            );
            let cwf = (forall|j: int|
                0 <= j < constraints@.len() ==> (#[trigger] constraints@[j]).well_formed()
                    && constraints@[j].a@.len() == constraints@[0].a@.len())
                && number_of_inputs + number_of_outputs + 1 <= constraints@[0].a@.len();
            if mwf {
                assert forall|j: int| 0 <= j < constraints@.len() implies (
                #[trigger] constraints@[j]).well_formed() && constraints@[j].a@.len()
                    == constraints@[0].a@.len() by {
                    assert((#[trigger] a@[j])@.len() == b@[j]@.len() && a@[j]@.len()
                        == c@[j]@.len() && a@[j]@.len() == a@[0]@.len());
                }
                assert(cwf);
            }
            if cwf {
                assert forall|j: int|
                    0 <= j < a@.len() implies (#[trigger] a@[j])@.len() == b@[j]@.len() && a@[
                    j
                ]@.len() == c@[j]@.len() && a@[j]@.len() == a@[0]@.len() by {
                    assert((#[trigger] constraints@[j]).well_formed());
                    assert(constraints@[j].a@.len() == constraints@[0].a@.len());
                }
                assert(mwf);
            }
        }
        result
    }

    /// Whether the solution `s` satisfies every constraint of the system.
    pub fn verify_solution(&self, s: &[FieldElement<O>]) -> (r: bool)
        requires
            self.well_formed(),
            self.constraints@[0].a@.len() <= s@.len(),
        ensures
            r == forall|i: int|
                0 <= i < self.constraints@.len() ==> constraint_satisfied(
                    seq_views((#[trigger] self.constraints@[i]).a@),
                    seq_views(self.constraints@[i].b@),
                    seq_views(self.constraints@[i].c@),
                    seq_views(s@),
                    FieldElement::<O>::order_spec(),
                ),
    {
        let ghost cs = self.constraints@;
        let n = self.constraints.len();
        let mut i: usize = 0;
        let mut all = true;
        while i < n
            invariant
                i <= n,
                n == cs.len(),
                self.constraints@ == cs,
                self.well_formed(),
                cs[0].a@.len() <= s@.len(),
                all == (forall|j: int|
                    0 <= j < i ==> constraint_satisfied(
                        seq_views((#[trigger] cs[j]).a@),
                        seq_views(cs[j].b@),
                        seq_views(cs[j].c@),
                        seq_views(s@),
                        FieldElement::<O>::order_spec(),
                    )),
            decreases n - i,
        {
            let constraint = &self.constraints[i];
            proof {
                assert(cs[i as int].well_formed());
            }
            if !constraint.verify_solution(s) {
                all = false;
            }
            i += 1;
        }
        all
    }

    /// The number of constraints of the system.
    pub fn number_of_constraints(&self) -> (r: usize)
        ensures
            r == self.constraints@.len(),
    {
        self.constraints.len()
    }

    /// The size of the witness: the constant wire, the inputs, the
    /// intermediate wires, and the outputs.
    pub fn witness_size(&self) -> (r: usize)
        requires
            self.constraints@.len() >= 1,
        ensures
            r == self.constraints@[0].a@.len(),
    {
        self.constraints[0].a.len()
    }
}

} // verus!
