use vstd::prelude::*;

use crate::field_ops::FieldOps;

verus! {

/// One interaction claim of the lookup layer: a chip asserts, with
/// multiplicity `multiplicity` (the gating flag of the emitting row), that
/// it computed `lt == (b < c)` for the operand pair `(b, c)`.
///
/// The backend aggregates the claims of all chips and enforces a global
/// multiset equality between sent and received tuples; emitting well-formed
/// claims is this crate's whole obligation.
#[derive(Clone, Copy, Debug, PartialEq, Eq, Structural)]
pub struct Interaction {
    /// The claimed comparison result.
    pub lt: u64,
    /// The first operand.
    pub b: u64,
    /// The second operand.
    pub c: u64,
    /// The multiplicity of the claim: the gating flag of the row, so that
    /// padding rows claim nothing.
    pub multiplicity: u64,
}

/// A constraint builder for one physical trace row.
///
/// The proving backend supplies row access, field-embedded constants,
/// conditional asserts and interaction primitives; this concrete builder
/// realizes that abstraction by evaluating every registered polynomial
/// identity on the canonical values of the current row, so that
/// `satisfied` records whether the row meets every identity registered so
/// far, and `interactions` collects the emitted claims.
pub struct RowConstraintBuilder {
    /// The field the identities are evaluated in.
    pub field: FieldOps,
    /// The canonical cell values of the current physical row.
    pub row: Vec<u64>,
    /// Whether every identity registered so far holds of the row.
    pub satisfied: bool,
    /// The interaction claims emitted so far.
    pub interactions: Vec<Interaction>,
}

impl RowConstraintBuilder {
    /// The field is usable and every cell is a canonical representative.
    pub open spec fn wf(self) -> bool {
        &&& self.field.wf()
        &&& forall|i: int| 0 <= i < self.row@.len() ==> self.row@[i] < self.field.modulus
    }

    /// Starts evaluation of one physical row: no identity registered yet,
    /// no interaction emitted.
    pub fn new(field: FieldOps, row: Vec<u64>) -> (b: RowConstraintBuilder)
        requires
            field.wf(),
            forall|i: int| 0 <= i < row@.len() ==> row@[i] < field.modulus,
        ensures
            b.wf(),
            b.field == field,
            b.row == row,
            b.satisfied,
            b.interactions@ =~= Seq::<Interaction>::empty(),
    {
        RowConstraintBuilder { field, row, satisfied: true, interactions: Vec::new() }
    }

    /// Registers the identity `a = b`.
    pub fn assert_eq_elems(&mut self, a: u64, b: u64)
        requires
            old(self).wf(),
        ensures
            final(self).satisfied == (old(self).satisfied && a == b),
            final(self).field == old(self).field,
            final(self).row == old(self).row,
            final(self).interactions == old(self).interactions,
            final(self).wf(),
    {
        if a != b {
            self.satisfied = false;
        }
    }

    /// Registers the identity `x * (x - 1) = 0`: the cell is boolean.
    pub fn assert_bool_elem(&mut self, x: u64)
        requires
            old(self).wf(),
            x < old(self).field.modulus,
        ensures
            final(self).satisfied == (old(self).satisfied && old(self).field.spec_mul(
                x,
                old(self).field.spec_sub(x, 1),
            ) == 0),
            final(self).field == old(self).field,
            final(self).row == old(self).row,
            final(self).interactions == old(self).interactions,
            final(self).wf(),
    {
        let down = self.field.sub_mod(x, 1);
        let product = self.field.mul_mod(x, down);
        if product != 0 {
            self.satisfied = false;
        }
    }

    /// Registers the identity `cond * (a - b) = 0`: whenever the gating
    /// condition is nonzero, `a` must equal `b`.
    pub fn when_assert_eq(&mut self, cond: u64, a: u64, b: u64)
        requires
            old(self).wf(),
            cond < old(self).field.modulus,
            a < old(self).field.modulus,
            b < old(self).field.modulus,
        ensures
            final(self).satisfied == (old(self).satisfied && old(self).field.spec_mul(
                cond,
                old(self).field.spec_sub(a, b),
            ) == 0),
            final(self).field == old(self).field,
            final(self).row == old(self).row,
            final(self).interactions == old(self).interactions,
            final(self).wf(),
    {
        let difference = self.field.sub_mod(a, b);
        let product = self.field.mul_mod(cond, difference);
        if product != 0 {
            self.satisfied = false;
        }
    }

    /// Receives one field-operation claim from the current row, with the
    /// row's gating flag as its multiplicity.
    pub fn receive_field_op(&mut self, lt: u64, b: u64, c: u64, multiplicity: u64)
        requires
            old(self).wf(),
        ensures
            final(self).interactions@ == old(self).interactions@.push(
                Interaction { lt, b, c, multiplicity },
            ),
            final(self).satisfied == old(self).satisfied,
            final(self).field == old(self).field,
            final(self).row == old(self).row,
            final(self).wf(),
    {
        self.interactions.push(Interaction { lt, b, c, multiplicity });
    }
}

} // verus!
