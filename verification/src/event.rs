use vstd::prelude::*;

verus! {

/// An execution event recording one field less-than query: the claim that
/// `ltu == (b < c)` for the two operands `b` and `c`.
///
/// Events are immutable facts appended by the execution collaborator and
/// read-only to the chip that materializes them into trace rows.
#[derive(Clone, Copy, Debug, PartialEq, Eq, Structural)]
pub struct FieldEvent {
    /// The first operand.
    pub b: u32,
    /// The second operand.
    pub c: u32,
    /// The claimed result of the less-than comparison of `b` and `c`.
    pub ltu: bool,
}

impl FieldEvent {
    /// Creates a new field less-than event.
    pub fn new(b: u32, c: u32, ltu: bool) -> (e: FieldEvent)
        ensures
            e.b == b,
            e.c == c,
            e.ltu == ltu,
    {
        FieldEvent { b, c, ltu }
    }
}

} // verus!
