use vstd::prelude::*;

verus! {

/// Field algebra adapter: arithmetic in a prime field whose canonical
/// representatives are the integers `0 .. modulus`.
///
/// Chip logic is field-agnostic: it only needs addition, subtraction and
/// multiplication of canonical representatives, the canonical embedding of
/// small integers, and the zero/one constants. Any prime modulus that is
/// larger than `2^30` (so that every value a chip embeds, up to the range
/// bound `2^29` and the bit-decomposition powers, is already canonical) and
/// smaller than `2^32` (so that products fit in a machine word) can back
/// this adapter.
#[derive(Clone, Copy, Debug, PartialEq, Eq, Structural)]
pub struct FieldOps {
    /// The prime modulus of the field.
    pub modulus: u64,
}

impl FieldOps {
    /// The modulus is large enough to hold every constant the chips embed
    /// canonically, and small enough that products of two canonical
    /// representatives fit in a `u64`.
    pub open spec fn wf(self) -> bool {
        0x4000_0000 < self.modulus < 0x1_0000_0000
    }

    /// The canonical representative of `a + b`.
    pub open spec fn spec_add(self, a: u64, b: u64) -> u64 {
        (((a as int) + (b as int)) % (self.modulus as int)) as u64
    }

    /// The canonical representative of `a - b`.
    pub open spec fn spec_sub(self, a: u64, b: u64) -> u64 {
        (((a as int) - (b as int)) % (self.modulus as int)) as u64
    }

    /// The canonical representative of `a * b`.
    pub open spec fn spec_mul(self, a: u64, b: u64) -> u64 {
        (((a as int) * (b as int)) % (self.modulus as int)) as u64
    }

    /// Constructs the adapter for a given prime modulus.
    pub fn new(modulus: u64) -> (f: FieldOps)
        requires
            0x4000_0000 < modulus < 0x1_0000_0000,
        ensures
            f.wf(),
            f.modulus == modulus,
    {
        FieldOps { modulus }
    }

    /// The additive identity.
    pub fn zero(&self) -> (r: u64)
        ensures
            r == 0,
    {
        0
    }

    /// The multiplicative identity.
    pub fn one(&self) -> (r: u64)
        ensures
            r == 1,
    {
        1
    }

    /// Canonical embedding of a small integer: values below the modulus
    /// embed as themselves, with no truncation.
    pub fn from_canonical_u32(&self, x: u32) -> (r: u64)
        requires
            self.wf(),
            x < self.modulus,
        ensures
            r == x,
            r < self.modulus,
    {
        x as u64
    }

    /// Canonical embedding of a boolean.
    pub fn from_bool(&self, x: bool) -> (r: u64)
        requires
            self.wf(),
        ensures
            r == (if x { 1int } else { 0int }),
            r < self.modulus,
    {
        if x {
            1
        } else {
            0
        }
    }

    /// Field addition of canonical representatives.
    pub fn add_mod(&self, a: u64, b: u64) -> (r: u64)
        requires
            self.wf(),
            a < self.modulus,
            b < self.modulus,
        ensures
            r == self.spec_add(a, b),
            r < self.modulus,
    {
        let m = self.modulus;
        let s: u64 = a + b;
        if s >= m {
            proof {
                vstd::arithmetic::div_mod::lemma_mod_sub_multiples_vanish(s as int, m as int);
                vstd::arithmetic::div_mod::lemma_small_mod((s - m) as nat, m as nat);
            }
            s - m
        } else {
            proof {
                vstd::arithmetic::div_mod::lemma_small_mod(s as nat, m as nat);
            }
            s
        }
    }

    /// Field subtraction of canonical representatives.
    pub fn sub_mod(&self, a: u64, b: u64) -> (r: u64)
        requires
            self.wf(),
            a < self.modulus,
            b < self.modulus,
        ensures
            r == self.spec_sub(a, b),
            r < self.modulus,
    {
        let m = self.modulus;
        if a >= b {
            proof {
                vstd::arithmetic::div_mod::lemma_small_mod((a - b) as nat, m as nat);
            }
            a - b
        } else {
            proof {
                vstd::arithmetic::div_mod::lemma_mod_add_multiples_vanish(
                    (a as int) - (b as int),
                    m as int,
                );
                vstd::arithmetic::div_mod::lemma_small_mod((a + m - b) as nat, m as nat);
            }
            a + m - b
        }
    }

    /// Field multiplication of canonical representatives.
    pub fn mul_mod(&self, a: u64, b: u64) -> (r: u64)
        requires
            self.wf(),
            a < self.modulus,
            b < self.modulus,
        ensures
            r == self.spec_mul(a, b),
            r < self.modulus,
    {
        proof {
            assert((a as int) * (b as int) <= 0xffff_ffffint * 0xffff_ffffint) by (nonlinear_arith)
                requires
                    a <= 0xffff_ffffu64,
                    b <= 0xffff_ffffu64,
            ;
        }
        let p: u64 = a * b;
        p % self.modulus
    }
}

} // verus!
