use vstd::prelude::*;

use vstd::arithmetic::div_mod::{
    lemma_fundamental_div_mod, lemma_fundamental_div_mod_converse_mod,
};
use vstd::arithmetic::mul::lemma_mul_inequality;
use vstd::arithmetic::power2::{lemma_pow2_adds, lemma_pow2_pos, lemma_pow2_strictly_increases, pow2};

verus! {

/// A row-major table of canonical field values with a fixed column width.
///
/// Rows are either *real* (derived from an event) or *padding* (inert,
/// all-zero, flagged not-real by the chip's column layout).
#[derive(Clone, Debug, PartialEq, Eq)]
pub struct Trace {
    /// The cells of the table, row by row.
    pub values: Vec<u32>,
    /// The number of cells in one physical row.
    pub width: usize,
}

impl Trace {
    /// A table is well formed when its cells fill whole rows.
    pub open spec fn wf(self) -> bool {
        &&& self.width > 0
        &&& self.values@.len() % (self.width as nat) == 0
    }

    /// The number of physical rows of the table.
    pub open spec fn spec_rows(self) -> nat {
        self.values@.len() / (self.width as nat)
    }

    /// The cell in row `r`, column `k`.
    pub open spec fn cell(self, r: int, k: int) -> u32 {
        self.values@[r * (self.width as int) + k]
    }

    /// The number of physical rows of the table.
    pub fn rows(&self) -> (n: usize)
        requires
            self.wf(),
        ensures
            n == self.spec_rows(),
    {
        self.values.len() / self.width
    }
}

/// Whether `padded` is the row count the padding normalizer owes for a table
/// of `real_rows` rows: the least power of two that is at least `real_rows`, and at
/// least one.
pub open spec fn is_padded_row_count(real_rows: nat, padded: nat) -> bool {
    &&& exists|e: nat| padded == pow2(e)
    &&& padded >= 1
    &&& padded >= real_rows
    &&& (padded == 1 || padded < 2 * real_rows)
}

/// At most one row count satisfies the padding contract.
pub proof fn lemma_padded_row_count_unique(real_rows: nat, p1: nat, p2: nat)
    requires
        is_padded_row_count(real_rows, p1),
        is_padded_row_count(real_rows, p2),
    ensures
        p1 == p2,
{
    let e1 = choose|e: nat| p1 == pow2(e);
    let e2 = choose|e: nat| p2 == pow2(e);
    if e1 < e2 {
        lemma_pow2_lower_bound(e1, e2);
        lemma_pow2_pos(e1);
    } else if e2 < e1 {
        lemma_pow2_lower_bound(e2, e1);
        lemma_pow2_pos(e2);
    }
}

/// A power of two with a larger exponent is at least twice as large.
proof fn lemma_pow2_lower_bound(e1: nat, e2: nat)
    requires
        e1 < e2,
    ensures
        2 * pow2(e1) <= pow2(e2),
{
    lemma_pow2_adds(e1, (e2 - e1) as nat);
    lemma_pow2_pos(e1);
    let d = (e2 - e1) as nat;
    assert(pow2(1) == 2) by {
        vstd::arithmetic::power2::lemma2_to64();
    }
    if d > 1 {
        lemma_pow2_strictly_increases(1, d);
    }
    lemma_mul_inequality(2, pow2(d) as int, pow2(e1) as int);
    vstd::arithmetic::mul::lemma_mul_is_commutative(pow2(d) as int, pow2(e1) as int);
}

/// Padding normalizer: extends a table of `R` real rows and fixed column
/// width to `2^ceil(log2(R))` rows (at least one), leaving the original
/// cells unchanged and filling every appended cell with zero, so that
/// appended rows are inert under every gated constraint.
pub fn pad_to_power_of_two(values: &mut Vec<u32>, width: usize) -> (padded_rows: usize)
    requires
        width > 0,
        old(values)@.len() % (width as nat) == 0,
        old(values)@.len() <= usize::MAX / 2,
    ensures
        is_padded_row_count(old(values)@.len() / (width as nat), padded_rows as nat),
        final(values)@.len() == padded_rows * width,
        final(values)@.subrange(0, old(values)@.len() as int) == old(values)@,
        forall|i: int|
            old(values)@.len() <= i < final(values)@.len() ==> final(values)@[i] == 0,
{
    let len: usize = values.len();
    let rows: usize = len / width;
    proof {
        lemma_fundamental_div_mod(len as int, width as int);
        assert(len == width * rows);
        vstd::arithmetic::mul::lemma_mul_is_commutative(width as int, rows as int);
    }

    // The least power of two that is at least `rows`, and at least one.
    let mut target: usize = 1;
    let ghost mut exp: nat = 0;
    proof {
        assert(pow2(0) == 1) by {
            vstd::arithmetic::power2::lemma2_to64();
        }
    }
    while target < rows
        invariant
            target == pow2(exp),
            target >= 1,
            target == 1 || target < 2 * rows,
            rows <= usize::MAX / 2,
        decreases 2 * rows - target,
    {
        proof {
            lemma_pow2_adds(exp, 1);
            assert(pow2(1) == 2) by {
                vstd::arithmetic::power2::lemma2_to64();
            }
            exp = exp + 1;
        }
        target = target * 2;
    }

    let target_cells: usize = {
        proof {
            assert(rows * width == len) by {
                vstd::arithmetic::mul::lemma_mul_is_commutative(width as int, rows as int);
            }
            if target == 1 {
                assert(1 * width == width) by (nonlinear_arith);
            } else {
                // target < 2 * rows, so target * width < 2 * rows * width = 2 * len.
                lemma_mul_inequality(target as int, 2 * rows - 1, width as int);
                assert((2 * rows - 1) * width == 2 * (rows * width) - width) by (nonlinear_arith);
            }
            lemma_mul_inequality(rows as int, target as int, width as int);
        }
        target * width
    };

    let ghost old_vals = values@;
    // One allocation to the final size; the appended cells are zero.
    values.resize(target_cells, 0u32);
    proof {
        if target_cells <= old_vals.len() {
            assert(target_cells == old_vals.len());
            assert(values@ =~= old_vals);
        }
        assert(values@.subrange(0, old_vals.len() as int) =~= old_vals);
        lemma_fundamental_div_mod_converse_mod(target_cells as int, width as int, target as int, 0);
    }
    target
}

} // verus!
