use vstd::prelude::*;

use crate::builder::{Interaction, RowConstraintBuilder};
use crate::event::FieldEvent;
use crate::field_ops::FieldOps;
use crate::record::ExecutionRecord;
use crate::trace::{is_padded_row_count, pad_to_power_of_two, Trace};
use vstd::arithmetic::div_mod::{
    lemma_fundamental_div_mod, lemma_fundamental_div_mod_converse_div,
    lemma_fundamental_div_mod_converse_mod, lemma_mod_add_multiples_vanish, lemma_small_mod,
};
use vstd::arithmetic::power2::{
    lemma2_to64, lemma_pow2_adds, lemma_pow2_pos, lemma_pow2_strictly_increases, pow2,
};

verus! {

/// The range parameter of the less-than chip: the bit width of the
/// wrapped operand difference, chosen so that the shifted difference of
/// every supported operand pair fits in `LTU_NB_BITS + 1` bits.
pub const LTU_NB_BITS: usize = 29;

/// The number of bits of the shifted-difference decomposition, one more
/// than the range parameter.
pub const NUM_DIFF_BITS: usize = 30;

/// The number of main trace columns for one logical row of `FieldLTUChip`.
pub const NUM_FIELD_COLS: usize = 34;

/// The packing factor: how many logical event rows are packed into one
/// physical trace row to amortize fixed per-row overhead.
pub const PACKING_FACTOR: usize = 4;

/// The trace generator emits complete packed groups only: a trailing
/// partial group of fewer than `PACKING_FACTOR` events is dropped, on the
/// upstream invariant that event counts are multiples of the packing
/// factor. This constant documents that policy explicitly.
pub const TRUNCATES_PARTIAL_GROUP: bool = true;

/// A chip that implements less-than within the field.
#[derive(Default)]
pub struct FieldLTUChip;

/// The column layout of one logical row of the less-than chip.
#[derive(Debug, Clone, Copy)]
pub struct FieldLTUCols<T> {
    /// The result of the `LT` operation on `b` and `c`.
    pub lt: T,
    /// The first field operand.
    pub b: T,
    /// The second field operand.
    pub c: T,
    /// The shifted difference of `b` and `c` in little-endian bit order.
    pub diff_bits: [T; NUM_DIFF_BITS],
    /// One on rows derived from an event, zero on padding rows.
    pub is_real: T,
}

/// One physical trace row: a packing factor's worth of logical rows.
#[derive(Debug, Clone, Copy)]
pub struct PackedFieldLTUCols<T> {
    /// The packed logical sub-rows, in event order.
    pub packed_chips: [FieldLTUCols<T>; PACKING_FACTOR],
}

/// Malformed witness: while materializing the event at `index`, the
/// shifted operand difference did not fit in `NUM_DIFF_BITS` bits, so the
/// record cannot be proved. This is a fatal construction error with no
/// retry path.
#[derive(Clone, Copy, Debug, PartialEq, Eq, Structural)]
pub struct MalformedWitnessError {
    /// The position of the offending event in the record's event list.
    pub index: usize,
    /// The first operand of the offending event.
    pub b: u32,
    /// The second operand of the offending event.
    pub c: u32,
}

/// The shifted difference the chip decomposes: `(b - c + 2^29) mod 2^32`,
/// the wrapping machine-word computation of `b - c` offset so that a
/// supported difference is non-negative.
pub open spec fn d_of(b: u32, c: u32) -> int {
    ((b as int) - (c as int) + 0x2000_0000 + 0x1_0000_0000) % 0x1_0000_0000
}

/// Bit `i` of the non-negative integer `d`, little endian.
pub open spec fn bit_of(d: int, i: nat) -> int {
    (d / (pow2(i) as int)) % 2
}

/// The canonical cell encoding of a boolean.
pub open spec fn bool_cell(x: bool) -> u32 {
    if x {
        1
    } else {
        0
    }
}

/// The value of cell `k` of the logical row derived from event `e`:
/// the claimed result, the operands, the shifted-difference bits, and the
/// real-row flag.
pub open spec fn event_cell(e: FieldEvent, k: int) -> u32 {
    if k == 0 {
        bool_cell(e.ltu)
    } else if k == 1 {
        e.b
    } else if k == 2 {
        e.c
    } else if 3 <= k < 33 {
        bit_of(d_of(e.b, e.c), (k - 3) as nat) as u32
    } else {
        1
    }
}

/// The value of cell `m` of the flattened real part of the trace: cell
/// `m % NUM_FIELD_COLS` of the logical row of event `m / NUM_FIELD_COLS`.
pub open spec fn trace_cell(events: Seq<FieldEvent>, m: int) -> u32 {
    event_cell(events[m / (NUM_FIELD_COLS as int)], m % (NUM_FIELD_COLS as int))
}

/// The operand range the chip supports: the difference `b - c` fits in
/// the signed range `[-2^29, 2^29)`, so that the shifted difference fits
/// in `NUM_DIFF_BITS` bits and the top bit's complement is `b < c`.
pub open spec fn in_supported_operand_range(b: u32, c: u32) -> bool {
    -0x2000_0000 <= (b as int) - (c as int) < 0x2000_0000
}

/// The partial resummation of the low `n` bits of `d`, weighted by powers
/// of two.
pub open spec fn bits_sum(d: int, n: nat) -> int
    decreases n,
{
    if n == 0 {
        0
    } else {
        bits_sum(d, (n - 1) as nat) + bit_of(d, (n - 1) as nat) * (pow2((n - 1) as nat) as int)
    }
}

/// Resumming the low `n` bits of a non-negative integer reproduces its
/// residue modulo `2^n`.
pub proof fn lemma_bits_sum_reconstructs(d: int, n: nat)
    requires
        0 <= d,
    ensures
        bits_sum(d, n) == d % (pow2(n) as int),
    decreases n,
{
    if n == 0 {
        assert(pow2(0) == 1) by {
            lemma2_to64();
        }
    } else {
        let m = (n - 1) as nat;
        lemma_bits_sum_reconstructs(d, m);
        lemma_pow2_adds(m, 1);
        assert(pow2(1) == 2) by {
            lemma2_to64();
        }
        lemma_pow2_pos(m);
        vstd::arithmetic::div_mod::lemma_breakdown(d, pow2(m) as int, 2);
        assert((pow2(m) as int) * ((d / (pow2(m) as int)) % 2) == ((d / (pow2(m) as int)) % 2) * (
        pow2(m) as int)) by {
            vstd::arithmetic::mul::lemma_mul_is_commutative(
                pow2(m) as int,
                (d / (pow2(m) as int)) % 2,
            );
        }
    }
}

/// Round-trip decomposition law: for operands in the supported range, the
/// shifted difference `d = (b - c) mod 2^32 + 2^29` equals `b - c + 2^29`
/// exactly, decomposing it into `NUM_DIFF_BITS` bits and resumming with
/// powers of two reproduces `d`, and the complement of the top bit is the
/// comparison `b < c`.
pub proof fn lemma_round_trip_decomposition(b: u32, c: u32)
    requires
        in_supported_operand_range(b, c),
    ensures
        d_of(b, c) == (b as int) - (c as int) + 0x2000_0000,
        bits_sum(d_of(b, c), NUM_DIFF_BITS as nat) == d_of(b, c),
        (bit_of(d_of(b, c), LTU_NB_BITS as nat) == 0) <==> (b < c),
{
    let x = (b as int) - (c as int) + 0x2000_0000;
    lemma_mod_add_multiples_vanish(x, 0x1_0000_0000);
    lemma_small_mod(x as nat, 0x1_0000_0000);
    let d = d_of(b, c);
    lemma_bits_sum_reconstructs(d, NUM_DIFF_BITS as nat);
    assert(pow2(30) == 0x4000_0000 && pow2(29) == 0x2000_0000) by {
        lemma2_to64();
    }
    lemma_small_mod(d as nat, pow2(30));
    if b < c {
        assert(d / 0x2000_0000 == 0) by {
            vstd::arithmetic::div_mod::lemma_basic_div(d, 0x2000_0000);
        }
    } else {
        assert(d / 0x2000_0000 == 1) by {
            lemma_fundamental_div_mod_converse_div(d, 0x2000_0000, 1, d - 0x2000_0000);
        }
    }
}

impl FieldLTUChip {
    /// The stable identifier of this chip, unique per chip kind.
    pub fn name(&self) -> (r: String)
        ensures
            r@ == "FieldLTU"@,
    {
        "FieldLTU".to_string()
    }

    /// The number of field columns in one packed physical trace row.
    pub fn width(&self) -> (w: usize)
        ensures
            w == NUM_FIELD_COLS * PACKING_FACTOR,
    {
        NUM_FIELD_COLS * PACKING_FACTOR
    }

    /// Materializes this chip's trace from the record's field events.
    ///
    /// Events are taken in complete packed groups of `PACKING_FACTOR` (a
    /// trailing partial group is dropped; see `TRUNCATES_PARTIAL_GROUP`).
    /// Each event yields one logical row: canonical encodings of the
    /// claimed result and both operands, the `NUM_DIFF_BITS`-bit
    /// decomposition of the shifted difference, and a set real-row flag.
    /// The rows are packed and the table is padded with all-zero rows to
    /// the next power-of-two row count.
    ///
    /// Fails fatally, naming the first offending event, when a shifted
    /// difference does not fit its bit budget: such a record is malformed
    /// and cannot be proved.
    pub fn generate_trace(&self, input: &ExecutionRecord) -> (r: Result<
        Trace,
        MalformedWitnessError,
    >)
        requires
            input.field_events@.len() * 68 <= usize::MAX,
        ensures
            match r {
                Ok(t) => {
                    let events = input.field_events@;
                    let g = events.len() as int / (PACKING_FACTOR as int);
                    &&& t.wf()
                    &&& t.width == NUM_FIELD_COLS * PACKING_FACTOR
                    &&& is_padded_row_count(g as nat, t.spec_rows())
                    &&& forall|idx: int|
                        0 <= idx < g * (PACKING_FACTOR as int) ==> d_of(
                            events[idx].b,
                            events[idx].c,
                        ) < 0x4000_0000
                    &&& forall|m: int|
                        0 <= m < g * (NUM_FIELD_COLS * PACKING_FACTOR) as int ==> t.values@[m]
                            == trace_cell(events, m)
                    &&& forall|m: int|
                        g * (NUM_FIELD_COLS * PACKING_FACTOR) as int <= m < t.values@.len()
                            ==> t.values@[m] == 0
                },
                Err(e) => {
                    let events = input.field_events@;
                    let g = events.len() as int / (PACKING_FACTOR as int);
                    &&& e.index < g * (PACKING_FACTOR as int)
                    &&& d_of(events[e.index as int].b, events[e.index as int].c) >= 0x4000_0000
                    &&& forall|j: int|
                        0 <= j < e.index ==> d_of(events[j].b, events[j].c) < 0x4000_0000
                    &&& e.b == events[e.index as int].b
                    &&& e.c == events[e.index as int].c
                },
            },
    {
        let total: usize = input.field_events.len();
        let g: usize = total / PACKING_FACTOR;
        proof {
            lemma_fundamental_div_mod(total as int, PACKING_FACTOR as int);
            assert(g * PACKING_FACTOR <= total) by (nonlinear_arith)
                requires
                    total == (PACKING_FACTOR as int) * (g as int) + (total as int) % (
                    PACKING_FACTOR as int),
                    (total as int) % (PACKING_FACTOR as int) >= 0,
            ;
        }
        let real_events: usize = g * PACKING_FACTOR;
        let mut values: Vec<u32> = Vec::new();
        let mut idx: usize = 0;
        while idx < real_events
            invariant
                real_events == (input.field_events@.len() as int / (PACKING_FACTOR as int)) * (
                PACKING_FACTOR as int),
                real_events <= input.field_events@.len(),
                input.field_events@.len() * 68 <= usize::MAX,
                idx <= real_events,
                values@.len() == idx * NUM_FIELD_COLS,
                forall|m: int| 0 <= m < idx * NUM_FIELD_COLS ==> values@[m] == trace_cell(
                    input.field_events@,
                    m,
                ),
                forall|j: int| 0 <= j < idx ==> d_of(
                    input.field_events@[j].b,
                    input.field_events@[j].c,
                ) < 0x4000_0000,
            decreases real_events - idx,
        {
            proof {
                assert(idx * NUM_FIELD_COLS + NUM_FIELD_COLS <= real_events * NUM_FIELD_COLS
                    && real_events * NUM_FIELD_COLS <= input.field_events@.len() * 68)
                    by (nonlinear_arith)
                    requires
                        idx < real_events,
                        real_events <= input.field_events@.len(),
                ;
            }
            let e = input.field_events[idx];
            let b64: u64 = e.b as u64;
            let c64: u64 = e.c as u64;
            let shifted: u64 = b64 + 0x1_0000_0000u64 + 0x2000_0000u64 - c64;
            let diff64: u64 = shifted % 0x1_0000_0000u64;
            if diff64 >= 0x4000_0000u64 {
                return Err(MalformedWitnessError { index: idx, b: e.b, c: e.c });
            }
            let diff: u32 = diff64 as u32;
            let ghost row_start = idx * NUM_FIELD_COLS;
            values.push(if e.ltu {
                1
            } else {
                0
            });
            values.push(e.b);
            values.push(e.c);
            let mut pow: u32 = 1;
            let mut i: usize = 0;
            proof {
                assert(pow2(0) == 1 && pow2(30) == 0x4000_0000) by {
                    lemma2_to64();
                }
            }
            while i < NUM_DIFF_BITS
                invariant
                    i <= NUM_DIFF_BITS,
                    pow == pow2(i as nat),
                    diff < 0x4000_0000,
                    diff == d_of(
                        input.field_events@[idx as int].b,
                        input.field_events@[idx as int].c,
                    ),
                    idx < input.field_events@.len(),
                    row_start == idx * NUM_FIELD_COLS,
                    values@.len() == row_start + 3 + i,
                    pow >= 1,
                    forall|m: int| 0 <= m < row_start + 3 ==> values@[m] == values_prefix(
                        input.field_events@,
                        m,
                        idx as int,
                        e,
                    ),
                    forall|ii: int|
                        0 <= ii < i ==> #[trigger] values@[row_start + 3 + ii] == bit_of(
                            diff as int,
                            ii as nat,
                        ),
                decreases NUM_DIFF_BITS - i,
            {
                let bit: u32 = (diff / pow) % 2;
                values.push(bit);
                proof {
                    lemma_pow2_adds(i as nat, 1);
                    assert(pow2(1) == 2 && pow2(30) == 0x4000_0000) by {
                        lemma2_to64();
                    }
                    if i + 1 < 30 {
                        lemma_pow2_strictly_increases((i + 1) as nat, 30);
                    }
                }
                pow = pow * 2;
                i += 1;
            }
            let ghost before_flag = values@;
            values.push(1);
            proof {
                assert forall|m: int| row_start <= m < row_start + NUM_FIELD_COLS implies values@[m]
                    == trace_cell(input.field_events@, m) by {
                    let k = m - row_start;
                    lemma_fundamental_div_mod_converse_div(m, NUM_FIELD_COLS as int, idx as int, k);
                    lemma_fundamental_div_mod_converse_mod(m, NUM_FIELD_COLS as int, idx as int, k);
                    if k < 33 {
                        assert(values@[m] == before_flag[m]);
                    }
                    if 3 <= k < 33 {
                        let ii = k - 3;
                        assert(before_flag[row_start + 3 + ii] == bit_of(diff as int, ii as nat));
                    }
                }
                assert forall|m: int| 0 <= m < row_start implies values@[m] == trace_cell(
                    input.field_events@,
                    m,
                ) by {
                    assert(values@[m] == before_flag[m]);
                    assert(before_flag[m] == values_prefix(
                        input.field_events@,
                        m,
                        idx as int,
                        e,
                    ));
                }
                assert((idx + 1) * NUM_FIELD_COLS == idx * NUM_FIELD_COLS + NUM_FIELD_COLS)
                    by (nonlinear_arith);
            }
            idx += 1;
        }
        proof {
            let g_int = input.field_events@.len() as int / (PACKING_FACTOR as int);
            assert(values@.len() == g_int * ((NUM_FIELD_COLS * PACKING_FACTOR) as int)
                && values@.len() * 2 <= input.field_events@.len() * 68) by (nonlinear_arith)
                requires
                    values@.len() == (g_int * (PACKING_FACTOR as int)) * (NUM_FIELD_COLS as int),
                    g_int * (PACKING_FACTOR as int) <= input.field_events@.len(),
            ;
        }
        let padded_rows = pad_to_power_of_two(&mut values, NUM_FIELD_COLS * PACKING_FACTOR);
        proof {
            let events = input.field_events@;
            let g_int = events.len() as int / (PACKING_FACTOR as int);
            let w = (NUM_FIELD_COLS * PACKING_FACTOR) as int;
            vstd::arithmetic::div_mod::lemma_div_multiples_vanish(g_int, w);
            vstd::arithmetic::mul::lemma_mul_is_commutative(g_int, w);
            vstd::arithmetic::div_mod::lemma_div_multiples_vanish(padded_rows as int, w);
            vstd::arithmetic::mul::lemma_mul_is_commutative(padded_rows as int, w);
            assert forall|m: int| 0 <= m < g_int * w implies values@[m] == trace_cell(events, m) by {
                assert(values@.subrange(0, g_int * w)[m] == values@[m]);
            }
        }
        Ok(Trace { values, width: NUM_FIELD_COLS * PACKING_FACTOR })
    }
}

/// The field identity `x * (x - 1) = 0`: the cell holds a boolean value.
pub open spec fn is_bool_constraint(f: FieldOps, x: u64) -> bool {
    f.spec_mul(x, f.spec_sub(x, 1)) == 0
}

/// The field value of the bit decomposition of the logical sub-row at
/// `base`, resummed with powers of two: `sum of cells[base+3+i] * 2^i`
/// over the low `n` bits.
pub open spec fn decomp_sum(f: FieldOps, cells: Seq<u64>, base: int, n: nat) -> u64
    decreases n,
{
    if n == 0 {
        0
    } else {
        f.spec_add(
            decomp_sum(f, cells, base, (n - 1) as nat),
            f.spec_mul(cells[base + 3 + (n - 1)], pow2((n - 1) as nat) as u64),
        )
    }
}

/// The constraints of one logical sub-row that are gated by its real-row
/// flag, so that padding rows satisfy them trivially: the bit
/// decomposition resums to the shifted difference `b - c + 2^29`, and the
/// claimed result is the complement of the decomposition's top bit.
pub open spec fn subrow_gated_ok(f: FieldOps, cells: Seq<u64>, base: int) -> bool {
    &&& f.spec_mul(
        cells[base + 33],
        f.spec_sub(
            f.spec_add(f.spec_sub(cells[base + 1], cells[base + 2]), 0x2000_0000u64),
            decomp_sum(f, cells, base, NUM_DIFF_BITS as nat),
        ),
    ) == 0
    &&& f.spec_mul(
        cells[base + 33],
        f.spec_sub(cells[base], f.spec_sub(1u64, cells[base + 32])),
    ) == 0
}

/// The ungated constraints of one logical sub-row: the claimed result and
/// every decomposition bit are boolean.
pub open spec fn subrow_bools_ok(f: FieldOps, cells: Seq<u64>, base: int) -> bool {
    &&& is_bool_constraint(f, cells[base])
    &&& forall|i: int| 0 <= i < NUM_DIFF_BITS ==> is_bool_constraint(f, #[trigger] cells[base + 3 + i])
}

/// All constraints of one logical sub-row.
pub open spec fn subrow_ok(f: FieldOps, cells: Seq<u64>, base: int) -> bool {
    subrow_bools_ok(f, cells, base) && subrow_gated_ok(f, cells, base)
}

/// All constraints of one packed physical row: every logical sub-row
/// satisfies its constraints.
pub open spec fn row_ok(f: FieldOps, cells: Seq<u64>) -> bool {
    forall|j: int|
        0 <= j < PACKING_FACTOR ==> #[trigger] subrow_ok(f, cells, j * (NUM_FIELD_COLS as int))
}

/// The interaction claims one packed physical row emits: one field-op
/// claim per logical sub-row, with the sub-row's real-row flag as its
/// multiplicity.
pub open spec fn row_interactions(cells: Seq<u64>) -> Seq<Interaction> {
    Seq::new(
        PACKING_FACTOR as nat,
        |j: int|
            Interaction {
                lt: cells[j * (NUM_FIELD_COLS as int)],
                b: cells[j * (NUM_FIELD_COLS as int) + 1],
                c: cells[j * (NUM_FIELD_COLS as int) + 2],
                multiplicity: cells[j * (NUM_FIELD_COLS as int) + 33],
            },
    )
}

impl FieldLTUChip {
    /// Registers this chip's polynomial identities and interaction claims
    /// for the builder's current physical row, for each packed logical
    /// sub-row: the claimed result and every decomposition bit are
    /// boolean; gated by the real-row flag, the decomposition resums to
    /// the shifted difference and the claimed result complements the top
    /// bit; one interaction claim is received per sub-row; and one
    /// cosmetic identity normalizes the constraint degree to the
    /// backend's target degree.
    pub fn eval(&self, builder: &mut RowConstraintBuilder)
        requires
            old(builder).wf(),
            old(builder).row@.len() == NUM_FIELD_COLS * PACKING_FACTOR,
        ensures
            final(builder).wf(),
            final(builder).field == old(builder).field,
            final(builder).row@ == old(builder).row@,
            final(builder).satisfied == (old(builder).satisfied && row_ok(
                old(builder).field,
                old(builder).row@,
            )),
            final(builder).interactions@ == old(builder).interactions@ + row_interactions(
                old(builder).row@,
            ),
    {
        let ghost f = old(builder).field;
        let ghost row0 = old(builder).row@;
        let ghost sat0 = old(builder).satisfied;
        let ghost inter0 = old(builder).interactions@;
        let mut j: usize = 0;
        proof {
            assert(inter0 + row_interactions(row0).take(0) =~= inter0);
        }
        while j < PACKING_FACTOR
            invariant
                builder.wf(),
                builder.field == f,
                builder.row@ == row0,
                row0.len() == NUM_FIELD_COLS * PACKING_FACTOR,
                j <= PACKING_FACTOR,
                builder.satisfied == (sat0 && forall|jj: int|
                    0 <= jj < j ==> #[trigger] subrow_ok(f, row0, jj * (NUM_FIELD_COLS as int))),
                builder.interactions@ == inter0 + row_interactions(row0).take(j as int),
            decreases PACKING_FACTOR - j,
        {
            let base: usize = j * NUM_FIELD_COLS;
            proof {
                assert(base + 34 <= 136) by (nonlinear_arith)
                    requires
                        base == j * NUM_FIELD_COLS,
                        j < 4,
                        NUM_FIELD_COLS == 34,
                ;
            }
            let ghost sat_in = builder.satisfied;
            let lt = builder.row[base];
            let bval = builder.row[base + 1];
            let cval = builder.row[base + 2];
            let flag = builder.row[base + 33];

            // Cosmetic identity for normalizing to the backend's target degree.
            let bsq = builder.field.mul_mod(bval, bval);
            let bcube = builder.field.mul_mod(bsq, bval);
            builder.assert_eq_elems(bcube, bcube);

            // The claimed result is boolean.
            builder.assert_bool_elem(lt);

            // Every decomposition bit is boolean.
            let mut i: usize = 0;
            while i < NUM_DIFF_BITS
                invariant
                    builder.wf(),
                    builder.field == f,
                    builder.row@ == row0,
                    row0.len() == NUM_FIELD_COLS * PACKING_FACTOR,
                    builder.interactions@ == inter0 + row_interactions(row0).take(j as int),
                    base + 34 <= row0.len(),
                    i <= NUM_DIFF_BITS,
                    builder.satisfied == (sat_in && is_bool_constraint(f, row0[base as int])
                        && forall|ii: int|
                        0 <= ii < i ==> is_bool_constraint(
                            f,
                            #[trigger] row0[base + 3 + ii],
                        )),
                decreases NUM_DIFF_BITS - i,
            {
                let bit = builder.row[base + 3 + i];
                builder.assert_bool_elem(bit);
                i += 1;
            }

            // Resum the decomposition with powers of two.
            let mut acc: u64 = 0;
            let mut pow: u64 = 1;
            let mut n: usize = 0;
            proof {
                assert(pow2(0) == 1 && pow2(29) == 0x2000_0000 && pow2(30) == 0x4000_0000) by {
                    lemma2_to64();
                }
            }
            while n < NUM_DIFF_BITS
                invariant
                    builder.wf(),
                    builder.field == f,
                    builder.row@ == row0,
                    row0.len() == NUM_FIELD_COLS * PACKING_FACTOR,
                    builder.satisfied == (sat_in && is_bool_constraint(f, row0[base as int])
                        && subrow_bools_ok(f, row0, base as int)),
                    builder.interactions@ == inter0 + row_interactions(row0).take(j as int),
                    base + 34 <= row0.len(),
                    n <= NUM_DIFF_BITS,
                    pow == pow2(n as nat),
                    pow <= 0x4000_0000,
                    acc == decomp_sum(f, row0, base as int, n as nat),
                    acc < f.modulus,
                decreases NUM_DIFF_BITS - n,
            {
                proof {
                    assert(pow2(29) == 0x2000_0000 && pow2(30) == 0x4000_0000 && pow2(1) == 2) by {
                        lemma2_to64();
                    }
                    if n < 29 {
                        lemma_pow2_strictly_increases(n as nat, 29);
                    }
                    lemma_pow2_adds(n as nat, 1);
                }
                let bit = builder.row[base + 3 + n];
                let term = builder.field.mul_mod(bit, pow);
                acc = builder.field.add_mod(acc, term);
                pow = pow * 2;
                n += 1;
            }

            // Gated: the decomposition resums to the shifted difference.
            let lhs = builder.field.add_mod(builder.field.sub_mod(bval, cval), 0x2000_0000u64);
            builder.when_assert_eq(flag, lhs, acc);

            // Gated: the claimed result complements the top bit.
            let top = builder.row[base + 32];
            let one_minus_top = builder.field.sub_mod(1, top);
            builder.when_assert_eq(flag, lt, one_minus_top);

            // Receive the field operation claim for this sub-row.
            builder.receive_field_op(lt, bval, cval, flag);

            proof {
                assert(row_interactions(row0).take(j + 1) =~= row_interactions(row0).take(
                    j as int,
                ).push(row_interactions(row0)[j as int]));
                assert(builder.interactions@ == inter0 + row_interactions(row0).take(j + 1));
                let w = NUM_FIELD_COLS as int;
                assert(builder.satisfied == (sat0 && (forall|jj: int|
                    0 <= jj < j ==> #[trigger] subrow_ok(f, row0, jj * w)) && subrow_ok(
                    f,
                    row0,
                    base as int,
                )));
                assert((sat0 && (forall|jj: int|
                    0 <= jj < j + 1 ==> #[trigger] subrow_ok(f, row0, jj * w)))
                    == builder.satisfied) by {
                    if sat0 && (forall|jj: int|
                        0 <= jj < j ==> #[trigger] subrow_ok(f, row0, jj * w)) && subrow_ok(
                        f,
                        row0,
                        base as int,
                    ) {
                        assert forall|jj: int| 0 <= jj < j + 1 implies #[trigger] subrow_ok(
                            f,
                            row0,
                            jj * w,
                        ) by {
                            if jj == j {
                                assert(jj * w == base as int);
                            }
                        }
                    }
                    if sat0 && (forall|jj: int|
                        0 <= jj < j + 1 ==> #[trigger] subrow_ok(f, row0, jj * w)) {
                        assert(subrow_ok(f, row0, (j as int) * w));
                        assert((j as int) * w == base as int);
                    }
                }
            }
            j += 1;
        }
        proof {
            assert(row_interactions(row0).take(PACKING_FACTOR as int) =~= row_interactions(row0));
        }
    }
}

/// Padding inertness law: a logical sub-row whose real-row flag is zero
/// satisfies both of the chip's gated constraints trivially, independent
/// of its operand and bit cells; and the all-zero sub-rows the padding
/// normalizer appends satisfy the ungated boolean constraints as well,
/// hence every constraint of the chip.
pub proof fn lemma_padding_row_inert(f: FieldOps, cells: Seq<u64>, base: int)
    requires
        f.wf(),
        0 <= base,
        base + (NUM_FIELD_COLS as int) <= cells.len(),
    ensures
        cells[base + 33] == 0 ==> subrow_gated_ok(f, cells, base),
        (forall|k: int| base <= k < base + (NUM_FIELD_COLS as int) ==> cells[k] == 0) ==> subrow_ok(
            f,
            cells,
            base,
        ),
{
    let m = f.modulus as int;
    assert forall|x: u64| f.spec_mul(0, x) == 0 by {
        assert((0 * (x as int)) % m == 0) by (nonlinear_arith)
            requires
                m > 1,
        ;
    }
    if cells[base + 33] == 0 {
        assert(subrow_gated_ok(f, cells, base));
    }
    if forall|k: int| base <= k < base + (NUM_FIELD_COLS as int) ==> cells[k] == 0 {
        assert(cells[base] == 0);
        assert(cells[base + 33] == 0);
        assert forall|i: int| 0 <= i < NUM_DIFF_BITS implies is_bool_constraint(
            f,
            #[trigger] cells[base + 3 + i],
        ) by {
            assert(cells[base + 3 + i] == 0);
        }
    }
}

/// A boolean cell satisfies the booleanity identity.
proof fn lemma_bool_cell_constraint(f: FieldOps, x: u64)
    requires
        f.wf(),
        x == 0 || x == 1,
    ensures
        is_bool_constraint(f, x),
{
    let m = f.modulus as int;
    if x == 0 {
        assert((0int * (f.spec_sub(0, 1) as int)) % m == 0) by (nonlinear_arith)
            requires
                m > 1,
        ;
    } else {
        lemma_small_mod(0nat, m as nat);
        assert(f.spec_sub(1, 1) == 0);
        assert((1int * 0) % m == 0) by (nonlinear_arith)
            requires
                m > 1,
        ;
    }
}

/// For canonical representatives, the field difference vanishes exactly
/// on equal values.
proof fn lemma_sub_eq_iff(f: FieldOps, a: u64, b: u64)
    requires
        f.wf(),
        a < f.modulus,
        b < f.modulus,
    ensures
        (f.spec_sub(a, b) == 0) <==> (a == b),
{
    let m = f.modulus as int;
    if a >= b {
        lemma_small_mod((a - b) as nat, m as nat);
    } else {
        lemma_mod_add_multiples_vanish((a as int) - (b as int), m);
        lemma_small_mod((a + m - b) as nat, m as nat);
    }
}

/// Multiplying a canonical representative by one leaves it unchanged.
proof fn lemma_mul_one(f: FieldOps, x: u64)
    requires
        f.wf(),
        x < f.modulus,
    ensures
        f.spec_mul(1, x) == x,
{
    lemma_small_mod(x as nat, f.modulus as nat);
}

/// On a row whose bit cells are the bits of `d`, the field resummation of
/// the decomposition computes the integer resummation, which stays
/// canonical.
proof fn lemma_decomp_sum_matches(f: FieldOps, cells: Seq<u64>, base: int, d: int, n: nat)
    requires
        f.wf(),
        0 <= base,
        base + (NUM_FIELD_COLS as int) <= cells.len(),
        n <= NUM_DIFF_BITS,
        0 <= d < 0x4000_0000,
        forall|i: int|
            0 <= i < NUM_DIFF_BITS ==> #[trigger] cells[base + 3 + i] == (bit_of(
                d,
                i as nat,
            ) as u64),
    ensures
        decomp_sum(f, cells, base, n) == bits_sum(d, n),
        0 <= bits_sum(d, n) < pow2(n),
    decreases n,
{
    let m = f.modulus as int;
    lemma_bits_sum_reconstructs(d, n);
    lemma_pow2_pos(n);
    if n > 0 {
        let k = (n - 1) as nat;
        lemma_decomp_sum_matches(f, cells, base, d, k);
        assert(pow2(29) == 0x2000_0000 && pow2(30) == 0x4000_0000) by {
            lemma2_to64();
        }
        if k < 29 {
            lemma_pow2_strictly_increases(k, 29);
        }
        let bit = bit_of(d, k);
        let prev = bits_sum(d, k);
        let term_cell = cells[base + 3 + (n - 1)];
        assert(term_cell == bit as u64);
        if bit == 0 {
            assert(f.spec_mul(0, pow2(k) as u64) == 0) by {
                assert((0int * (pow2(k) as int)) % m == 0) by (nonlinear_arith)
                    requires
                        m > 1,
                ;
            }
        } else {
            lemma_mul_one(f, pow2(k) as u64);
        }
        if n < 30 {
            lemma_pow2_strictly_increases(n, 30);
        }
        lemma_small_mod((prev + bit * pow2(k)) as nat, m as nat);
    }
}

/// Witness completeness law: a logical sub-row materialized from an
/// event whose operands are canonical field representatives in the
/// supported range, and whose claimed result is the true comparison,
/// satisfies every constraint the chip registers.
pub proof fn lemma_real_row_satisfies_constraints(
    f: FieldOps,
    cells: Seq<u64>,
    base: int,
    e: FieldEvent,
)
    requires
        f.wf(),
        0 <= base,
        base + (NUM_FIELD_COLS as int) <= cells.len(),
        in_supported_operand_range(e.b, e.c),
        e.b < f.modulus,
        e.c < f.modulus,
        e.ltu == (e.b < e.c),
        forall|k: int|
            0 <= k < NUM_FIELD_COLS ==> cells[base + k] == (#[trigger] event_cell(e, k) as u64),
    ensures
        subrow_ok(f, cells, base),
{
    let m = f.modulus as int;
    lemma_round_trip_decomposition(e.b, e.c);
    let d = d_of(e.b, e.c);
    assert(pow2(29) == 0x2000_0000 && pow2(30) == 0x4000_0000) by {
        lemma2_to64();
    }

    // Ungated booleanity: the claimed result and every bit cell hold a
    // boolean value.
    assert(event_cell(e, 0) == bool_cell(e.ltu));
    assert(cells[base] == (event_cell(e, 0) as u64));
    lemma_bool_cell_constraint(f, cells[base]);
    assert forall|i: int| 0 <= i < NUM_DIFF_BITS implies is_bool_constraint(
        f,
        #[trigger] cells[base + 3 + i],
    ) by {
        assert(cells[base + 3 + i] == (event_cell(e, 3 + i) as u64));
        lemma_pow2_pos(i as nat);
        lemma_bool_cell_constraint(f, cells[base + 3 + i]);
    }

    // The real-row flag is one.
    assert(event_cell(e, 33) == 1);
    assert(cells[base + 33] == 1);

    // Gated decomposition: both sides of the identity evaluate to `d`.
    assert forall|i: int|
        0 <= i < NUM_DIFF_BITS implies #[trigger] cells[base + 3 + i] == (bit_of(
        d,
        i as nat,
    ) as u64) by {
        assert(cells[base + 3 + i] == (event_cell(e, 3 + i) as u64));
    }
    lemma_decomp_sum_matches(f, cells, base, d, NUM_DIFF_BITS as nat);
    lemma_small_mod(d as nat, pow2(NUM_DIFF_BITS as nat));
    assert(decomp_sum(f, cells, base, NUM_DIFF_BITS as nat) == d);

    assert(event_cell(e, 1) == e.b);
    assert(event_cell(e, 2) == e.c);
    assert(cells[base + 1] == e.b as u64);
    assert(cells[base + 2] == e.c as u64);
    let sub_bc = f.spec_sub(cells[base + 1], cells[base + 2]);
    let lhs = f.spec_add(sub_bc, 0x2000_0000u64);
    assert(lhs == d as u64) by {
        let x = (e.b as int) - (e.c as int);
        vstd::arithmetic::div_mod::lemma_add_mod_noop(x, 0x2000_0000, m);
        lemma_small_mod(0x2000_0000nat, m as nat);
        lemma_small_mod(d as nat, m as nat);
    }
    lemma_sub_eq_iff(f, lhs, decomp_sum(f, cells, base, NUM_DIFF_BITS as nat));
    assert(f.spec_mul(1, 0) == 0) by {
        assert((1int * 0) % m == 0) by (nonlinear_arith)
            requires
                m > 1,
        ;
    }

    // Gated result: the claimed result is the complement of the top bit.
    let top = cells[base + 32];
    assert(top == (bit_of(d, LTU_NB_BITS as nat) as u64));
    let complement = f.spec_sub(1u64, top);
    assert(complement == 1 - top) by {
        lemma_small_mod((1 - top) as nat, m as nat);
    }
    assert(cells[base] == complement);
    lemma_sub_eq_iff(f, cells[base], complement);
}

/// The cells of the flattened trace prefix while the row of the event at
/// `idx` is being written: cells of earlier rows follow the trace layout,
/// and the first three cells of the current row hold the claimed result
/// and the operands of `e`.
pub open spec fn values_prefix(events: Seq<FieldEvent>, m: int, idx: int, e: FieldEvent) -> u32 {
    if m < idx * NUM_FIELD_COLS {
        trace_cell(events, m)
    } else if m == idx * NUM_FIELD_COLS {
        bool_cell(e.ltu)
    } else if m == idx * NUM_FIELD_COLS + 1 {
        e.b
    } else {
        e.c
    }
}

} // verus!
