use vstd::prelude::*;

use crate::record::{ChipCount, ChipKind, CoreShape, ExecutionRecord, Program, ProofShape, ShapeEntry};
use vstd::arithmetic::power2::pow2;
use vstd::bits::lemma_u64_shl_is_mul;

verus! {

/// The allowed log2 row heights of one chip: an ascending, duplicate-free
/// list, fixed at configuration-construction time.
#[derive(Clone, Debug)]
pub struct ChipHeights {
    /// The chip these heights apply to.
    pub chip: ChipKind,
    /// The allowed log2 heights, strictly ascending.
    pub heights: Vec<usize>,
}

/// The failure modes of shape fixing. Every one of them reflects a logic
/// defect or a configuration mismatch; there is no retry path.
#[derive(Clone, Copy, Debug, PartialEq, Eq, Structural)]
pub enum ShapeError {
    /// The program's preprocessed shape was already fixed; fixing it twice
    /// is a protocol-ordering violation.
    PreprocessedShapeAlreadyFixed,
    /// The record's shape was already fixed; fixing it twice is a
    /// protocol-ordering violation.
    ShapeAlreadyFixed,
    /// The record's program has no preprocessed shape yet; a record's
    /// shape may only be fixed afterwards.
    PreprocessedShapeMissing,
    /// A chip with observed events has no configured height list.
    ChipNotConfigured {
        /// The unconfigured chip.
        chip: ChipKind,
    },
    /// A chip's natural height exceeds its tallest allowed height: the
    /// configured table is insufficient for the observed workload.
    HeightNotAllowed {
        /// The overflowing chip.
        chip: ChipKind,
        /// The chip's natural row count.
        natural_height: usize,
        /// The tallest log2 height the configuration allows for the chip.
        max_allowed_log_height: usize,
    },
}

/// Well-formedness of one chip's allowed height list: non-empty, strictly
/// ascending, and every height small enough that `2^height` fits the
/// machine word (which also bounds the list's length).
pub open spec fn heights_wf(hs: Seq<usize>) -> bool {
    &&& hs.len() >= 1
    &&& hs.len() <= 64
    &&& forall|i: int, j: int| 0 <= i < j < hs.len() ==> hs[i] < hs[j]
    &&& forall|i: int| 0 <= i < hs.len() ==> hs[i] < 64
}

/// Well-formedness of a configuration: every chip's height list is well
/// formed and no chip occurs twice.
pub open spec fn spec_config_wf(entries: Seq<ChipHeights>) -> bool {
    &&& forall|k: int| 0 <= k < entries.len() ==> heights_wf(#[trigger] entries[k].heights@)
    &&& forall|i: int, j: int|
        0 <= i < j < entries.len() ==> entries[i].chip != entries[j].chip
}

/// The smallest allowed log2 height whose power of two holds `natural`
/// rows, if any: the first fitting entry of the ascending list.
pub open spec fn spec_select(hs: Seq<usize>, natural: usize) -> Option<usize>
    decreases hs.len(),
{
    if hs.len() == 0 {
        None
    } else if natural <= pow2(hs[0] as nat) {
        Some(hs[0])
    } else {
        spec_select(hs.drop_first(), natural)
    }
}

/// The allowed height list of `chip` in the configuration, if any.
pub open spec fn spec_find(entries: Seq<ChipHeights>, chip: ChipKind) -> Option<Seq<usize>>
    decreases entries.len(),
{
    if entries.len() == 0 {
        None
    } else if entries[0].chip == chip {
        Some(entries[0].heights@)
    } else {
        spec_find(entries.drop_first(), chip)
    }
}

/// The outcome of height selection for one chip: its selected log2
/// height, or the error naming the chip and, for an overflowing chip, its
/// natural height and the tallest allowed height.
pub open spec fn spec_chip_selection(
    entries: Seq<ChipHeights>,
    chip: ChipKind,
    natural: usize,
) -> Result<usize, ShapeError> {
    match spec_find(entries, chip) {
        Option::None => Result::Err(ShapeError::ChipNotConfigured { chip }),
        Option::Some(hs) => match spec_select(hs, natural) {
            Option::Some(h) => Result::Ok(h),
            Option::None => Result::Err(
                ShapeError::HeightNotAllowed {
                    chip,
                    natural_height: natural,
                    max_allowed_log_height: hs.last(),
                },
            ),
        },
    }
}

/// The outcome of height selection over a list of natural chip heights,
/// in order, stopping at the first failure: the shape entries, one per
/// tallied chip.
pub open spec fn spec_fix(entries: Seq<ChipHeights>, naturals: Seq<ChipCount>) -> Result<
    Seq<ShapeEntry>,
    ShapeError,
>
    decreases naturals.len(),
{
    if naturals.len() == 0 {
        Result::Ok(Seq::empty())
    } else {
        match spec_chip_selection(entries, naturals[0].chip, naturals[0].count) {
            Result::Err(e) => Result::Err(e),
            Result::Ok(h) => match spec_fix(entries, naturals.drop_first()) {
                Result::Err(e) => Result::Err(e),
                Result::Ok(rest) => Result::Ok(
                    seq![ShapeEntry { chip: naturals[0].chip, log_height: h }] + rest,
                ),
            },
        }
    }
}

/// The natural row counts of the preprocessing-only chips of a program:
/// the program chip holds one row per instruction, the program memory
/// chip one row per entry of the static memory image.
pub open spec fn spec_preprocessed_counts(p: Program) -> Seq<ChipCount> {
    seq![
        ChipCount { chip: ChipKind::Program, count: p.instruction_count },
        ChipCount { chip: ChipKind::ProgramMemory, count: p.program_memory_count },
    ]
}

/// A structure that enables fixing the shape of an execution record: per
/// chip, the ascending list of its allowed log2 row heights.
///
/// Fixing chip heights to a small discrete set bounds the number of
/// distinct circuit shapes the recursive verifier must support, trading a
/// little wasted padding for a precomputable set of recursion circuits.
pub struct CoreShapeConfig {
    allowed_log_heights: Vec<ChipHeights>,
}

impl CoreShapeConfig {
    /// The configured per-chip height lists.
    pub closed spec fn spec_entries(self) -> Seq<ChipHeights> {
        self.allowed_log_heights@
    }

    /// The configuration invariant, established by every constructor.
    pub open spec fn wf(self) -> bool {
        spec_config_wf(self.spec_entries())
    }

    /// Builds a configuration from per-chip allowed height lists.
    pub fn new(allowed_log_heights: Vec<ChipHeights>) -> (c: CoreShapeConfig)
        requires
            spec_config_wf(allowed_log_heights@),
        ensures
            c.wf(),
            c.spec_entries() == allowed_log_heights@,
    {
        CoreShapeConfig { allowed_log_heights }
    }

    /// The smallest allowed height of `heights` (from `start` on) that
    /// holds `natural` rows.
    fn select_height_from(heights: &Vec<usize>, start: usize, natural: usize) -> (r: Option<usize>)
        requires
            forall|i: int| 0 <= i < heights@.len() ==> heights@[i] < 64,
            start <= heights@.len(),
        ensures
            r == spec_select(heights@.skip(start as int), natural),
        decreases heights@.len() - start,
    {
        if start == heights.len() {
            proof {
                assert(heights@.skip(start as int) =~= Seq::<usize>::empty());
            }
            None
        } else {
            proof {
                assert(heights@.skip(start as int)[0] == heights@[start as int]);
                assert(heights@.skip(start as int).drop_first() =~= heights@.skip(
                    start as int + 1,
                ));
            }
            let h = heights[start];
            proof {
                vstd::bits::lemma_u64_pow2_no_overflow(h as nat);
                lemma_u64_shl_is_mul(1u64, h as u64);
            }
            let cap: u64 = 1u64 << (h as u64);
            if (natural as u64) <= cap {
                Some(h)
            } else {
                Self::select_height_from(heights, start + 1, natural)
            }
        }
    }

    /// The position of `chip` in the configuration, if it is configured.
    fn find_chip(&self, chip: ChipKind) -> (r: Option<usize>)
        ensures
            match r {
                Option::Some(k) => {
                    &&& k < self.spec_entries().len()
                    &&& self.spec_entries()[k as int].chip == chip
                    &&& spec_find(self.spec_entries(), chip) == Option::Some(
                        self.spec_entries()[k as int].heights@,
                    )
                },
                Option::None => spec_find(self.spec_entries(), chip) is None,
            },
    {
        let mut k: usize = 0;
        proof {
            assert(self.spec_entries().skip(0) =~= self.spec_entries());
        }
        while k < self.allowed_log_heights.len()
            invariant
                k <= self.allowed_log_heights@.len(),
                spec_find(self.spec_entries(), chip) == spec_find(
                    self.spec_entries().skip(k as int),
                    chip,
                ),
            decreases self.allowed_log_heights@.len() - k,
        {
            proof {
                assert(self.spec_entries().skip(k as int)[0] == self.spec_entries()[k as int]);
                assert(self.spec_entries().skip(k as int).drop_first() =~= self.spec_entries().skip(
                    k as int + 1,
                ));
            }
            if self.allowed_log_heights[k].chip == chip {
                return Some(k);
            }
            k += 1;
        }
        proof {
            assert(self.spec_entries().skip(k as int) =~= Seq::<ChipHeights>::empty());
        }
        None
    }

    /// The selected log2 height for one chip with `natural` rows, or the
    /// error naming it.
    fn chip_selection(&self, chip: ChipKind, natural: usize) -> (r: Result<usize, ShapeError>)
        requires
            self.wf(),
        ensures
            r == spec_chip_selection(self.spec_entries(), chip, natural),
    {
        match self.find_chip(chip) {
            None => Err(ShapeError::ChipNotConfigured { chip }),
            Some(k) => {
                let heights = &self.allowed_log_heights[k].heights;
                proof {
                    assert(heights@.skip(0) =~= heights@);
                }
                match Self::select_height_from(heights, 0, natural) {
                    Some(h) => Ok(h),
                    None => {
                        let max_allowed = heights[heights.len() - 1];
                        Err(
                            ShapeError::HeightNotAllowed {
                                chip,
                                natural_height: natural,
                                max_allowed_log_height: max_allowed,
                            },
                        )
                    },
                }
            },
        }
    }

    /// Selects a height for every tallied chip (from `start` on), in
    /// order, stopping at the first failure.
    fn fix_entries_from(&self, naturals: &Vec<ChipCount>, start: usize) -> (r: Result<
        Vec<ShapeEntry>,
        ShapeError,
    >)
        requires
            self.wf(),
            start <= naturals@.len(),
        ensures
            ({
                let s = spec_fix(self.spec_entries(), naturals@.skip(start as int));
                match r {
                    Result::Ok(v) => s is Ok && v@ == s->Ok_0,
                    Result::Err(e) => s is Err && e == s->Err_0,
                }
            }),
        decreases naturals@.len() - start,
    {
        if start == naturals.len() {
            proof {
                assert(naturals@.skip(start as int) =~= Seq::<ChipCount>::empty());
            }
            Ok(Vec::new())
        } else {
            proof {
                assert(naturals@.skip(start as int)[0] == naturals@[start as int]);
                assert(naturals@.skip(start as int).drop_first() =~= naturals@.skip(
                    start as int + 1,
                ));
            }
            let nc = naturals[start];
            match self.chip_selection(nc.chip, nc.count) {
                Err(e) => Err(e),
                Ok(h) => match self.fix_entries_from(naturals, start + 1) {
                    Err(e) => Err(e),
                    Ok(mut rest) => {
                        let ghost rest0 = rest@;
                        rest.insert(0, ShapeEntry { chip: nc.chip, log_height: h });
                        proof {
                            assert(rest@ =~= seq![ShapeEntry { chip: nc.chip, log_height: h }]
                                + rest0);
                        }
                        Ok(rest)
                    },
                },
            }
        }
    }

    /// Fixes the preprocessed shape of the proof on the program.
    ///
    /// Computes each preprocessing-only chip's natural row count from the
    /// static program and selects, per chip, the smallest allowed height
    /// that holds it. Fails, leaving the program unchanged, when the
    /// preprocessed shape was already fixed (idempotency is an invariant,
    /// not a best-effort check) or when a chip's tallest allowed height is
    /// insufficient.
    pub fn fix_preprocessed_shape(&self, program: &mut Program) -> (r: Result<(), ShapeError>)
        requires
            self.wf(),
        ensures
            match r {
                Result::Ok(_) => {
                    let s = spec_fix(self.spec_entries(), spec_preprocessed_counts(*old(program)));
                    &&& old(program).preprocessed_shape is None
                    &&& s is Ok
                    &&& final(program).preprocessed_shape matches Some(cs) && cs.inner@ == s->Ok_0
                    &&& final(program).instruction_count == old(program).instruction_count
                    &&& final(program).program_memory_count == old(program).program_memory_count
                },
                Result::Err(e) => {
                    &&& *final(program) == *old(program)
                    &&& if old(program).preprocessed_shape is Some {
                        e == ShapeError::PreprocessedShapeAlreadyFixed
                    } else {
                        let s = spec_fix(
                            self.spec_entries(),
                            spec_preprocessed_counts(*old(program)),
                        );
                        s is Err && e == s->Err_0
                    }
                },
            },
    {
        if program.preprocessed_shape.is_some() {
            return Err(ShapeError::PreprocessedShapeAlreadyFixed);
        }
        let mut counts: Vec<ChipCount> = Vec::new();
        counts.push(ChipCount { chip: ChipKind::Program, count: program.instruction_count });
        counts.push(
            ChipCount { chip: ChipKind::ProgramMemory, count: program.program_memory_count },
        );
        proof {
            assert(counts@ =~= spec_preprocessed_counts(*program));
            assert(counts@.skip(0) =~= counts@);
        }
        match self.fix_entries_from(&counts, 0) {
            Err(e) => Err(e),
            Ok(entries) => {
                program.preprocessed_shape = Some(CoreShape { inner: entries });
                Ok(())
            },
        }
    }

    /// Fixes the shape of the proof on the record.
    ///
    /// Requires the record's program to already have a preprocessed shape
    /// and the record's shape to be unset; selects, per tallied core
    /// chip, the smallest allowed height that holds its event count.
    /// Fails, leaving the record unchanged, on any protocol-ordering
    /// violation or insufficient height table.
    pub fn fix_shape(&self, record: &mut ExecutionRecord) -> (r: Result<(), ShapeError>)
        requires
            self.wf(),
        ensures
            match r {
                Result::Ok(_) => {
                    let s = spec_fix(self.spec_entries(), old(record).core_event_counts@);
                    &&& old(record).program.preprocessed_shape is Some
                    &&& old(record).shape is None
                    &&& s is Ok
                    &&& final(record).shape matches Some(cs) && cs.inner@ == s->Ok_0
                    &&& final(record).program == old(record).program
                    &&& final(record).field_events@ == old(record).field_events@
                    &&& final(record).core_event_counts@ == old(record).core_event_counts@
                },
                Result::Err(e) => {
                    &&& *final(record) == *old(record)
                    &&& if old(record).program.preprocessed_shape is None {
                        e == ShapeError::PreprocessedShapeMissing
                    } else if old(record).shape is Some {
                        e == ShapeError::ShapeAlreadyFixed
                    } else {
                        let s = spec_fix(self.spec_entries(), old(record).core_event_counts@);
                        s is Err && e == s->Err_0
                    }
                },
            },
    {
        if program_shape_missing(record) {
            return Err(ShapeError::PreprocessedShapeMissing);
        }
        if record.shape.is_some() {
            return Err(ShapeError::ShapeAlreadyFixed);
        }
        proof {
            assert(record.core_event_counts@.skip(0) =~= record.core_event_counts@);
        }
        match self.fix_entries_from(&record.core_event_counts, 0) {
            Err(e) => Err(e),
            Ok(entries) => {
                record.shape = Some(CoreShape { inner: entries });
                Ok(())
            },
        }
    }

    /// Returns the lazy enumeration of every legal cross-chip proof
    /// shape: the cross product, over all configured chips, of "absent"
    /// and "present at one allowed height", with absent entries dropped.
    /// Shapes are produced one at a time by index; nothing is
    /// materialized, and any number of readers may consume the
    /// enumeration independently.
    pub fn generate_all_allowed_shapes<'a>(&'a self) -> (e: ShapeEnumeration<'a>)
        requires
            self.wf(),
        ensures
            e.spec_dims() == self.spec_entries(),
            e.wf(),
    {
        ShapeEnumeration { dims: &self.allowed_log_heights }
    }
}

/// The default allowed-height table: the given chips, in order, with the
/// given ascending log2 height lists.
pub open spec fn spec_default_config(entries: Seq<ChipHeights>) -> bool {
    &&& entries.len() == 12
    &&& entries[0].chip == ChipKind::Program && entries[0].heights@ == seq![10usize, 16, 21, 22]
    &&& entries[1].chip == ChipKind::ProgramMemory && entries[1].heights@ == seq![
        10usize,
        16,
        21,
        22,
    ]
    &&& entries[2].chip == ChipKind::Cpu && entries[2].heights@ == seq![16usize, 20, 21, 22]
    &&& entries[3].chip == ChipKind::DivRem && entries[3].heights@ == seq![10usize, 16, 20, 21, 22]
    &&& entries[4].chip == ChipKind::AddSub && entries[4].heights@ == seq![10usize, 16, 20, 21, 22]
    &&& entries[5].chip == ChipKind::Bitwise && entries[5].heights@ == seq![
        10usize,
        16,
        20,
        21,
        22,
    ]
    &&& entries[6].chip == ChipKind::Mul && entries[6].heights@ == seq![10usize, 16, 20, 21, 22]
    &&& entries[7].chip == ChipKind::ShiftRight && entries[7].heights@ == seq![
        10usize,
        18,
        20,
        21,
        22,
    ]
    &&& entries[8].chip == ChipKind::ShiftLeft && entries[8].heights@ == seq![
        10usize,
        18,
        20,
        21,
        22,
    ]
    &&& entries[9].chip == ChipKind::Lt && entries[9].heights@ == seq![10usize, 18, 20, 21, 22]
    &&& entries[10].chip == ChipKind::MemoryInit && entries[10].heights@ == seq![
        10usize,
        18,
        20,
        21,
        22,
    ]
    &&& entries[11].chip == ChipKind::MemoryFinal && entries[11].heights@ == seq![
        10usize,
        18,
        20,
        21,
        22,
    ]
}

impl Default for CoreShapeConfig {
    /// The default allowed-height table of the core machine: the two
    /// preprocessed chips and the ten core chips, each with its ascending
    /// list of candidate log2 heights.
    fn default() -> (c: Self)
        ensures
            c.wf(),
            spec_default_config(c.spec_entries()),
    {
        let mut entries: Vec<ChipHeights> = Vec::new();

        // Preprocessed chip heights.
        entries.push(ChipHeights { chip: ChipKind::Program, heights: vec![10, 16, 21, 22] });
        entries.push(ChipHeights { chip: ChipKind::ProgramMemory, heights: vec![10, 16, 21, 22] });

        // Core chip heights.
        entries.push(ChipHeights { chip: ChipKind::Cpu, heights: vec![16, 20, 21, 22] });
        entries.push(ChipHeights { chip: ChipKind::DivRem, heights: vec![10, 16, 20, 21, 22] });
        entries.push(ChipHeights { chip: ChipKind::AddSub, heights: vec![10, 16, 20, 21, 22] });
        entries.push(ChipHeights { chip: ChipKind::Bitwise, heights: vec![10, 16, 20, 21, 22] });
        entries.push(ChipHeights { chip: ChipKind::Mul, heights: vec![10, 16, 20, 21, 22] });
        entries.push(ChipHeights { chip: ChipKind::ShiftRight, heights: vec![10, 18, 20, 21, 22] });
        entries.push(ChipHeights { chip: ChipKind::ShiftLeft, heights: vec![10, 18, 20, 21, 22] });
        entries.push(ChipHeights { chip: ChipKind::Lt, heights: vec![10, 18, 20, 21, 22] });
        entries.push(ChipHeights { chip: ChipKind::MemoryInit, heights: vec![10, 18, 20, 21, 22] });
        entries.push(
            ChipHeights { chip: ChipKind::MemoryFinal, heights: vec![10, 18, 20, 21, 22] },
        );

        CoreShapeConfig { allowed_log_heights: entries }
    }
}

/// Whether the record's program still lacks a preprocessed shape.
fn program_shape_missing(record: &ExecutionRecord) -> (r: bool)
    ensures
        r == (record.program.preprocessed_shape is None),
{
    record.program.preprocessed_shape.is_none()
}

/// The number of legal shapes of a configuration: the product, over its
/// chips, of one more than the number of the chip's allowed heights.
pub open spec fn spec_num_shapes(dims: Seq<ChipHeights>) -> nat
    decreases dims.len(),
{
    if dims.len() == 0 {
        1
    } else {
        (dims[0].heights@.len() + 1) * spec_num_shapes(dims.drop_first())
    }
}

/// The shape at position `i` of the enumeration: `i` is read as a mixed
/// radix numeral, least-significant digit first, with one digit per chip
/// in base "number of allowed heights plus one"; digit zero makes the
/// chip absent and digit `d > 0` makes it present at its `d`-th smallest
/// allowed height. Absent chips are dropped from the shape.
pub open spec fn spec_shape_at(dims: Seq<ChipHeights>, i: nat) -> Seq<ShapeEntry>
    decreases dims.len(),
{
    if dims.len() == 0 {
        Seq::empty()
    } else {
        let base = dims[0].heights@.len() + 1;
        let digit = i % base;
        let rest = spec_shape_at(dims.drop_first(), i / base);
        if digit == 0 {
            rest
        } else {
            seq![
                ShapeEntry { chip: dims[0].chip, log_height: dims[0].heights@[digit - 1] },
            ] + rest
        }
    }
}

/// A lazy, pull-based enumeration of every legal cross-chip proof shape
/// of a configuration. The cross product can be astronomically large, so
/// it is never materialized: each shape is computed on demand from its
/// index, and the enumeration may be early-terminated or shared by any
/// number of independent readers.
pub struct ShapeEnumeration<'a> {
    dims: &'a Vec<ChipHeights>,
}

impl<'a> ShapeEnumeration<'a> {
    /// The configured per-chip height lists the enumeration ranges over.
    pub closed spec fn spec_dims(self) -> Seq<ChipHeights> {
        self.dims@
    }

    /// The enumeration's configuration invariant.
    pub open spec fn wf(self) -> bool {
        spec_config_wf(self.spec_dims())
    }

    /// The number of legal shapes (from chip `start` on), unless it
    /// exceeds the machine word.
    fn num_shapes_from(&self, start: usize) -> (r: Option<u64>)
        requires
            self.wf(),
            start <= self.spec_dims().len(),
        ensures
            match r {
                Option::Some(n) => n == spec_num_shapes(self.spec_dims().skip(start as int)),
                Option::None => spec_num_shapes(self.spec_dims().skip(start as int)) > u64::MAX,
            },
        decreases self.spec_dims().len() - start,
    {
        if start == self.dims.len() {
            proof {
                assert(self.spec_dims().skip(start as int) =~= Seq::<ChipHeights>::empty());
            }
            Some(1)
        } else {
            proof {
                assert(self.spec_dims().skip(start as int)[0] == self.spec_dims()[start as int]);
                assert(self.spec_dims().skip(start as int).drop_first() =~= self.spec_dims().skip(
                    start as int + 1,
                ));
            }
            let base: u64 = self.dims[start].heights.len() as u64 + 1;
            match self.num_shapes_from(start + 1) {
                None => {
                    proof {
                        let rest = spec_num_shapes(self.spec_dims().skip(start as int + 1));
                        assert((base as nat) * rest >= rest) by (nonlinear_arith)
                            requires
                                base >= 1,
                                rest >= 0,
                        ;
                    }
                    None
                },
                Some(n) => {
                    let r = base.checked_mul(n);
                    proof {
                        if r is None {
                            assert((base as nat) * (n as nat) > u64::MAX);
                        }
                    }
                    r
                },
            }
        }
    }

    /// The number of legal shapes of the whole configuration, unless it
    /// exceeds the machine word.
    pub fn num_shapes(&self) -> (r: Option<u64>)
        requires
            self.wf(),
        ensures
            match r {
                Option::Some(n) => n == spec_num_shapes(self.spec_dims()),
                Option::None => spec_num_shapes(self.spec_dims()) > u64::MAX,
            },
    {
        proof {
            assert(self.spec_dims().skip(0) =~= self.spec_dims());
        }
        self.num_shapes_from(0)
    }

    /// The entries of the shape at `index`, over the chips from `start`
    /// on.
    fn shape_at_from(&self, start: usize, index: u64) -> (v: Vec<ShapeEntry>)
        requires
            self.wf(),
            start <= self.spec_dims().len(),
        ensures
            v@ == spec_shape_at(self.spec_dims().skip(start as int), index as nat),
        decreases self.spec_dims().len() - start,
    {
        if start == self.dims.len() {
            proof {
                assert(self.spec_dims().skip(start as int) =~= Seq::<ChipHeights>::empty());
            }
            Vec::new()
        } else {
            proof {
                assert(self.spec_dims().skip(start as int)[0] == self.spec_dims()[start as int]);
                assert(self.spec_dims().skip(start as int).drop_first() =~= self.spec_dims().skip(
                    start as int + 1,
                ));
            }
            let entry = &self.dims[start];
            let base: u64 = entry.heights.len() as u64 + 1;
            let digit: u64 = index % base;
            let rest_index: u64 = index / base;
            let mut rest = self.shape_at_from(start + 1, rest_index);
            if digit == 0 {
                rest
            } else {
                let h = entry.heights[(digit - 1) as usize];
                let ghost rest0 = rest@;
                rest.insert(0, ShapeEntry { chip: entry.chip, log_height: h });
                proof {
                    assert(rest@ =~= seq![ShapeEntry { chip: entry.chip, log_height: h }] + rest0);
                }
                rest
            }
        }
    }

    /// The shape at position `index` of the enumeration. Every index
    /// below `num_shapes` yields a distinct legal shape, and together
    /// they exhaust the cross product of "absent or present at one
    /// allowed height" over all configured chips.
    pub fn shape_at(&self, index: u64) -> (s: ProofShape)
        requires
            self.wf(),
        ensures
            s.inner@ == spec_shape_at(self.spec_dims(), index as nat),
    {
        proof {
            assert(self.spec_dims().skip(0) =~= self.spec_dims());
        }
        ProofShape { inner: self.shape_at_from(0, index) }
    }
}

/// Whether some configured chip carries this identity.
pub open spec fn chip_in_dims(dims: Seq<ChipHeights>, chip: ChipKind) -> bool {
    exists|k: int| 0 <= k < dims.len() && dims[k].chip == chip
}

/// Every entry of an enumerated shape speaks of a configured chip.
proof fn lemma_shape_chips_from_config(dims: Seq<ChipHeights>, i: nat)
    ensures
        forall|x: int|
            0 <= x < spec_shape_at(dims, i).len() ==> chip_in_dims(
                dims,
                #[trigger] spec_shape_at(dims, i)[x].chip,
            ),
    decreases dims.len(),
{
    if dims.len() > 0 {
        let tail = dims.drop_first();
        let base = dims[0].heights@.len() + 1;
        let digit = i % base;
        let rest = spec_shape_at(tail, i / base);
        lemma_shape_chips_from_config(tail, i / base);
        assert forall|x: int| 0 <= x < spec_shape_at(dims, i).len() implies chip_in_dims(
            dims,
            #[trigger] spec_shape_at(dims, i)[x].chip,
        ) by {
            let s = spec_shape_at(dims, i);
            if digit == 0 {
                assert(s[x] == rest[x]);
                let k = choose|k: int| 0 <= k < tail.len() && tail[k].chip == rest[x].chip;
                assert(dims[k + 1].chip == s[x].chip);
            } else {
                if x == 0 {
                    assert(dims[0].chip == s[0].chip);
                } else {
                    assert(s[x] == rest[x - 1]);
                    let k = choose|k: int| 0 <= k < tail.len() && tail[k].chip == rest[x - 1].chip;
                    assert(dims[k + 1].chip == s[x].chip);
                }
            }
        }
    }
}

/// Enumeration distinctness law: below the total shape count, distinct
/// indices enumerate distinct shapes; together with the count this says
/// the enumeration yields the cross product of "absent or present at one
/// allowed height" over all configured chips with no repetition.
pub proof fn lemma_enumeration_distinct(dims: Seq<ChipHeights>, i: nat, j: nat)
    requires
        spec_config_wf(dims),
        i < spec_num_shapes(dims),
        j < spec_num_shapes(dims),
        i != j,
    ensures
        spec_shape_at(dims, i) != spec_shape_at(dims, j),
    decreases dims.len(),
{
    if dims.len() == 0 {
        assert(false);
    } else {
        let tail = dims.drop_first();
        assert(spec_config_wf(tail)) by {
            assert(forall|k: int| 0 <= k < tail.len() ==> tail[k] == dims[k + 1]);
        }
        let base = dims[0].heights@.len() + 1;
        let di = i % base;
        let ri = i / base;
        let dj = j % base;
        let rj = j / base;
        let rest_count = spec_num_shapes(tail);
        assert(spec_num_shapes(dims) == base * rest_count);
        vstd::arithmetic::div_mod::lemma_multiply_divide_lt(i as int, base as int, rest_count as int);
        vstd::arithmetic::div_mod::lemma_multiply_divide_lt(j as int, base as int, rest_count as int);
        let si = spec_shape_at(dims, i);
        let sj = spec_shape_at(dims, j);
        let ti = spec_shape_at(tail, ri);
        let tj = spec_shape_at(tail, rj);
        if di == dj {
            if ri == rj {
                vstd::arithmetic::div_mod::lemma_fundamental_div_mod(i as int, base as int);
                vstd::arithmetic::div_mod::lemma_fundamental_div_mod(j as int, base as int);
                assert(false);
            } else {
                lemma_enumeration_distinct(tail, ri, rj);
                let head_len: int = if di == 0 {
                    0
                } else {
                    1
                };
                if si == sj {
                    assert(ti =~= tj) by {
                        assert(si.len() == head_len + ti.len());
                        assert(sj.len() == head_len + tj.len());
                        assert(forall|x: int| 0 <= x < ti.len() ==> ti[x] == si[head_len + x]);
                        assert(forall|x: int| 0 <= x < tj.len() ==> tj[x] == sj[head_len + x]);
                    }
                    assert(false);
                }
            }
        } else if di != 0 && dj != 0 {
            // Both present: the head entries carry distinct heights of a
            // duplicate-free ascending list.
            assert(heights_wf(dims[0].heights@));
            assert(dims[0].heights@[di - 1] != dims[0].heights@[dj - 1]) by {
                if di < dj {
                    assert(dims[0].heights@[di - 1] < dims[0].heights@[dj - 1]);
                } else {
                    assert(dims[0].heights@[dj - 1] < dims[0].heights@[di - 1]);
                }
            }
            assert(si[0].log_height == dims[0].heights@[di - 1]);
            assert(sj[0].log_height == dims[0].heights@[dj - 1]);
            if si == sj {
                assert(false);
            }
        } else {
            // Exactly one of the two shapes carries the first chip, whose
            // identity no tail entry can carry.
            let (absent, present) = if di == 0 {
                (si, sj)
            } else {
                (sj, si)
            };
            assert(absent == spec_shape_at(tail, if di == 0 { ri } else { rj }));
            assert(present[0].chip == dims[0].chip);
            if si == sj {
                assert(absent.len() == present.len() >= 1);
                assert(absent[0].chip == dims[0].chip);
                lemma_shape_chips_from_config(tail, if di == 0 { ri } else { rj });
                let k = choose|k: int| 0 <= k < tail.len() && tail[k].chip == absent[0].chip;
                assert(dims[k + 1].chip == dims[0].chip);
                assert(false);
            }
        }
    }
}

/// Shape monotonicity law: whenever two natural heights both fit the
/// tallest allowed height of a well-formed ascending list, the height
/// selected for the smaller one is at most the height selected for the
/// larger one.
pub proof fn lemma_shape_monotonicity(hs: Seq<usize>, n1: usize, n2: usize)
    requires
        heights_wf(hs),
        n1 <= n2,
        n2 as nat <= pow2(hs.last() as nat),
    ensures
        spec_select(hs, n1) is Some,
        spec_select(hs, n2) is Some,
        spec_select(hs, n1)->Some_0 <= spec_select(hs, n2)->Some_0,
    decreases hs.len(),
{
    lemma_select_fits(hs, n1);
    lemma_select_fits(hs, n2);
    if n2 <= pow2(hs[0] as nat) {
    } else if n1 <= pow2(hs[0] as nat) {
        let h2 = spec_select(hs, n2)->Some_0;
        let k = choose|k: int| 0 <= k < hs.len() && hs[k] == h2;
        if k > 0 {
            assert(hs[0] < hs[k]);
        } else {
            assert(n2 <= pow2(hs[0] as nat));
        }
    } else {
        assert(hs.len() >= 2) by {
            if hs.len() == 1 {
                assert(hs.last() == hs[0]);
            }
        }
        let tail = hs.drop_first();
        assert(heights_wf(tail)) by {
            assert(forall|i: int| 0 <= i < tail.len() ==> tail[i] == hs[i + 1]);
        }
        assert(tail.last() == hs.last());
        lemma_shape_monotonicity(tail, n1, n2);
    }
}

/// Whenever a natural height fits the tallest allowed height of a
/// well-formed ascending list, selection succeeds, the selected height is
/// one of the list's, and the natural height fits it.
pub proof fn lemma_select_fits(hs: Seq<usize>, natural: usize)
    requires
        heights_wf(hs),
        natural as nat <= pow2(hs.last() as nat),
    ensures
        spec_select(hs, natural) is Some,
        exists|k: int|
            0 <= k < hs.len() && hs[k] == spec_select(hs, natural)->Some_0,
        natural as nat <= pow2(spec_select(hs, natural)->Some_0 as nat),
    decreases hs.len(),
{
    if natural <= pow2(hs[0] as nat) {
        assert(hs[0] == spec_select(hs, natural)->Some_0);
    } else {
        assert(hs.len() >= 2) by {
            if hs.len() == 1 {
                assert(hs.last() == hs[0]);
            }
        }
        let tail = hs.drop_first();
        assert(heights_wf(tail)) by {
            assert(forall|i: int| 0 <= i < tail.len() ==> tail[i] == hs[i + 1]);
        }
        assert(tail.last() == hs.last());
        lemma_select_fits(tail, natural);
        let h = spec_select(tail, natural)->Some_0;
        let k = choose|k: int| 0 <= k < tail.len() && tail[k] == h;
        assert(hs[k + 1] == h);
    }
}

} // verus!
