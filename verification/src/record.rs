use vstd::prelude::*;

verus! {

/// The closed set of operation chips whose row heights the shape
/// normalizer discretizes. Each variant owns one constraint system in the
/// full machine; the shape layer only needs their identities.
#[derive(Clone, Copy, Debug, PartialEq, Eq, Structural)]
pub enum ChipKind {
    /// Preprocessed chip holding the static program instructions.
    Program,
    /// Preprocessed chip holding the static program memory image.
    ProgramMemory,
    /// The main CPU chip.
    Cpu,
    /// Division and remainder operations.
    DivRem,
    /// Addition and subtraction operations.
    AddSub,
    /// Bitwise operations.
    Bitwise,
    /// Multiplication operations.
    Mul,
    /// Right-shift operations.
    ShiftRight,
    /// Left-shift operations.
    ShiftLeft,
    /// Less-than comparisons.
    Lt,
    /// Memory initialization accesses.
    MemoryInit,
    /// Memory finalization accesses.
    MemoryFinal,
}

impl ChipKind {
    /// The stable identifier under which this chip is keyed in serialized
    /// shape artifacts; unique per chip kind.
    pub fn name(&self) -> (r: String)
        ensures
            r@ == self.spec_name(),
    {
        match self {
            ChipKind::Program => "Program".to_string(),
            ChipKind::ProgramMemory => "ProgramMemory".to_string(),
            ChipKind::Cpu => "Cpu".to_string(),
            ChipKind::DivRem => "DivRem".to_string(),
            ChipKind::AddSub => "AddSub".to_string(),
            ChipKind::Bitwise => "Bitwise".to_string(),
            ChipKind::Mul => "Mul".to_string(),
            ChipKind::ShiftRight => "ShiftRight".to_string(),
            ChipKind::ShiftLeft => "ShiftLeft".to_string(),
            ChipKind::Lt => "Lt".to_string(),
            ChipKind::MemoryInit => "MemoryInit".to_string(),
            ChipKind::MemoryFinal => "MemoryFinal".to_string(),
        }
    }

    /// The characters of this chip's stable identifier.
    pub open spec fn spec_name(self) -> Seq<char> {
        match self {
            ChipKind::Program => "Program"@,
            ChipKind::ProgramMemory => "ProgramMemory"@,
            ChipKind::Cpu => "Cpu"@,
            ChipKind::DivRem => "DivRem"@,
            ChipKind::AddSub => "AddSub"@,
            ChipKind::Bitwise => "Bitwise"@,
            ChipKind::Mul => "Mul"@,
            ChipKind::ShiftRight => "ShiftRight"@,
            ChipKind::ShiftLeft => "ShiftLeft"@,
            ChipKind::Lt => "Lt"@,
            ChipKind::MemoryInit => "MemoryInit"@,
            ChipKind::MemoryFinal => "MemoryFinal"@,
        }
    }
}

/// One entry of a shape: a chip together with its chosen log2 row height.
#[derive(Clone, Copy, Debug, PartialEq, Eq, Structural)]
pub struct ShapeEntry {
    /// The chip this entry speaks of.
    pub chip: ChipKind,
    /// The chosen log2 row height.
    pub log_height: usize,
}

/// A frozen proof shape for one record or program: the chips that occur,
/// each with its discretized log2 row height. Produced at most once per
/// proving run and immutable thereafter.
#[derive(Clone, Debug, PartialEq, Eq)]
pub struct CoreShape {
    /// The entries, one per chip, in the order the heights were presented.
    pub inner: Vec<ShapeEntry>,
}

/// One legal cross-chip proof shape produced by the enumeration: the
/// chips that are present, each with one of its allowed log2 row heights.
/// A plain mapping suitable for serialization as configuration data (each
/// chip's stable name is given by `ChipKind::name`).
#[derive(Clone, Debug, PartialEq, Eq)]
pub struct ProofShape {
    /// The present chips with their heights, in configuration order.
    pub inner: Vec<ShapeEntry>,
}

/// The static description of the guest code, as far as the shape
/// normalizer reads it: the natural row counts of the preprocessed chips,
/// plus the preprocessed shape once it has been fixed.
#[derive(Clone, Debug)]
pub struct Program {
    /// Natural row count of the program chip: one row per instruction.
    pub instruction_count: usize,
    /// Natural row count of the program memory chip: one row per entry of
    /// the static memory image.
    pub program_memory_count: usize,
    /// The preprocessed shape; set at most once, before any record derived
    /// from this program may have its shape fixed.
    pub preprocessed_shape: Option<CoreShape>,
}

/// The event tally of one core chip in an execution record.
#[derive(Clone, Copy, Debug, PartialEq, Eq, Structural)]
pub struct ChipCount {
    /// The chip whose events were tallied.
    pub chip: ChipKind,
    /// The natural row count of the chip: one row per event.
    pub count: usize,
}

/// A record of one machine execution: per-chip event lists (here, the
/// field less-than events and the tallies of the remaining core chips),
/// plus an optional shape once assigned.
///
/// The events are created exactly once by the execution collaborator and
/// are read-only to the chips; the shape transitions only from unset to
/// fixed.
#[derive(Clone, Debug)]
pub struct ExecutionRecord {
    /// The program this record was produced from.
    pub program: Program,
    /// The field less-than events, in execution order.
    pub field_events: Vec<crate::event::FieldEvent>,
    /// Natural row counts of the core chips, as tallied by the executor.
    pub core_event_counts: Vec<ChipCount>,
    /// The shape of the proof; set at most once.
    pub shape: Option<CoreShape>,
}

} // verus!
