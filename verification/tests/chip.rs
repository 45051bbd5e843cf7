use core_machine::builder::{Interaction, RowConstraintBuilder};
use core_machine::event::FieldEvent;
use core_machine::field::FieldLTUChip;
use core_machine::field_ops::FieldOps;
use core_machine::record::{ExecutionRecord, Program};

const BABY_BEAR: u64 = 2013265921;
const ROW_WIDTH: usize = 34 * 4;

fn record_with_events(events: Vec<FieldEvent>) -> ExecutionRecord {
    ExecutionRecord {
        program: Program {
            instruction_count: 0,
            program_memory_count: 0,
            preprocessed_shape: None,
        },
        field_events: events,
        core_event_counts: Vec::new(),
        shape: None,
    }
}

fn four_events() -> Vec<FieldEvent> {
    vec![
        FieldEvent::new(5, 10, true),
        FieldEvent::new(10, 5, false),
        FieldEvent::new(0, 0, false),
        FieldEvent::new(7, 7, false),
    ]
}

#[test]
fn chip_name_and_width() {
    let chip = FieldLTUChip::default();
    assert_eq!(chip.name(), "FieldLTU");
    assert_eq!(chip.width(), ROW_WIDTH);
}

#[test]
fn trace_concrete_cells() {
    let chip = FieldLTUChip::default();
    let record = record_with_events(four_events());
    let trace = chip.generate_trace(&record).unwrap();
    assert_eq!(trace.width, ROW_WIDTH);
    // Four events fill exactly one physical row; one row is already a
    // power of two.
    assert_eq!(trace.values.len(), ROW_WIDTH);

    // Event 0: b = 5, c = 10, claimed lt = 1.
    let d0: u32 = 5u32.wrapping_sub(10).wrapping_add(1 << 29);
    assert_eq!(d0, (1 << 29) - 5);
    assert_eq!(trace.values[0], 1);
    assert_eq!(trace.values[1], 5);
    assert_eq!(trace.values[2], 10);
    for i in 0..30 {
        assert_eq!(trace.values[3 + i], (d0 >> i) & 1);
    }
    // The top bit is clear, so the complement says 5 < 10.
    assert_eq!(trace.values[3 + 29], 0);
    assert_eq!(trace.values[33], 1);

    // Event 1: b = 10, c = 5, claimed lt = 0.
    let d1: u32 = 10u32.wrapping_sub(5).wrapping_add(1 << 29);
    assert_eq!(d1, (1 << 29) + 5);
    assert_eq!(trace.values[34], 0);
    assert_eq!(trace.values[35], 10);
    assert_eq!(trace.values[36], 5);
    for i in 0..30 {
        assert_eq!(trace.values[34 + 3 + i], (d1 >> i) & 1);
    }
    // The top bit is set, so the complement says not 10 < 5.
    assert_eq!(trace.values[34 + 3 + 29], 1);
    assert_eq!(trace.values[34 + 33], 1);
}

#[test]
fn packing_boundary_drops_partial_group() {
    // Ten events with packing factor four: two complete groups are
    // emitted and the trailing two events are dropped.
    let chip = FieldLTUChip::default();
    let mut events = Vec::new();
    for k in 0..10u32 {
        events.push(FieldEvent::new(k, k + 1, true));
    }
    let record = record_with_events(events);
    let trace = chip.generate_trace(&record).unwrap();
    // Two physical rows, already a power of two.
    assert_eq!(trace.values.len(), 2 * ROW_WIDTH);
    // The last emitted logical row holds event 7, not event 9.
    assert_eq!(trace.values[ROW_WIDTH + 3 * 34 + 1], 7);
}

#[test]
fn empty_record_pads_to_one_row() {
    let chip = FieldLTUChip::default();
    let record = record_with_events(Vec::new());
    let trace = chip.generate_trace(&record).unwrap();
    assert_eq!(trace.values.len(), ROW_WIDTH);
    assert!(trace.values.iter().all(|&v| v == 0));
}

#[test]
fn padding_extends_to_next_power_of_two() {
    // Twelve events make three physical rows, padded to four.
    let chip = FieldLTUChip::default();
    let mut events = Vec::new();
    for k in 0..12u32 {
        events.push(FieldEvent::new(k, k, false));
    }
    let record = record_with_events(events);
    let trace = chip.generate_trace(&record).unwrap();
    assert_eq!(trace.values.len(), 4 * ROW_WIDTH);
    for m in 3 * ROW_WIDTH..4 * ROW_WIDTH {
        assert_eq!(trace.values[m], 0);
    }
}

#[test]
fn malformed_witness_reports_first_offender() {
    // The second event's shifted difference needs 31 bits.
    let chip = FieldLTUChip::default();
    let events = vec![
        FieldEvent::new(5, 10, true),
        FieldEvent::new(0, 0x8000_0000, true),
        FieldEvent::new(1, 2, true),
        FieldEvent::new(3, 4, true),
    ];
    let record = record_with_events(events);
    let err = chip.generate_trace(&record).unwrap_err();
    assert_eq!(err.index, 1);
    assert_eq!(err.b, 0);
    assert_eq!(err.c, 0x8000_0000);
}

#[test]
fn round_trip_decomposition_concrete() {
    for &(b, c) in &[
        (5u32, 10u32),
        (10, 5),
        (0, 0),
        (123_456, 654_321),
        (654_321, 123_456),
        (0, 1 << 29),
    ] {
        let d = b.wrapping_sub(c).wrapping_add(1 << 29);
        assert!(d < (1 << 30));
        let mut sum: u32 = 0;
        for i in 0..30 {
            sum += ((d >> i) & 1) << i;
        }
        assert_eq!(sum, d);
        let top = (d >> 29) & 1;
        assert_eq!(top == 0, b < c);
    }
}

fn first_row_as_field_elements(trace: &core_machine::trace::Trace) -> Vec<u64> {
    trace.values[..ROW_WIDTH].iter().map(|&v| v as u64).collect()
}

#[test]
fn eval_accepts_real_rows() {
    let chip = FieldLTUChip::default();
    let record = record_with_events(four_events());
    let trace = chip.generate_trace(&record).unwrap();
    let field = FieldOps::new(BABY_BEAR);
    let mut builder = RowConstraintBuilder::new(field, first_row_as_field_elements(&trace));
    chip.eval(&mut builder);
    assert!(builder.satisfied);
    assert_eq!(builder.interactions.len(), 4);
    assert_eq!(
        builder.interactions[0],
        Interaction { lt: 1, b: 5, c: 10, multiplicity: 1 }
    );
    assert_eq!(
        builder.interactions[1],
        Interaction { lt: 0, b: 10, c: 5, multiplicity: 1 }
    );
}

#[test]
fn eval_rejects_tampered_row() {
    let chip = FieldLTUChip::default();
    let record = record_with_events(four_events());
    let trace = chip.generate_trace(&record).unwrap();
    let field = FieldOps::new(BABY_BEAR);

    // A non-boolean bit cell violates the ungated booleanity identity.
    let mut row = first_row_as_field_elements(&trace);
    row[3] = 2;
    let mut builder = RowConstraintBuilder::new(field, row);
    chip.eval(&mut builder);
    assert!(!builder.satisfied);

    // A flipped (still boolean) bit cell breaks the gated decomposition.
    let mut row = first_row_as_field_elements(&trace);
    row[4] = 1 - row[4];
    let mut builder = RowConstraintBuilder::new(field, row);
    chip.eval(&mut builder);
    assert!(!builder.satisfied);

    // A wrong claimed result breaks the gated top-bit identity.
    let mut row = first_row_as_field_elements(&trace);
    row[0] = 0;
    let mut builder = RowConstraintBuilder::new(field, row);
    chip.eval(&mut builder);
    assert!(!builder.satisfied);
}

#[test]
fn eval_padding_rows_are_inert() {
    // An all-zero padding row satisfies every identity, and its
    // interaction claims carry multiplicity zero.
    let chip = FieldLTUChip::default();
    let field = FieldOps::new(BABY_BEAR);
    let mut builder = RowConstraintBuilder::new(field, vec![0u64; ROW_WIDTH]);
    chip.eval(&mut builder);
    assert!(builder.satisfied);
    assert_eq!(builder.interactions.len(), 4);
    for claim in &builder.interactions {
        assert_eq!(claim.multiplicity, 0);
    }
}

#[test]
fn field_ops_arithmetic() {
    let f = FieldOps::new(BABY_BEAR);
    assert_eq!(f.add_mod(BABY_BEAR - 1, 1), 0);
    assert_eq!(f.sub_mod(0, 1), BABY_BEAR - 1);
    assert_eq!(f.mul_mod(1 << 16, 1 << 16), (1u64 << 32) % BABY_BEAR);
    assert_eq!(f.from_canonical_u32(42), 42);
    assert_eq!(f.from_bool(true), 1);
    assert_eq!(f.from_bool(false), 0);
    assert_eq!(f.zero(), 0);
    assert_eq!(f.one(), 1);
}
