use core_machine::record::{
    ChipCount, ChipKind, ExecutionRecord, Program, ProofShape, ShapeEntry,
};
use core_machine::shape::{ChipHeights, CoreShapeConfig, ShapeError};

fn program(instructions: usize, memory: usize) -> Program {
    Program {
        instruction_count: instructions,
        program_memory_count: memory,
        preprocessed_shape: None,
    }
}

fn record(prog: Program, counts: Vec<ChipCount>) -> ExecutionRecord {
    ExecutionRecord {
        program: prog,
        field_events: Vec::new(),
        core_event_counts: counts,
        shape: None,
    }
}

#[test]
fn fix_preprocessed_shape_selects_smallest_heights() {
    let config = CoreShapeConfig::default();
    let mut prog = program(1000, 2000);
    config.fix_preprocessed_shape(&mut prog).unwrap();
    let shape = prog.preprocessed_shape.expect("preprocessed shape fixed");
    assert_eq!(
        shape.inner,
        vec![
            ShapeEntry { chip: ChipKind::Program, log_height: 10 },
            ShapeEntry { chip: ChipKind::ProgramMemory, log_height: 16 },
        ]
    );
}

#[test]
fn fix_preprocessed_shape_twice_rejected() {
    let config = CoreShapeConfig::default();
    let mut prog = program(1, 1);
    config.fix_preprocessed_shape(&mut prog).unwrap();
    // The second call is always rejected, although it would select the
    // same heights again.
    let err = config.fix_preprocessed_shape(&mut prog).unwrap_err();
    assert_eq!(err, ShapeError::PreprocessedShapeAlreadyFixed);
}

#[test]
fn fix_shape_selects_smallest_heights() {
    let config = CoreShapeConfig::default();
    let mut prog = program(10, 10);
    config.fix_preprocessed_shape(&mut prog).unwrap();
    let mut rec = record(
        prog,
        vec![
            ChipCount { chip: ChipKind::Cpu, count: 70_000 },
            ChipCount { chip: ChipKind::Lt, count: 1000 },
        ],
    );
    config.fix_shape(&mut rec).unwrap();
    let shape = rec.shape.expect("shape fixed");
    assert_eq!(
        shape.inner,
        vec![
            ShapeEntry { chip: ChipKind::Cpu, log_height: 20 },
            ShapeEntry { chip: ChipKind::Lt, log_height: 10 },
        ]
    );
}

#[test]
fn fix_shape_requires_preprocessed_shape() {
    let config = CoreShapeConfig::default();
    let mut rec = record(program(10, 10), Vec::new());
    let err = config.fix_shape(&mut rec).unwrap_err();
    assert_eq!(err, ShapeError::PreprocessedShapeMissing);
    assert!(rec.shape.is_none());
}

#[test]
fn fix_shape_twice_rejected() {
    let config = CoreShapeConfig::default();
    let mut prog = program(10, 10);
    config.fix_preprocessed_shape(&mut prog).unwrap();
    let mut rec = record(prog, vec![ChipCount { chip: ChipKind::Cpu, count: 5 }]);
    config.fix_shape(&mut rec).unwrap();
    let err = config.fix_shape(&mut rec).unwrap_err();
    assert_eq!(err, ShapeError::ShapeAlreadyFixed);
}

#[test]
fn height_not_allowed_reports_chip_and_heights() {
    let config = CoreShapeConfig::default();
    // The tallest allowed program height is 22, i.e. 4194304 rows.
    let mut prog = program(5_000_000, 1);
    let err = config.fix_preprocessed_shape(&mut prog).unwrap_err();
    assert_eq!(
        err,
        ShapeError::HeightNotAllowed {
            chip: ChipKind::Program,
            natural_height: 5_000_000,
            max_allowed_log_height: 22,
        }
    );
    assert!(prog.preprocessed_shape.is_none());
}

#[test]
fn chip_not_configured_reported() {
    let config = CoreShapeConfig::new(vec![ChipHeights {
        chip: ChipKind::Cpu,
        heights: vec![16, 20],
    }]);
    let mut prog = program(1, 1);
    let err = config.fix_preprocessed_shape(&mut prog).unwrap_err();
    assert_eq!(err, ShapeError::ChipNotConfigured { chip: ChipKind::Program });
}

#[test]
fn shape_selection_is_monotone() {
    // A smaller natural height never selects a taller allowed height.
    let config = CoreShapeConfig::default();
    let mut prog1 = program(10, 10);
    let mut prog2 = program(10, 10);
    config.fix_preprocessed_shape(&mut prog1).unwrap();
    config.fix_preprocessed_shape(&mut prog2).unwrap();
    let mut rec1 = record(prog1, vec![ChipCount { chip: ChipKind::Lt, count: 1000 }]);
    let mut rec2 = record(prog2, vec![ChipCount { chip: ChipKind::Lt, count: 60_000 }]);
    config.fix_shape(&mut rec1).unwrap();
    config.fix_shape(&mut rec2).unwrap();
    let h1 = rec1.shape.unwrap().inner[0].log_height;
    let h2 = rec2.shape.unwrap().inner[0].log_height;
    assert_eq!(h1, 10);
    assert_eq!(h2, 18);
    assert!(h1 <= h2);
}

#[test]
fn enumeration_is_complete_and_duplicate_free() {
    // Two chips, one with heights [16, 20] and one with [18], give
    // exactly six legal shapes.
    let config = CoreShapeConfig::new(vec![
        ChipHeights { chip: ChipKind::Cpu, heights: vec![16, 20] },
        ChipHeights { chip: ChipKind::Lt, heights: vec![18] },
    ]);
    let enumeration = config.generate_all_allowed_shapes();
    assert_eq!(enumeration.num_shapes(), Some(6));

    let shapes: Vec<ProofShape> = (0..6).map(|i| enumeration.shape_at(i)).collect();
    let expected: Vec<Vec<ShapeEntry>> = vec![
        vec![],
        vec![ShapeEntry { chip: ChipKind::Cpu, log_height: 16 }],
        vec![ShapeEntry { chip: ChipKind::Cpu, log_height: 20 }],
        vec![ShapeEntry { chip: ChipKind::Lt, log_height: 18 }],
        vec![
            ShapeEntry { chip: ChipKind::Cpu, log_height: 16 },
            ShapeEntry { chip: ChipKind::Lt, log_height: 18 },
        ],
        vec![
            ShapeEntry { chip: ChipKind::Cpu, log_height: 20 },
            ShapeEntry { chip: ChipKind::Lt, log_height: 18 },
        ],
    ];
    for (shape, want) in shapes.iter().zip(expected.iter()) {
        assert_eq!(&shape.inner, want);
    }
    for i in 0..shapes.len() {
        for j in 0..i {
            assert_ne!(shapes[i], shapes[j]);
        }
    }
}

#[test]
fn default_config_counts_shapes_lazily() {
    let config = CoreShapeConfig::default();
    let enumeration = config.generate_all_allowed_shapes();
    // Three chips with four allowed heights and nine with five:
    // 5 * 5 * 5 * 6^9 legal shapes, counted without materializing any.
    assert_eq!(enumeration.num_shapes(), Some(1_259_712_000));
    // The enumeration is consumed by index; an early reader needs only
    // the first few.
    assert_eq!(enumeration.shape_at(0).inner, vec![]);
    assert_eq!(
        enumeration.shape_at(1).inner,
        vec![ShapeEntry { chip: ChipKind::Program, log_height: 10 }]
    );
}

#[test]
fn chip_names_are_stable() {
    assert_eq!(ChipKind::Program.name(), "Program");
    assert_eq!(ChipKind::ProgramMemory.name(), "ProgramMemory");
    assert_eq!(ChipKind::Cpu.name(), "Cpu");
    assert_eq!(ChipKind::Lt.name(), "Lt");
    assert_eq!(ChipKind::MemoryFinal.name(), "MemoryFinal");
}
