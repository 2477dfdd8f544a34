//! Tests for the packed path encoding.

use np_graphics::path::buf::MalformedEncoding;
use np_graphics::path::buf::PathBuf;
use np_graphics::path::instruction::Instruction;
use np_graphics::path::instruction::Vector;
use np_graphics::path::plan::plan_stroke;
use np_graphics::path::plan::PathEvent;
use np_graphics::path::word::Opcode;
use np_graphics::path::word::Word;

fn payload(coordinate: f64) -> u64 {
    coordinate.to_bits()
}

#[test]
fn test_instruction_words_roundtrip() {
    let p1 = Vector { x: payload(50.0), y: payload(100.0) };
    let p2 = Vector { x: payload(150.0), y: payload(200.0) };
    let p3 = Vector { x: payload(250.0), y: payload(300.0) };

    let instructions = [
        Instruction::Move(p1),
        Instruction::Linear(p1),
        Instruction::Quadratic(p1, p2),
        Instruction::Cubic(p1, p2, p3),
    ];

    for &instruction in &instructions {
        let mut words = Vec::new();
        instruction.to_words(&mut words);
        words.push(Word::Operand(payload(9999.0)));

        let (roundtripped, consumed) = Instruction::from_words(&words).unwrap();
        assert_eq!(instruction, roundtripped);
        assert_eq!(words.len() - consumed, 1);
    }
}

#[test]
fn test_from_words_rejects_empty_and_operand_first() {
    assert_eq!(Instruction::from_words(&[]), None);
    assert_eq!(Instruction::from_words(&[Word::Operand(7)]), None);
}

#[test]
fn test_from_words_rejects_truncated() {
    let words = [Word::Opcode(Opcode::Quadratic), Word::Operand(1), Word::Operand(2)];
    assert_eq!(Instruction::from_words(&words), None);
}

#[test]
fn test_path_buf_push_and_instructions() {
    let instruction1 = Instruction::Move(Vector { x: payload(20.0), y: payload(40.0) });
    let instruction2 = Instruction::Linear(Vector { x: payload(40.0), y: payload(60.0) });

    let mut path = PathBuf::new();
    assert!(path.instructions().is_empty());

    path.push(instruction1);
    path.push(instruction2);

    assert_eq!(path.instructions(), vec![instruction1, instruction2]);
}

#[test]
fn test_path_buf_push_kinds() {
    let p1 = Vector { x: 1, y: 2 };
    let p2 = Vector { x: 3, y: 4 };
    let p3 = Vector { x: 5, y: 6 };

    let mut path = PathBuf::new();
    path.push_move(p1);
    path.push_linear(p2);
    path.push_quadratic(p1, p2);
    path.push_cubic(p1, p2, p3);

    assert_eq!(
        path.instructions(),
        vec![
            Instruction::Move(p1),
            Instruction::Linear(p2),
            Instruction::Quadratic(p1, p2),
            Instruction::Cubic(p1, p2, p3),
        ],
    );
}

#[test]
fn test_path_buf_from_words_accepts_valid() {
    let mut source = PathBuf::new();
    source.push_move(Vector { x: 7, y: 8 });
    source.push_cubic(Vector { x: 1, y: 2 }, Vector { x: 3, y: 4 }, Vector { x: 5, y: 6 });
    let expected = source.instructions();

    let words = source.into_words();
    let rebuilt = PathBuf::from_words(words).unwrap();
    assert_eq!(rebuilt.instructions(), expected);
}

#[test]
fn test_path_buf_from_words_rejects_malformed() {
    // An operand where an opcode is expected.
    let words = vec![Word::Operand(1)];
    assert!(matches!(PathBuf::from_words(words), Err(MalformedEncoding)));

    // A truncated instruction at the end.
    let words = vec![
        Word::Opcode(Opcode::Move),
        Word::Operand(1),
        Word::Operand(2),
        Word::Opcode(Opcode::Cubic),
        Word::Operand(3),
    ];
    assert!(matches!(PathBuf::from_words(words), Err(MalformedEncoding)));
}

#[test]
fn test_path_buf_words_layout() {
    let mut path = PathBuf::new();
    path.push_quadratic(Vector { x: 1, y: 2 }, Vector { x: 3, y: 4 });
    assert_eq!(
        path.words(),
        &[
            Word::Opcode(Opcode::Quadratic),
            Word::Operand(1),
            Word::Operand(2),
            Word::Operand(3),
            Word::Operand(4),
        ],
    );
}

#[test]
fn test_plan_stroke_events() {
    let p1 = Vector { x: payload(10.0), y: payload(10.0) };
    let p2 = Vector { x: payload(20.0), y: payload(10.0) };
    let p3 = Vector { x: payload(30.0), y: payload(20.0) };
    let origin = Vector { x: payload(0.0), y: payload(0.0) };

    let instructions = vec![
        Instruction::Linear(p1),
        Instruction::Move(p2),
        Instruction::Quadratic(p1, p3),
        Instruction::Cubic(p1, p2, p3),
    ];
    let events = plan_stroke(&instructions);

    assert_eq!(
        events,
        vec![
            // The running point starts at the origin.
            PathEvent::Line(origin, p1),
            // The move resets the running point and draws nothing.
            PathEvent::QuadraticHalves(p2, p1, p3),
            // The curve's end becomes the next running point.
            PathEvent::CubicHalves(p3, p1, p2, p3),
        ],
    );
}

#[test]
fn test_plan_stroke_two_segments_per_curve() {
    // Each curve instruction is stroked as exactly two line segments:
    // one halved-curve event, which its consumer draws as two.
    let p1 = Vector { x: 1, y: 2 };
    let p2 = Vector { x: 3, y: 4 };
    let p3 = Vector { x: 5, y: 6 };
    let instructions = vec![
        Instruction::Quadratic(p1, p2),
        Instruction::Cubic(p1, p2, p3),
    ];
    let events = plan_stroke(&instructions);
    assert_eq!(events.len(), 2);
    for event in events {
        let segments = match event {
            PathEvent::Line(..) => 1,
            PathEvent::QuadraticHalves(..) => 2,
            PathEvent::CubicHalves(..) => 2,
        };
        assert_eq!(segments, 2);
    }
}
