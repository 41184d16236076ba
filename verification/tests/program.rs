use visualgcode::block::{interpret_block, BlockAction, CodeKind, MoveKind};
use visualgcode::program::read_blocks;

#[test]
fn reads_commands_and_literals() {
    let blocks = read_blocks("G90 (absolute)\nG00 X50.0 Y-10\n").unwrap();
    assert_eq!(blocks.len(), 2);
    let g90 = &blocks[0].codes[0];
    assert_eq!((g90.kind, g90.major, g90.minor), (CodeKind::General, 90, 0));
    let g0 = &blocks[1].codes[0];
    assert_eq!((g0.kind, g0.major, g0.minor), (CodeKind::General, 0, 0));
    assert_eq!(g0.args.len(), 2);
    assert_eq!(g0.args[0].letter, 'X');
    assert_eq!(g0.args[0].value, Some(50.0f32.to_bits()));
    assert_eq!(g0.args[1].letter, 'Y');
    assert_eq!(g0.args[1].value, Some((-10.0f32).to_bits()));
}

#[test]
fn reads_word_addresses_and_other_commands() {
    let blocks = read_blocks("X5.0 Y-3.0\nM3 S1000\nT1\nG91.1\n").unwrap();
    assert_eq!(blocks.len(), 4);
    assert!(blocks[0].codes.is_empty());
    assert_eq!(blocks[0].word_addresses.len(), 2);
    assert_eq!(blocks[0].word_addresses[0].value.map(f32::from_bits), Some(5.0));
    assert_eq!(blocks[0].word_addresses[1].value.map(f32::from_bits), Some(-3.0));
    assert_eq!(blocks[1].codes[0].kind, CodeKind::Miscellaneous);
    assert_eq!(blocks[1].codes[0].major, 3);
    assert_eq!(blocks[2].codes[0].kind, CodeKind::ToolChange);
    assert_eq!((blocks[3].codes[0].major, blocks[3].codes[0].minor), (91, 1));
}

#[test]
fn empty_source_has_no_blocks() {
    assert!(read_blocks("").unwrap().is_empty());
}

#[test]
fn parser_diagnostics_fail() {
    let err = read_blocks("123\n").unwrap_err();
    let diagnostics = gcode::parse("123\n").unwrap_err();
    assert_eq!(err, format!("Parse error: {:?}", diagnostics));
}

#[test]
fn read_then_interpret() {
    let blocks = read_blocks("G91\nG01 X1 E0.5\nG91.1\n").unwrap();
    match interpret_block(&blocks[0]) {
        BlockAction::Modes { relative } => assert_eq!(relative, Some(true)),
        _ => panic!("expected modes"),
    }
    match interpret_block(&blocks[1]) {
        BlockAction::Move { kind, targets } => {
            assert_eq!(kind, MoveKind::Linear);
            assert_eq!(targets.x.map(f32::from_bits), Some(1.0));
            assert_eq!(targets.e.map(f32::from_bits), Some(0.5));
        }
        _ => panic!("expected a move"),
    }
    match interpret_block(&blocks[2]) {
        BlockAction::Modes { relative } => assert_eq!(relative, None),
        _ => panic!("expected modes"),
    }
}
