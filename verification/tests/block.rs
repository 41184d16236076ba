use visualgcode::block::{interpret_block, Block, BlockAction, CodeKind, Command, MoveKind, Word};

fn w(letter: char, value: f32) -> Word<f32> {
    Word { letter, value: Some(value) }
}

fn var(letter: char) -> Word<f32> {
    Word { letter, value: None }
}

fn g(major: u32, args: Vec<Word<f32>>) -> Command<f32> {
    Command { kind: CodeKind::General, major, minor: 0, args }
}

fn block(codes: Vec<Command<f32>>, word_addresses: Vec<Word<f32>>) -> Block<f32> {
    Block { codes, word_addresses }
}

#[test]
fn linear_move_collects_targets() {
    let b = block(vec![g(1, vec![w('X', 10.0), w('Y', 2.0), w('E', 0.5), w('F', 1500.0)])], vec![]);
    match interpret_block(&b) {
        BlockAction::Move { kind, targets } => {
            assert_eq!(kind, MoveKind::Linear);
            assert_eq!(targets.x, Some(10.0));
            assert_eq!(targets.y, Some(2.0));
            assert_eq!(targets.z, None);
            assert_eq!(targets.e, Some(0.5));
            assert_eq!(targets.f, Some(1500.0));
            assert_eq!(targets.r, None);
        }
        _ => panic!("expected a move"),
    }
}

#[test]
fn later_words_win_and_word_addresses_come_last() {
    let b = block(
        vec![g(0, vec![w('X', 1.0), w('X', 2.0)])],
        vec![w('X', 3.0), var('Y'), w('Z', 4.0)],
    );
    match interpret_block(&b) {
        BlockAction::Move { kind, targets } => {
            assert_eq!(kind, MoveKind::Rapid);
            assert_eq!(targets.x, Some(3.0));
            assert_eq!(targets.y, None);
            assert_eq!(targets.z, Some(4.0));
        }
        _ => panic!("expected a move"),
    }
}

#[test]
fn variables_do_not_override_literals() {
    let b = block(vec![g(1, vec![w('X', 5.0), var('X')])], vec![]);
    match interpret_block(&b) {
        BlockAction::Move { targets, .. } => assert_eq!(targets.x, Some(5.0)),
        _ => panic!("expected a move"),
    }
}

#[test]
fn rapid_wins_over_feed_and_arcs() {
    let b = block(vec![g(2, vec![]), g(1, vec![]), g(0, vec![])], vec![]);
    match interpret_block(&b) {
        BlockAction::Move { kind, .. } => assert_eq!(kind, MoveKind::Rapid),
        _ => panic!("expected a move"),
    }
    let b = block(vec![g(3, vec![]), g(1, vec![])], vec![]);
    match interpret_block(&b) {
        BlockAction::Move { kind, .. } => assert_eq!(kind, MoveKind::Linear),
        _ => panic!("expected a move"),
    }
}

#[test]
fn arc_direction() {
    let b = block(vec![g(2, vec![w('I', 5.0), w('J', 0.0)])], vec![]);
    match interpret_block(&b) {
        BlockAction::Move { kind, targets } => {
            assert_eq!(kind, MoveKind::Arc { clockwise: true });
            assert_eq!(targets.i, Some(5.0));
            assert_eq!(targets.j, Some(0.0));
        }
        _ => panic!("expected a move"),
    }
    let b = block(vec![g(3, vec![w('R', 2.5)])], vec![]);
    match interpret_block(&b) {
        BlockAction::Move { kind, targets } => {
            assert_eq!(kind, MoveKind::Arc { clockwise: false });
            assert_eq!(targets.r, Some(2.5));
        }
        _ => panic!("expected a move"),
    }
}

#[test]
fn distance_mode_blocks() {
    match interpret_block(&block(vec![g(91, vec![])], vec![])) {
        BlockAction::Modes { relative } => assert_eq!(relative, Some(true)),
        _ => panic!("expected modes"),
    }
    match interpret_block(&block(vec![g(91, vec![]), g(90, vec![])], vec![])) {
        BlockAction::Modes { relative } => assert_eq!(relative, Some(false)),
        _ => panic!("expected modes"),
    }
    match interpret_block(&block(vec![g(21, vec![])], vec![w('X', 1.0)])) {
        BlockAction::Modes { relative } => assert_eq!(relative, None),
        _ => panic!("expected modes"),
    }
}

#[test]
fn minor_numbers_and_other_letters_are_not_moves() {
    let g1_1 = Command { kind: CodeKind::General, major: 1, minor: 1, args: vec![w('X', 1.0)] };
    let m1 = Command { kind: CodeKind::Miscellaneous, major: 1, minor: 0, args: vec![w('X', 1.0)] };
    let t0 = Command { kind: CodeKind::ToolChange, major: 0, minor: 0, args: vec![] };
    match interpret_block(&block(vec![g1_1, m1, t0], vec![])) {
        BlockAction::Modes { relative } => assert_eq!(relative, None),
        _ => panic!("expected modes"),
    }
}

#[test]
fn arguments_of_other_commands_are_ignored() {
    let m3 = Command { kind: CodeKind::Miscellaneous, major: 3, minor: 0, args: vec![w('X', 9.0)] };
    match interpret_block(&block(vec![g(1, vec![w('Y', 1.0)]), m3], vec![])) {
        BlockAction::Move { targets, .. } => {
            assert_eq!(targets.x, None);
            assert_eq!(targets.y, Some(1.0));
        }
        _ => panic!("expected a move"),
    }
}
