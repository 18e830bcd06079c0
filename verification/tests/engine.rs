use senku::board::Board;
use senku::board::Dir;
use senku::board::Move;
use senku::engine::backtrack;

const CROSS: &[&str] = &[
    "  ooo  ",
    "  ooo  ",
    "ooooooo",
    "oooxooo",
    "ooooooo",
    "  ooo  ",
    "  ooo  ",
];

#[test]
fn single_jump_reaches_target() {
    let mut board = Board::from_strings(&["oo"]);
    let mut positions: u64 = 0;
    assert!(backtrack(&mut board, 1, &mut positions));
    assert_eq!(board.score, 1);
    assert_eq!(board.moves, vec![Move(0, 0, Dir::R)]);
    assert!(positions >= 2);
}

#[test]
fn unreachable_target_leaves_board_unchanged() {
    let mut board = Board::from_strings(&["oo"]);
    let before = board.to_string();
    let mut positions: u64 = 0;
    assert!(!backtrack(&mut board, 2, &mut positions));
    assert_eq!(board.to_string(), before);
    assert_eq!(board.score, 0);
    assert!(board.moves.is_empty());
}

#[test]
fn zero_target_succeeds_without_moving() {
    let mut board = Board::from_strings(CROSS);
    let before = board.to_string();
    let mut positions: u64 = 0;
    assert!(backtrack(&mut board, 0, &mut positions));
    assert_eq!(board.to_string(), before);
    assert_eq!(board.score, 0);
}

#[test]
fn solves_standard_cross_to_one_peg() {
    let mut board = Board::from_strings(CROSS);
    let mut positions: u64 = 0;
    assert!(backtrack(&mut board, 31, &mut positions));
    assert_eq!(board.score, 31);
    // The enumeration order is fixed, so the first-found solution is
    // reproducible move for move.
    let expected = vec![
        Move(3, 1, Dir::D),
        Move(1, 2, Dir::R),
        Move(2, 0, Dir::D),
        Move(4, 0, Dir::L),
        Move(3, 2, Dir::L),
        Move(0, 2, Dir::R),
        Move(4, 2, Dir::U),
        Move(6, 2, Dir::L),
        Move(2, 3, Dir::U),
        Move(2, 0, Dir::D),
        Move(0, 3, Dir::R),
        Move(2, 3, Dir::U),
        Move(4, 3, Dir::U),
        Move(4, 0, Dir::D),
        Move(6, 3, Dir::L),
        Move(4, 3, Dir::U),
        Move(2, 5, Dir::U),
        Move(0, 4, Dir::R),
        Move(2, 4, Dir::U),
        Move(2, 1, Dir::D),
        Move(2, 3, Dir::R),
        Move(4, 4, Dir::U),
        Move(4, 1, Dir::D),
        Move(6, 4, Dir::L),
        Move(3, 4, Dir::R),
        Move(4, 6, Dir::U),
        Move(4, 3, Dir::D),
        Move(2, 6, Dir::R),
        Move(4, 6, Dir::U),
        Move(5, 4, Dir::L),
        Move(3, 4, Dir::D),
    ];
    assert_eq!(board.moves, expected);
}

#[test]
fn search_is_deterministic_across_runs() {
    let mut first = Board::from_strings(CROSS);
    let mut second = Board::from_strings(CROSS);
    let mut positions: u64 = 0;
    assert!(backtrack(&mut first, 10, &mut positions));
    assert!(backtrack(&mut second, 10, &mut positions));
    assert_eq!(first.moves, second.moves);
    assert_eq!(first.to_string(), second.to_string());
}
