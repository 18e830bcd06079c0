use senku::board::Board;
use senku::board::CellType;
use senku::board::Dir;
use senku::board::Move;
use senku::board::ParseError;

const CROSS: &[&str] = &[
    "  ooo  ",
    "  ooo  ",
    "ooooooo",
    "oooxooo",
    "ooooooo",
    "  ooo  ",
    "  ooo  ",
];

const CROSS_RENDERED: &str = "  ABCDEFG\n\
                              0|  OOO  \n\
                              1|  OOO  \n\
                              2|OOOOOOO\n\
                              3|OOO·OOO\n\
                              4|OOOOOOO\n\
                              5|  OOO  \n\
                              6|  OOO  \n";

#[test]
fn parse_c4u() {
    let m = Move::parse_move("C4U").unwrap();
    assert_eq!(m, Move(2, 4, Dir::U));
}

#[test]
fn parse_each_direction() {
    assert_eq!(Move::parse_move("A0U").unwrap(), Move(0, 0, Dir::U));
    assert_eq!(Move::parse_move("B1D").unwrap(), Move(1, 1, Dir::D));
    assert_eq!(Move::parse_move("F5L").unwrap(), Move(5, 5, Dir::L));
    assert_eq!(Move::parse_move("G6R").unwrap(), Move(6, 6, Dir::R));
}

#[test]
fn parse_lowercase_column_rejected() {
    assert_eq!(Move::parse_move("c4U"), Err(ParseError::InvalidColumn));
}

#[test]
fn parse_column_beyond_board_decodes_but_is_illegal() {
    // The column alphabet runs A-Z; a letter past the last column decodes
    // and is then rejected by the legality check, never by the codec.
    assert_eq!(Move::parse_move("H4U"), Ok(Move(7, 4, Dir::U)));
    assert_eq!(Move::parse_move("Z0D"), Ok(Move(25, 0, Dir::D)));
    let board = Board::from_strings(CROSS);
    assert!(!board.is_move_valid(Move(7, 4, Dir::U)));
}

#[test]
fn parse_row_out_of_range() {
    assert_eq!(Move::parse_move("A9U"), Err(ParseError::InvalidRow));
}

#[test]
fn parse_row_not_a_digit() {
    assert_eq!(Move::parse_move("AxU"), Err(ParseError::InvalidRow));
}

#[test]
fn parse_bad_direction() {
    assert_eq!(Move::parse_move("C44"), Err(ParseError::InvalidDirection));
}

#[test]
fn parse_too_short() {
    assert_eq!(Move::parse_move("C4"), Err(ParseError::InvalidLength));
}

#[test]
fn parse_too_long() {
    assert_eq!(Move::parse_move("C4UX"), Err(ParseError::InvalidLength));
}

#[test]
fn parse_error_messages() {
    assert_eq!(ParseError::InvalidLength.message(), "Invalid length");
    assert_eq!(
        ParseError::InvalidDirection.message(),
        "Direction must be U, D, L or R"
    );
}

#[test]
fn construct_and_render_cross() {
    let board = Board::from_strings(CROSS);
    assert_eq!(board.to_string(), CROSS_RENDERED);
    assert_eq!(board.score, 0);
    assert!(board.moves.is_empty());
}

#[test]
fn unknown_markers_become_invalid() {
    let board = Board::from_strings(&["?ox"]);
    // Row 0 renders as off-board, peg, empty; missing cells stay empty.
    assert_eq!(
        board.to_string(),
        "  ABCDEFG\n0| O·····\n1|·······\n2|·······\n3|·······\n4|·······\n5|·······\n6|·······\n"
    );
}

#[test]
fn initial_moves_jump_into_center() {
    let board = Board::from_strings(CROSS);
    let moves = board.valid_moves();
    assert_eq!(
        moves,
        vec![
            Move(3, 1, Dir::D),
            Move(1, 3, Dir::R),
            Move(5, 3, Dir::L),
            Move(3, 5, Dir::U),
        ]
    );
}

#[test]
fn move_legality_checks() {
    let board = Board::from_strings(CROSS);
    assert!(board.is_move_valid(Move(3, 1, Dir::D)));
    assert!(!board.is_move_valid(Move(3, 1, Dir::U)));
    assert!(!board.is_move_valid(Move(0, 0, Dir::R)));
    assert!(!board.is_move_valid(Move(-1, 3, Dir::R)));
    assert!(!board.is_move_valid(Move(6, 3, Dir::R)));
    assert!(!board.is_move_valid(Move(100, 100, Dir::D)));
}

#[test]
fn make_move_updates_cells_score_and_history() {
    let mut board = Board::from_strings(CROSS);
    board.make_move(Move(3, 1, Dir::D));
    assert_eq!(
        board.to_string(),
        "  ABCDEFG\n\
         0|  OOO  \n\
         1|  O·O  \n\
         2|OOO·OOO\n\
         3|OOOOOOO\n\
         4|OOOOOOO\n\
         5|  OOO  \n\
         6|  OOO  \n"
    );
    assert_eq!(board.score, 1);
    assert_eq!(board.moves, vec![Move(3, 1, Dir::D)]);
}

#[test]
fn apply_then_undo_restores_board() {
    let mut board = Board::from_strings(CROSS);
    let before = board.to_string();
    let mov = Move(3, 1, Dir::D);
    board.make_move(mov);
    assert_ne!(board.to_string(), before);
    board.undo_move(mov);
    assert_eq!(board.to_string(), before);
    assert_eq!(board.score, 0);
    assert!(board.moves.is_empty());
}

#[test]
fn apply_all_then_undo_all_restores_board() {
    let mut board = Board::from_strings(CROSS);
    let before = board.to_string();
    let mut applied: Vec<Move> = Vec::new();
    for _ in 0..5 {
        let legal = board.valid_moves();
        assert!(!legal.is_empty());
        let mov = legal[0];
        board.make_move(mov);
        applied.push(mov);
    }
    assert_eq!(board.score, 5);
    while let Some(mov) = applied.pop() {
        board.undo_move(mov);
    }
    assert_eq!(board.to_string(), before);
    assert_eq!(board.score, 0);
    assert!(board.moves.is_empty());
}

#[test]
fn score_always_matches_history_length() {
    let mut board = Board::from_strings(CROSS);
    for _ in 0..3 {
        assert_eq!(board.score as usize, board.moves.len());
        let legal = board.valid_moves();
        board.make_move(legal[0]);
        assert_eq!(board.score as usize, board.moves.len());
    }
}

#[test]
fn no_moves_left_exactly_on_terminal_board() {
    let lone_peg = Board::from_strings(&["o"]);
    assert!(lone_peg.valid_moves().is_empty());

    let two_pegs = Board::from_strings(&["oo"]);
    let moves = two_pegs.valid_moves();
    assert_eq!(moves, vec![Move(0, 0, Dir::R)]);
}

#[test]
fn empty_template_gives_empty_board() {
    let board = Board::from_strings(&[]);
    assert_eq!(
        board.to_string(),
        "  ABCDEFG\n0|·······\n1|·······\n2|·······\n3|·······\n4|·······\n5|·······\n6|·······\n"
    );
    assert!(board.valid_moves().is_empty());
}

#[test]
fn oversized_template_is_clamped() {
    // Rows and columns beyond the fixed grid are ignored.
    let board = Board::from_strings(&[
        "ooooooooo", "xxxxxxxxx", "ooooooooo", "xxxxxxxxx", "ooooooooo", "xxxxxxxxx",
        "ooooooooo", "xxxxxxxxx", "ooooooooo",
    ]);
    assert_eq!(
        board.to_string(),
        "  ABCDEFG\n0|OOOOOOO\n1|·······\n2|OOOOOOO\n3|·······\n4|OOOOOOO\n5|·······\n6|OOOOOOO\n"
    );
}

#[test]
fn cell_states_differ() {
    assert_ne!(CellType::Empty, CellType::Occupied);
    assert_ne!(CellType::Empty, CellType::Invalid);
    assert_ne!(CellType::Occupied, CellType::Invalid);
}
