use chess_search::score_squares;
use chess_search::eval::{piece_value, PSQT_KING_MG, PSQT_PAWN_MG, PSQT_QUEEN_MG};
use chess_search::evaluate_board;
use pleco::Board;

#[test]
fn starting_position_is_level() {
    let board = Board::start_pos();
    assert_eq!(evaluate_board(&board), 0);
}

#[test]
fn material_values() {
    assert_eq!(piece_value(0), 0);
    assert_eq!(piece_value(1), 100);
    assert_eq!(piece_value(2), 320);
    assert_eq!(piece_value(3), 330);
    assert_eq!(piece_value(4), 500);
    assert_eq!(piece_value(5), 900);
    assert_eq!(piece_value(6), 20000);
    assert_eq!(piece_value(7), 0);
}

#[test]
fn score_is_for_the_side_to_move() {
    // King e1 and queen h1 against king e8.
    let white = Board::from_fen("4k3/8/8/8/8/8/8/4K2Q w - - 0 1").unwrap();
    let black = Board::from_fen("4k3/8/8/8/8/8/8/4K2Q b - - 0 1").unwrap();
    let king_e1 = 20000 + PSQT_KING_MG[4] as i32;
    let queen_h1 = 900 + PSQT_QUEEN_MG[7] as i32;
    let king_e8 = 20000 + PSQT_KING_MG[63 - 60] as i32;
    assert_eq!(king_e1 + queen_h1 - king_e8, 880);
    assert_eq!(evaluate_board(&white), 880);
    assert_eq!(evaluate_board(&black), -880);
}

#[test]
fn table_is_read_upside_down_for_black() {
    // A white pawn on a7 reads entry 48, a black pawn on a7 entry 63 - 48.
    let white = Board::from_fen("4k3/P7/8/8/8/8/8/4K3 w - - 0 1").unwrap();
    let black = Board::from_fen("4k3/p7/8/8/8/8/8/4K3 w - - 0 1").unwrap();
    assert_eq!(PSQT_PAWN_MG[48], 5);
    assert_eq!(PSQT_PAWN_MG[15], 50);
    assert_eq!(evaluate_board(&white), 100 + 5);
    assert_eq!(evaluate_board(&black), -(100 + 50));
}

#[test]
fn pawn_move_changes_the_score_by_the_table_difference() {
    let mut board = Board::start_pos();
    assert!(board.apply_uci_move("e2e4"));
    // The pawn left entry 12 (50) for entry 28 (25); Black is to move.
    assert_eq!(evaluate_board(&board), 25);
}

#[test]
fn same_contents_same_score() {
    let a = Board::from_fen("r3k2r/8/8/8/8/8/8/R3K2R w KQkq - 0 1").unwrap();
    let b = Board::from_fen("r3k2r/8/8/8/8/8/8/R3K2R w - - 12 40").unwrap();
    assert_eq!(evaluate_board(&a), evaluate_board(&b));
    assert_eq!(evaluate_board(&a), evaluate_board(&a));
}

#[test]
fn scoring_given_squares() {
    let mut squares = vec![0u8; 64];
    assert_eq!(score_squares(&squares, true), 0);
    // A white knight on b1 and a black bishop on c8.
    squares[1] = 2;
    squares[58] = 8 + 3;
    let knight = 320 - 40;
    let bishop = 330 - 10;
    assert_eq!(score_squares(&squares, true), knight - bishop);
    assert_eq!(score_squares(&squares, false), bishop - knight);
    // A code without a kind counts for nothing.
    squares[30] = 8;
    assert_eq!(score_squares(&squares, true), knight - bishop);
}

#[test]
fn board_is_read_square_by_square() {
    let board = Board::start_pos();
    let squares = chess_search::position::squares_of(&board);
    assert_eq!(squares.len(), 64);
    assert_eq!(&squares[0..8], &[4, 2, 3, 5, 6, 3, 2, 4]);
    assert_eq!(&squares[8..16], &[1; 8]);
    assert!(squares[16..48].iter().all(|c| *c == 0));
    assert_eq!(&squares[48..56], &[9; 8]);
    assert_eq!(&squares[56..64], &[12, 10, 11, 13, 14, 11, 10, 12]);
}
