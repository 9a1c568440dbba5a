use chess_search::notation::{find_castle, normalize};
use chess_search::write_move;
use chess_search::notation::{file_char, piece_char, rank_char};
use chess_search::position::listed_moves;
use chess_search::{bitmove_to_san, move_to_san, san_to_bitmove, Move};
use pleco::Board;

fn notation_move(board: &Board, uci: &str) -> Move {
    for m in board.generate_moves().iter() {
        if m.stringify() == uci {
            return Move::from_raw(m.get_raw());
        }
    }
    panic!("no move {}", uci);
}

#[test]
fn letters_and_digits() {
    assert_eq!(file_char(0), 'a');
    assert_eq!(file_char(7), 'h');
    assert_eq!(rank_char(0), '1');
    assert_eq!(rank_char(7), '8');
    assert_eq!(piece_char(1), ' ');
    assert_eq!(piece_char(2), 'N');
    assert_eq!(piece_char(3), 'B');
    assert_eq!(piece_char(4), 'R');
    assert_eq!(piece_char(5), 'Q');
    assert_eq!(piece_char(6), 'K');
    assert_eq!(piece_char(0), '?');
    assert_eq!(piece_char(7), '?');
}

#[test]
fn null_move_is_written_as_nothing() {
    let board = Board::start_pos();
    assert_eq!(bitmove_to_san(&board, Move::null()), "");
}

#[test]
fn pawn_and_knight_moves() {
    let board = Board::start_pos();
    let e4 = notation_move(&board, "e2e4");
    let nf3 = notation_move(&board, "g1f3");
    assert_eq!(bitmove_to_san(&board, e4), "e4");
    assert_eq!(bitmove_to_san(&board, nf3), "Nf3");
    assert_eq!(board.fen(), Board::start_pos().fen());
}

#[test]
fn pawn_capture_names_its_file() {
    let board =
        Board::from_fen("rnbqkbnr/ppp1pppp/8/3p4/4P3/8/PPPP1PPP/RNBQKBNR w KQkq - 0 2").unwrap();
    let takes = notation_move(&board, "e4d5");
    assert_eq!(bitmove_to_san(&board, takes), "exd5");
}

#[test]
fn piece_capture() {
    let board = Board::from_fen("4k3/8/8/3p4/8/8/8/3QK3 w - - 0 1").unwrap();
    let takes = notation_move(&board, "d1d5");
    assert_eq!(bitmove_to_san(&board, takes), "Qxd5");
}

#[test]
fn castling_has_its_own_words() {
    let board = Board::from_fen("r3k2r/8/8/8/8/8/8/R3K2R w KQkq - 0 1").unwrap();
    let moves = listed_moves(&board);
    let short: Vec<Move> = moves.iter().cloned().filter(|m| m.is_king_castle()).collect();
    let long: Vec<Move> = moves.iter().cloned().filter(|m| m.is_queen_castle()).collect();
    assert_eq!(short.len(), 1);
    assert_eq!(long.len(), 1);
    assert_eq!(bitmove_to_san(&board, short[0]), "O-O");
    assert_eq!(bitmove_to_san(&board, long[0]), "O-O-O");
    assert_eq!(san_to_bitmove(&board, "O-O").unwrap(), short[0]);
    assert_eq!(san_to_bitmove(&board, "o-o-o").unwrap(), long[0]);
    assert_eq!(san_to_bitmove(&board, " O-O+ ").unwrap(), short[0]);
}

#[test]
fn rival_piece_adds_the_source_file() {
    // Knights on b1 and f3 can both go to d2.
    let board = Board::from_fen("4k3/8/8/8/8/5N2/8/1N2K3 w - - 0 1").unwrap();
    let from_b = notation_move(&board, "b1d2");
    let from_f = notation_move(&board, "f3d2");
    assert_eq!(bitmove_to_san(&board, from_b), "Nbd2");
    assert_eq!(bitmove_to_san(&board, from_f), "Nfd2");
    assert_eq!(san_to_bitmove(&board, "Nbd2").unwrap(), from_b);
    assert_eq!(san_to_bitmove(&board, "nfd2").unwrap(), from_f);
}

#[test]
fn rivals_on_one_file_are_not_told_apart() {
    // Rooks on a1 and a5 can both go to a3: both are written "Raa3".
    let board = Board::from_fen("4k3/8/8/R7/8/8/8/R3K3 w - - 0 1").unwrap();
    let low = notation_move(&board, "a1a3");
    let high = notation_move(&board, "a5a3");
    assert_eq!(bitmove_to_san(&board, low), "Raa3");
    assert_eq!(bitmove_to_san(&board, high), "Raa3");
    let found = san_to_bitmove(&board, "Raa3").unwrap();
    let first = listed_moves(&board).into_iter().find(|m| *m == low || *m == high).unwrap();
    assert_eq!(found, first);
}

#[test]
fn promotion_is_always_written_as_a_queen() {
    let board = Board::from_fen("8/P7/8/8/8/8/8/k3K3 w - - 0 1").unwrap();
    let queen = notation_move(&board, "a7a8q");
    let knight = notation_move(&board, "a7a8n");
    // The four promotions of the pawn are rivals of one another, so each
    // names its file.
    assert_eq!(bitmove_to_san(&board, queen), "aa8=Q+");
    assert_eq!(bitmove_to_san(&board, knight), "aa8=Q");
    assert!(san_to_bitmove(&board, "a8=N").is_err());
    assert!(san_to_bitmove(&board, "aa8=N").is_err());
    // The text without a mark finds the first promotion that is written so.
    let found = san_to_bitmove(&board, "aa8=Q").unwrap();
    assert_eq!(found.src(), 48);
    assert_eq!(found.dest(), 56);
    assert_eq!(bitmove_to_san(&board, found), "aa8=Q");
}

#[test]
fn check_and_mate_marks() {
    // Back-rank mate: both marks are written.
    let board = Board::from_fen("6k1/5ppp/8/8/8/8/8/R3K3 w - - 0 1").unwrap();
    let mate = notation_move(&board, "a1a8");
    assert_eq!(bitmove_to_san(&board, mate), "Ra8+#");
    let open = Board::from_fen("6k1/8/8/8/8/8/8/R3K3 w - - 0 1").unwrap();
    let check = notation_move(&open, "a1a8");
    assert_eq!(bitmove_to_san(&open, check), "Ra8+");
}

#[test]
fn decode_normalizes_its_input() {
    let board = Board::start_pos();
    let e4 = notation_move(&board, "e2e4");
    let nf3 = notation_move(&board, "g1f3");
    assert_eq!(san_to_bitmove(&board, "e4").unwrap(), e4);
    assert_eq!(san_to_bitmove(&board, "  E4  ").unwrap(), e4);
    assert_eq!(san_to_bitmove(&board, "e4+").unwrap(), e4);
    assert_eq!(san_to_bitmove(&board, "e4#+").unwrap(), e4);
    assert_eq!(san_to_bitmove(&board, "NF3").unwrap(), nf3);
    assert_eq!(san_to_bitmove(&board, "\tnf3\n").unwrap(), nf3);
    assert_eq!(board.fen(), Board::start_pos().fen());
}

#[test]
fn decode_fails_with_the_text_as_it_came() {
    let board = Board::start_pos();
    let err = san_to_bitmove(&board, " Qh5 ").unwrap_err();
    assert_eq!(err.text, " Qh5 ");
    assert_eq!(err.message(), "No matching move for SAN:  Qh5 ");
    assert!(san_to_bitmove(&board, "").is_err());
    assert!(san_to_bitmove(&board, "O-O").is_err());
    assert!(san_to_bitmove(&board, "e5").is_err());
}

#[test]
fn a_checking_move_is_not_found_from_its_own_text() {
    let board = Board::from_fen("6k1/8/8/8/8/8/8/R3K3 w - - 0 1").unwrap();
    let check = notation_move(&board, "a1a8");
    let written = bitmove_to_san(&board, check);
    assert_eq!(written, "Ra8+");
    assert!(san_to_bitmove(&board, &written).is_err());
}

#[test]
fn round_trip_from_the_starting_position() {
    let board = Board::start_pos();
    let moves = listed_moves(&board);
    assert_eq!(moves.len(), 20);
    for m in moves {
        let written = bitmove_to_san(&board, m);
        assert_eq!(san_to_bitmove(&board, &written).unwrap(), m);
    }
}

#[test]
fn round_trip_in_a_middle_game() {
    let board = Board::from_fen(
        "r3k2r/p1ppqpb1/bn2pnp1/3PN3/1p2P3/2N2Q1p/PPPBBPPP/R3K2R w KQkq - 0 10",
    )
    .unwrap();
    let moves = listed_moves(&board);
    let written: Vec<String> = moves.iter().map(|m| bitmove_to_san(&board, *m)).collect();
    for (i, m) in moves.iter().enumerate() {
        let marked = written[i].ends_with('+') || written[i].ends_with('#');
        let shared = written
            .iter()
            .enumerate()
            .any(|(j, w)| j != i && w.to_lowercase() == written[i].to_lowercase());
        let found = san_to_bitmove(&board, &written[i]);
        if m.is_castle() || (!marked && !shared) {
            assert_eq!(found.unwrap(), *m);
        }
    }
}

#[test]
fn move_to_san_refuses_a_move_that_is_not_legal() {
    let board = Board::start_pos();
    let e4 = notation_move(&board, "e2e4");
    assert_eq!(move_to_san(&board, e4), Some(String::from("e4")));
    assert_eq!(move_to_san(&board, Move::null()), Some(String::new()));
    // e2e5 is no move of the starting position.
    let bogus = Move::from_raw(12 | (36 << 6));
    assert_eq!(move_to_san(&board, bogus), None);
    assert_eq!(board.fen(), Board::start_pos().fen());
}

#[test]
fn writing_from_plain_facts() {
    // e2 to e4, a quiet move.
    let quiet = Move::from_raw(12 | (28 << 6));
    assert_eq!(write_move(quiet, 1, false, true, false, false), "e4");
    assert_eq!(write_move(quiet, 2, false, true, false, false), "Ne4");
    assert_eq!(write_move(quiet, 4, true, true, true, false), "Ree4+");
    assert_eq!(write_move(quiet, 5, false, true, true, true), "Qe4+#");
    assert_eq!(write_move(quiet, 6, false, true, false, true), "Ke4#");
    assert_eq!(write_move(quiet, 0, false, true, false, false), "?e4");
    // e4 takes d5.
    let takes = Move::from_raw(28 | (35 << 6) | (4 << 12));
    assert_eq!(write_move(takes, 1, false, true, false, false), "exd5");
    assert_eq!(write_move(takes, 1, true, true, false, false), "eexd5");
    assert_eq!(write_move(takes, 3, true, true, false, false), "Bexd5");
    // A pawn arriving on the last rank of its side.
    let up = Move::from_raw(48 | (56 << 6));
    assert_eq!(write_move(up, 1, false, true, false, false), "a8=Q");
    assert_eq!(write_move(up, 1, false, false, false, false), "a8");
    assert_eq!(write_move(up, 4, false, true, false, false), "Ra8");
    let down = Move::from_raw(8 | (0 << 6) | (4 << 12));
    assert_eq!(write_move(down, 1, false, false, true, false), "axa1=Q+");
    // Castling and the null move take no letter and no mark.
    let short = Move::from_raw(4 | (7 << 6) | (2 << 12));
    let long = Move::from_raw(4 | (0 << 6) | (3 << 12));
    assert_eq!(write_move(short, 6, true, true, true, true), "O-O");
    assert_eq!(write_move(long, 6, true, true, true, true), "O-O-O");
    assert_eq!(write_move(Move::null(), 6, true, true, true, true), "");
}

#[test]
fn normal_form_of_a_text() {
    let clean = |text: &str| -> String { normalize(text).into_iter().collect() };
    assert_eq!(clean("  Nf3+ "), "nf3");
    assert_eq!(clean("exd5#"), "exd5");
    assert_eq!(clean("O-O-O"), "o-o-o");
    assert_eq!(clean("e4+#+"), "e4");
    assert_eq!(clean("+e4"), "+e4");
    assert_eq!(clean("e4 +"), "e4 ");
    assert_eq!(clean("\u{2003}QXD5\u{a0}"), "qxd5");
    assert_eq!(clean(""), "");
    assert_eq!(clean("#"), "");
}

#[test]
fn first_castling_move_of_a_list() {
    let quiet = Move::from_raw(12 | (28 << 6));
    let short = Move::from_raw(4 | (7 << 6) | (2 << 12));
    let long = Move::from_raw(4 | (0 << 6) | (3 << 12));
    let moves = vec![quiet, long, short, long];
    assert_eq!(find_castle(&moves, true), Some(short));
    assert_eq!(find_castle(&moves, false), Some(long));
    assert_eq!(find_castle(&vec![quiet], true), None);
    assert_eq!(find_castle(&Vec::new(), false), None);
}

#[test]
fn writing_a_move_leaves_the_board_to_its_owner() {
    let mut played = Board::start_pos();
    assert!(played.apply_uci_move("e2e4"));
    assert!(played.apply_uci_move("e7e5"));
    let board = &played;
    let nf3 = notation_move(board, "g1f3");
    assert_eq!(bitmove_to_san(board, nf3), "Nf3");
    assert_eq!(san_to_bitmove(board, "Nf3").unwrap(), nf3);
    assert_eq!(move_to_san(board, nf3), Some(String::from("Nf3")));
    assert_eq!(board.depth(), 2);
    assert_eq!(board.ply(), 2);
    assert_eq!(board.moves_played(), 2);
    played.undo_move();
    played.undo_move();
    assert_eq!(played.fen(), Board::start_pos().fen());
}
