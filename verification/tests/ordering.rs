use chess_search::{rank_move, sort_by_scores};
use chess_search::ordering::HISTORY_MAX;
use chess_search::position::legal_moves;
use chess_search::{order_moves, score_move, Move, SearchContext, MAX_PLY};
use pleco::Board;

fn ordering_move(board: &Board, uci: &str) -> Move {
    for m in board.generate_moves().iter() {
        if m.stringify() == uci {
            return Move::from_raw(m.get_raw());
        }
    }
    panic!("no move {}", uci);
}

#[test]
fn validity_of_the_tables() {
    let mut ctx = SearchContext::new();
    assert!(ctx.is_valid());
    ctx.history[5] = -1;
    assert!(!ctx.is_valid());
    ctx.history[5] = HISTORY_MAX;
    assert!(ctx.is_valid());
    ctx.history[5] = HISTORY_MAX + 1;
    assert!(!ctx.is_valid());
    ctx.history[5] = 0;
    ctx.killers.pop();
    assert!(!ctx.is_valid());
}

#[test]
fn fresh_context_is_empty() {
    let ctx = SearchContext::new();
    assert_eq!(ctx.killers.len(), 2 * MAX_PLY);
    assert_eq!(ctx.history.len(), 6 * 64);
    assert!(ctx.killers.iter().all(|m| m.is_null()));
    assert!(ctx.history.iter().all(|h| *h == 0));
}

#[test]
fn capture_scores_victim_over_attacker() {
    let board = Board::from_fen("4k3/8/8/3q4/4P3/8/8/4K3 w - - 0 1").unwrap();
    let ctx = SearchContext::new();
    let takes = ordering_move(&board, "e4d5");
    assert_eq!(score_move(takes, &board, &ctx), 10000 + 900 * 100 - 100);
    assert_eq!(score_move(takes, &board, &ctx), 99900);
}

#[test]
fn queen_taking_pawn_scores_lower_than_pawn_taking_queen() {
    let board = Board::from_fen("4k3/8/8/3p4/8/8/8/3QK3 w - - 0 1").unwrap();
    let ctx = SearchContext::new();
    let takes = ordering_move(&board, "d1d5");
    assert_eq!(score_move(takes, &board, &ctx), 10000 + 100 * 100 - 900);
}

#[test]
fn quiet_move_scores_history_plus_thousand() {
    let board = Board::start_pos();
    let mut ctx = SearchContext::new();
    let knight = ordering_move(&board, "g1f3");
    assert_eq!(score_move(knight, &board, &ctx), 1000);
    ctx.add_history(2, knight.dest(), 3);
    assert_eq!(score_move(knight, &board, &ctx), 1009);
    ctx.add_history(2, knight.dest(), 5);
    assert_eq!(score_move(knight, &board, &ctx), 1034);
    // Another kind of piece going to the same square has its own count.
    let pawn = ordering_move(&board, "f2f3");
    assert_eq!(score_move(pawn, &board, &ctx), 1000);
}

#[test]
fn history_stops_at_its_maximum() {
    let mut ctx = SearchContext::new();
    ctx.history[0] = HISTORY_MAX - 10;
    ctx.add_history(1, 0, 4);
    assert_eq!(ctx.history[0], HISTORY_MAX);
    ctx.add_history(1, 0, 255);
    assert_eq!(ctx.history[0], HISTORY_MAX);
    assert_eq!(ctx.history_of(1, 0), HISTORY_MAX);
}

#[test]
fn only_killers_of_ply_zero_count() {
    let board = Board::start_pos();
    let e4 = ordering_move(&board, "e2e4");
    let d4 = ordering_move(&board, "d2d4");
    let mut ctx = SearchContext::new();
    ctx.record_killer(1, e4);
    assert_eq!(score_move(e4, &board, &ctx), 1000);
    ctx.record_killer(0, e4);
    assert_eq!(score_move(e4, &board, &ctx), 9000);
    ctx.record_killer(64, d4);
    assert_eq!(score_move(d4, &board, &ctx), 9000);
    assert_eq!(ctx.killers[0], e4);
    assert_eq!(ctx.killers[1], d4);
    assert_eq!(ctx.killers[2], e4);
}

#[test]
fn full_killer_slots_are_kept() {
    let board = Board::start_pos();
    let e4 = ordering_move(&board, "e2e4");
    let d4 = ordering_move(&board, "d2d4");
    let c4 = ordering_move(&board, "c2c4");
    let mut ctx = SearchContext::new();
    ctx.record_killer(3, e4);
    ctx.record_killer(3, d4);
    ctx.record_killer(3, c4);
    assert_eq!(ctx.killers[6], e4);
    assert_eq!(ctx.killers[7], d4);
    ctx.record_killer(3 + 64, c4);
    assert_eq!(ctx.killers[6], e4);
    assert_eq!(ctx.killers[7], d4);
}

#[test]
fn reset_empties_both_tables() {
    let board = Board::start_pos();
    let e4 = ordering_move(&board, "e2e4");
    let mut ctx = SearchContext::new();
    ctx.record_killer(0, e4);
    ctx.add_history(1, 28, 5);
    ctx.reset();
    assert!(ctx.killers.iter().all(|m| m.is_null()));
    assert!(ctx.history.iter().all(|h| *h == 0));
}

#[test]
fn equal_scores_keep_generation_order() {
    let board = Board::start_pos();
    let ctx = SearchContext::new();
    let moves = legal_moves(&board);
    assert_eq!(moves.len(), 20);
    let mut sorted = moves.clone();
    order_moves(&mut sorted, &board, &ctx);
    assert_eq!(sorted, moves);
}

#[test]
fn higher_scores_come_first_and_ties_keep_their_order() {
    let board = Board::start_pos();
    let mut ctx = SearchContext::new();
    let moves = legal_moves(&board);
    let knight = ordering_move(&board, "g1f3");
    let pawn = ordering_move(&board, "h2h4");
    ctx.add_history(2, knight.dest(), 2);
    ctx.add_history(1, pawn.dest(), 7);
    let mut sorted = moves.clone();
    order_moves(&mut sorted, &board, &ctx);
    assert_eq!(sorted.len(), 20);
    assert_eq!(sorted[0], pawn);
    assert_eq!(sorted[1], knight);
    let rest: Vec<Move> = moves.iter().cloned().filter(|m| *m != pawn && *m != knight).collect();
    assert_eq!(&sorted[2..], &rest[..]);
    for pair in sorted.windows(2) {
        assert!(score_move(pair[0], &board, &ctx) >= score_move(pair[1], &board, &ctx));
    }
}

#[test]
fn captures_are_sorted_before_quiet_moves() {
    let board = Board::from_fen("4k3/8/8/3q4/4P3/8/8/4K3 w - - 0 1").unwrap();
    let ctx = SearchContext::new();
    let mut moves = legal_moves(&board);
    order_moves(&mut moves, &board, &ctx);
    assert_eq!(moves[0], ordering_move(&board, "e4d5"));
}

#[test]
fn rank_of_a_move_from_plain_facts() {
    let mut ctx = SearchContext::new();
    let m = Move::from_raw(12 | (28 << 6));
    assert_eq!(rank_move(m, true, 5, 1, &ctx), 99900);
    assert_eq!(rank_move(m, true, 1, 5, &ctx), 19100);
    assert_eq!(rank_move(m, true, 0, 6, &ctx), -10000);
    assert_eq!(rank_move(m, false, 5, 1, &ctx), 1000);
    ctx.add_history(1, 28, 6);
    assert_eq!(rank_move(m, false, 0, 1, &ctx), 1036);
    assert_eq!(rank_move(m, false, 0, 2, &ctx), 1000);
    // What is no piece counts as a pawn.
    assert_eq!(rank_move(m, false, 0, 0, &ctx), 1036);
    ctx.record_killer(0, m);
    assert_eq!(rank_move(m, false, 0, 1, &ctx), 9000);
    assert_eq!(rank_move(m, true, 1, 1, &ctx), 10000 + 100 * 100 - 100);
}

#[test]
fn sorting_by_given_scores() {
    let a = Move::from_raw(1);
    let b = Move::from_raw(2);
    let c = Move::from_raw(3);
    let d = Move::from_raw(4);
    let sorted = sort_by_scores(&vec![a, b, c, d], &vec![1000, 9000, 1000, 99900]);
    assert_eq!(sorted, vec![d, b, a, c]);
    let sorted = sort_by_scores(&vec![a, b, c, d], &vec![5, 5, 5, 5]);
    assert_eq!(sorted, vec![a, b, c, d]);
    let sorted = sort_by_scores(&vec![a, b, c, d], &vec![-3, -2, -1, 0]);
    assert_eq!(sorted, vec![d, c, b, a]);
    assert_eq!(sort_by_scores(&Vec::new(), &Vec::new()), Vec::<Move>::new());
}
