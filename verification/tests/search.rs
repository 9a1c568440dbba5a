use chess_search::search::{
    allows_null_move, cutoff_bound, improves, mate_value, negated, ply_after, raise, worst,
};
use chess_search::Window;
use chess_search::position::{capture_moves, is_checkmate, is_stalemate, legal_moves};
use chess_search::{
    evaluate_board, get_best_move, minimax, minimax_at, quiescence, Bound, CustomTT, Move,
    SearchContext, INFINITY, MAX_DEPTH,
};
use pleco::Board;

fn search_move(board: &Board, uci: &str) -> Move {
    for m in board.generate_moves().iter() {
        if m.stringify() == uci {
            return Move::from_raw(m.get_raw());
        }
    }
    panic!("no move {}", uci);
}

#[test]
fn constants() {
    assert_eq!(INFINITY, 1_000_000);
    assert_eq!(MAX_DEPTH, 5);
}

#[test]
fn depth_one_from_the_start_returns_a_legal_move() {
    let mut board = Board::start_pos();
    let mut ctx = SearchContext::new();
    let best = get_best_move(&mut board, 1, &mut ctx);
    assert!(!best.is_null());
    assert!(legal_moves(&board).contains(&best));
    assert_eq!(board.fen(), Board::start_pos().fen());
    assert_eq!(board.zobrist(), Board::start_pos().zobrist());
}

#[test]
fn depth_zero_returns_the_null_move() {
    let mut board = Board::start_pos();
    let mut ctx = SearchContext::new();
    assert!(get_best_move(&mut board, 0, &mut ctx).is_null());
}

#[test]
fn no_legal_move_gives_the_null_move() {
    // Stalemate: Black to move, king a8, White queen b6 and king c7.
    let mut board = Board::from_fen("k7/2K5/1Q6/8/8/8/8/8 b - - 0 1").unwrap();
    let mut ctx = SearchContext::new();
    assert_eq!(legal_moves(&board).len(), 0);
    assert!(get_best_move(&mut board, 3, &mut ctx).is_null());
}

#[test]
fn hanging_queen_is_captured() {
    let mut board = Board::from_fen("4k3/8/8/3q4/4P3/8/8/4K3 w - - 0 1").unwrap();
    let takes = search_move(&board, "e4d5");
    let mut ctx = SearchContext::new();
    let best = get_best_move(&mut board, 2, &mut ctx);
    assert_eq!(best, takes);
    assert_eq!(board.fen(), "4k3/8/8/3q4/4P3/8/8/4K3 w - - 0 1");
}

#[test]
fn hanging_queen_is_captured_by_black_too() {
    let mut board = Board::from_fen("4k3/8/8/4p3/3Q4/8/8/4K3 b - - 0 1").unwrap();
    let takes = search_move(&board, "e5d4");
    let mut ctx = SearchContext::new();
    assert_eq!(get_best_move(&mut board, 2, &mut ctx), takes);
}

#[test]
fn forced_move_into_mate() {
    // White's only move is Kg1, after which Qg2 mates.
    let fen = "8/8/8/8/8/5k2/q7/7K w - - 0 1";
    let mut board = Board::from_fen(fen).unwrap();
    let moves = legal_moves(&board);
    assert_eq!(moves.len(), 1);
    let forced = search_move(&board, "h1g1");
    assert_eq!(moves[0], forced);
    for depth in 1..=3 {
        let mut ctx = SearchContext::new();
        assert_eq!(get_best_move(&mut board, depth, &mut ctx), forced);
        assert_eq!(board.fen(), fen);
    }
    let mut tt = CustomTT::new();
    let mut ctx = SearchContext::new();
    let score = minimax(&mut board, 2, -INFINITY, INFINITY, true, &mut tt, &mut ctx);
    assert_eq!(score, -INFINITY);
    let mut tt = CustomTT::new();
    let score = minimax(&mut board, 3, -INFINITY, INFINITY, true, &mut tt, &mut ctx);
    assert_eq!(score, -INFINITY);
}

#[test]
fn checkmate_scores_as_lost_for_the_side_to_move() {
    // White is mated.
    let mut white_mated = Board::from_fen("8/8/8/8/8/5k2/6q1/6K1 w - - 0 1").unwrap();
    assert!(is_checkmate(&white_mated));
    let mut tt = CustomTT::new();
    let mut ctx = SearchContext::new();
    let hash = white_mated.zobrist();
    let score = minimax(&mut white_mated, 3, -5, 5, true, &mut tt, &mut ctx);
    assert_eq!(score, -INFINITY);
    let entry = tt.table.get(&hash).unwrap();
    assert_eq!((entry.score, entry.depth, entry.bound), (-INFINITY, 3, Bound::Exact));
    // Black is mated.
    let mut black_mated = Board::from_fen("R5k1/5ppp/8/8/8/8/8/4K3 b - - 0 1").unwrap();
    assert!(is_checkmate(&black_mated));
    let score = minimax(&mut black_mated, 0, -5, 5, false, &mut tt, &mut ctx);
    assert_eq!(score, INFINITY);
    assert_eq!(tt.table.len(), 2);
}

#[test]
fn stalemate_scores_zero() {
    let mut board = Board::from_fen("k7/2K5/1Q6/8/8/8/8/8 b - - 0 1").unwrap();
    assert!(is_stalemate(&board));
    assert!(!is_checkmate(&board));
    let mut tt = CustomTT::new();
    let mut ctx = SearchContext::new();
    let hash = board.zobrist();
    assert_eq!(minimax(&mut board, 4, -INFINITY, INFINITY, false, &mut tt, &mut ctx), 0);
    let entry = tt.table.get(&hash).unwrap();
    assert_eq!((entry.score, entry.depth, entry.bound), (0, 4, Bound::Exact));
}

#[test]
fn fifty_quiet_half_moves_count_as_stalemate() {
    let quiet = Board::from_fen("4k3/8/8/8/8/8/8/R3K3 w - - 50 80").unwrap();
    let fresh = Board::from_fen("4k3/8/8/8/8/8/8/R3K3 w - - 49 80").unwrap();
    assert!(is_stalemate(&quiet));
    assert!(!is_stalemate(&fresh));
}

#[test]
fn usable_table_entry_answers_at_once() {
    let mut board = Board::start_pos();
    let mut tt = CustomTT::new();
    let mut ctx = SearchContext::new();
    tt.store(board.zobrist(), 9, 777, Bound::Exact);
    assert_eq!(minimax(&mut board, 3, -INFINITY, INFINITY, true, &mut tt, &mut ctx), 777);
    assert_eq!(quiescence(&mut board, -INFINITY, INFINITY, &mut tt, &ctx), 777);
    assert_eq!(tt.table.len(), 1);
    assert!(ctx.killers.iter().all(|m| m.is_null()));
}

#[test]
fn depth_zero_is_the_quiescence_score_stored_as_exact() {
    let mut board = Board::start_pos();
    let mut tt = CustomTT::new();
    let mut ctx = SearchContext::new();
    let hash = board.zobrist();
    let score = minimax(&mut board, 0, -INFINITY, INFINITY, true, &mut tt, &mut ctx);
    assert_eq!(score, 0);
    let entry = tt.table.get(&hash).unwrap();
    assert_eq!((entry.score, entry.depth, entry.bound), (0, 0, Bound::Exact));
}

#[test]
fn quiescence_stands_pat_in_a_quiet_position() {
    let mut board = Board::from_fen("4k3/8/8/8/8/8/8/4K2Q w - - 0 1").unwrap();
    let mut tt = CustomTT::new();
    let ctx = SearchContext::new();
    assert_eq!(capture_moves(&board).len(), 0);
    assert_eq!(evaluate_board(&board), 880);
    assert_eq!(quiescence(&mut board, -INFINITY, INFINITY, &mut tt, &ctx), 880);
    let entry = tt.table.get(&board.zobrist()).unwrap();
    assert_eq!((entry.score, entry.depth, entry.bound), (880, 0, Bound::Exact));
}

#[test]
fn quiescence_never_exceeds_beta() {
    let mut board = Board::from_fen("4k3/8/8/8/8/8/8/4K2Q w - - 0 1").unwrap();
    let ctx = SearchContext::new();
    // The static score 880 is at or above beta: the answer is beta itself.
    let mut tt = CustomTT::new();
    assert_eq!(quiescence(&mut board, 0, 500, &mut tt, &ctx), 500);
    assert_eq!(tt.table.len(), 0);
    let mut tt = CustomTT::new();
    assert_eq!(quiescence(&mut board, -100, 880, &mut tt, &ctx), 880);
    // Below beta the static score raises alpha.
    let mut tt = CustomTT::new();
    assert_eq!(quiescence(&mut board, 0, 881, &mut tt, &ctx), 880);
    // Alpha above the static score stays.
    let mut tt = CustomTT::new();
    assert_eq!(quiescence(&mut board, 900, 1000, &mut tt, &ctx), 900);
}

#[test]
fn quiescence_takes_a_hanging_queen() {
    // White to move can take the queen on d5 with the pawn.
    let fen = "4k3/8/8/3q4/4P3/8/8/4K3 w - - 0 1";
    let mut board = Board::from_fen(fen).unwrap();
    let mut tt = CustomTT::new();
    let ctx = SearchContext::new();
    let stand_pat = evaluate_board(&board);
    let mut after = Board::from_fen(fen).unwrap();
    assert!(after.apply_uci_move("e4d5"));
    let gained = -evaluate_board(&after);
    assert!(gained > stand_pat);
    let score = quiescence(&mut board, -INFINITY, INFINITY, &mut tt, &ctx);
    assert_eq!(score, gained);
    assert_eq!(board.fen(), fen);
    for beta in [-500, 0, 50, 150] {
        let mut tt = CustomTT::new();
        assert!(quiescence(&mut board, -INFINITY, beta, &mut tt, &ctx) <= beta);
    }
}

#[test]
fn quiescence_passes_over_a_losing_capture() {
    // The queen can take a pawn that a pawn defends: the exchange loses.
    let fen = "4k3/8/2p5/3p4/8/8/8/3QK3 w - - 0 1";
    let mut board = Board::from_fen(fen).unwrap();
    let mut tt = CustomTT::new();
    let ctx = SearchContext::new();
    assert_eq!(capture_moves(&board).len(), 1);
    let stand_pat = evaluate_board(&board);
    assert_eq!(quiescence(&mut board, -INFINITY, INFINITY, &mut tt, &ctx), stand_pat);
    assert_eq!(tt.table.len(), 1);
}

#[test]
fn search_leaves_the_board_and_fills_the_table() {
    let mut board = Board::start_pos();
    let mut tt = CustomTT::new();
    let mut ctx = SearchContext::new();
    let hash = board.zobrist();
    let score = minimax(&mut board, 2, -INFINITY, INFINITY, true, &mut tt, &mut ctx);
    assert_eq!(board.fen(), Board::start_pos().fen());
    assert_eq!(board.zobrist(), hash);
    assert_eq!(board.ply(), 0);
    let entry = tt.table.get(&hash).unwrap();
    assert_eq!((entry.score, entry.depth, entry.bound), (score, 2, Bound::Exact));
    assert!(tt.table.len() > 20);
    assert_eq!(tt.probe(hash, 2, -INFINITY, INFINITY), Some(score));
}

#[test]
fn the_search_is_a_function_of_its_inputs() {
    let mut a = Board::start_pos();
    let mut b = Board::start_pos();
    let mut tt_a = CustomTT::new();
    let mut tt_b = CustomTT::new();
    let mut ctx_a = SearchContext::new();
    let mut ctx_b = SearchContext::new();
    let x = minimax(&mut a, 3, -INFINITY, INFINITY, false, &mut tt_a, &mut ctx_a);
    let y = minimax(&mut b, 3, -INFINITY, INFINITY, false, &mut tt_b, &mut ctx_b);
    assert_eq!(x, y);
    assert_eq!(tt_a.table.len(), tt_b.table.len());
    assert_eq!(ctx_a.killers, ctx_b.killers);
    assert_eq!(ctx_a.history, ctx_b.history);
    assert_eq!(get_best_move(&mut a, 2, &mut ctx_a), get_best_move(&mut b, 2, &mut ctx_b));
}

#[test]
fn cutoff_records_killer_and_history() {
    let mut board = Board::start_pos();
    let mut tt = CustomTT::new();
    let mut ctx = SearchContext::new();
    // An empty window cuts the node off after its first move.
    let first = {
        let mut moves = legal_moves(&board);
        chess_search::order_moves(&mut moves, &board, &ctx);
        moves[0]
    };
    let hash = board.zobrist();
    let score = minimax_at(&mut board, 1, 10, 10, true, &mut tt, &mut ctx, 70);
    let slot = 2 * (70 % 64);
    assert_eq!(ctx.killers[slot], first);
    assert!(ctx.killers[slot + 1].is_null());
    let kind = 1 + (ctx.history.iter().position(|h| *h != 0).unwrap() / 64) as u8;
    assert_eq!(ctx.history_of(kind, first.dest()), 1);
    assert_eq!(ctx.history.iter().filter(|h| **h != 0).count(), 1);
    let entry = tt.table.get(&hash).unwrap();
    assert_eq!((entry.score, entry.depth, entry.bound), (score, 1, Bound::LowerBound));
    assert_eq!(board.fen(), Board::start_pos().fen());
}

#[test]
fn killer_is_recorded_at_the_ply_of_the_board() {
    let mut board = Board::start_pos();
    assert!(board.apply_uci_move("e2e4"));
    assert!(board.apply_uci_move("e7e5"));
    assert_eq!(board.ply(), 2);
    let mut tt = CustomTT::new();
    let mut ctx = SearchContext::new();
    let _ = minimax(&mut board, 1, 10, 10, false, &mut tt, &mut ctx);
    assert!(!ctx.killers[4].is_null());
    assert_eq!(ctx.killers.iter().filter(|m| !m.is_null()).count(), 1);
}

#[test]
fn null_move_search_runs_and_restores_the_board() {
    let fen = "r1bqkbnr/pppp1ppp/2n5/4p3/4P3/5N2/PPPP1PPP/RNBQKB1R w KQkq - 2 3";
    let mut board = Board::from_fen(fen).unwrap();
    let mut tt = CustomTT::new();
    let mut ctx = SearchContext::new();
    let hash = board.zobrist();
    let score = minimax(&mut board, 3, -INFINITY, INFINITY, false, &mut tt, &mut ctx);
    assert_eq!(board.fen(), fen);
    assert_eq!(tt.table.get(&hash).unwrap().score, score);
    assert_eq!(tt.table.get(&hash).unwrap().depth, 3);
    // The position with the turn passed has been searched: it is in the table.
    let passed = chess_search::pass::pass_turn(&board).unwrap();
    assert!(tt.table.contains_key(&passed.zobrist()));
}

#[test]
fn decisions_on_plain_scores() {
    assert_eq!(negated(5), -5);
    assert_eq!(negated(-INFINITY), INFINITY);
    assert_eq!(negated(i32::MIN), i32::MAX);
    assert_eq!(ply_after(0), 1);
    assert_eq!(ply_after(u16::MAX), 0);
    assert_eq!(mate_value(true), -INFINITY);
    assert_eq!(mate_value(false), INFINITY);
    assert_eq!(worst(true), -INFINITY);
    assert_eq!(worst(false), INFINITY);
    assert_eq!(raise(0, 10, 10), None);
    assert_eq!(raise(0, 10, 11), None);
    assert_eq!(raise(0, 10, 9), Some(9));
    assert_eq!(raise(0, 10, 0), Some(0));
    assert_eq!(raise(0, 10, -4), Some(0));
    assert!(allows_null_move(3, false, 0, 1, false));
    assert!(!allows_null_move(2, false, 0, 1, false));
    assert!(!allows_null_move(3, true, 0, 1, false));
    assert!(!allows_null_move(3, false, 1, 1, false));
    assert!(!allows_null_move(3, false, 0, 1, true));
    assert_eq!(cutoff_bound(true), Bound::LowerBound);
    assert_eq!(cutoff_bound(false), Bound::UpperBound);
    assert!(improves(true, 1, 0));
    assert!(!improves(true, 0, 0));
    assert!(!improves(true, -1, 0));
    assert!(improves(false, -1, 0));
    assert!(!improves(false, 0, 0));
    assert!(!improves(false, 1, 0));
}

#[test]
fn window_of_a_node() {
    let w = Window::open(-5, 5, true);
    assert_eq!(w, Window { alpha: -5, beta: 5, best: -INFINITY });
    let w = w.absorb(-7, true);
    assert_eq!(w, Window { alpha: -5, beta: 5, best: -7 });
    assert!(!w.is_closed());
    let w = w.absorb(3, true);
    assert_eq!(w, Window { alpha: 3, beta: 5, best: 3 });
    let w = w.absorb(1, true);
    assert_eq!(w, Window { alpha: 3, beta: 5, best: 3 });
    let w = w.absorb(5, true);
    assert_eq!(w, Window { alpha: 5, beta: 5, best: 5 });
    assert!(w.is_closed());
    let w = Window::open(-5, 5, false);
    assert_eq!(w.best, INFINITY);
    let w = w.absorb(8, false);
    assert_eq!(w, Window { alpha: -5, beta: 5, best: 8 });
    let w = w.absorb(-2, false);
    assert_eq!(w, Window { alpha: -5, beta: -2, best: -2 });
    assert!(!w.is_closed());
    let w = w.absorb(-9, false);
    assert_eq!(w, Window { alpha: -5, beta: -9, best: -9 });
    assert!(w.is_closed());
    assert!(Window::open(4, 4, true).is_closed());
}

#[test]
fn single_legal_move_that_mates_is_chosen_at_every_depth() {
    // White is in check from the rook on f1; taking it with the bishop is
    // the only legal move, and it mates.
    let fen = "8/8/8/5N2/8/3B1P1k/8/5r1K w - - 0 1";
    let mut board = Board::from_fen(fen).unwrap();
    let moves = legal_moves(&board);
    assert_eq!(moves.len(), 1);
    let forced = search_move(&board, "d3f1");
    assert_eq!(moves[0], forced);
    let mut after = Board::from_fen(fen).unwrap();
    assert!(after.apply_uci_move("d3f1"));
    assert!(is_checkmate(&after));
    for depth in 1..=4 {
        let mut ctx = SearchContext::new();
        assert_eq!(get_best_move(&mut board, depth, &mut ctx), forced);
        assert_eq!(board.fen(), fen);
    }
    let mut tt = CustomTT::new();
    let mut ctx = SearchContext::new();
    let score = minimax(&mut board, 1, -INFINITY, INFINITY, true, &mut tt, &mut ctx);
    assert_eq!(score, INFINITY);
}

#[test]
fn a_move_is_found_whenever_there_is_one() {
    let fens = [
        "rnbqkbnr/pppppppp/8/8/8/8/PPPPPPPP/RNBQKBNR w KQkq - 0 1",
        "rnbqkbnr/pppppppp/8/8/4P3/8/PPPP1PPP/RNBQKBNR b KQkq - 0 1",
        "8/8/8/8/8/5k2/q7/7K w - - 0 1",
        "8/8/8/5N2/8/3B1P1k/8/5r1K w - - 0 1",
        "4k3/8/8/8/8/8/8/4K2Q b - - 0 1",
        "r3k2r/p1ppqpb1/bn2pnp1/3PN3/1p2P3/2N2Q1p/PPPBBPPP/R3K2R w KQkq - 0 10",
    ];
    for fen in fens {
        for depth in 1..=2 {
            let mut board = Board::from_fen(fen).unwrap();
            let mut ctx = SearchContext::new();
            let moves = legal_moves(&board);
            assert!(!moves.is_empty());
            let best = get_best_move(&mut board, depth, &mut ctx);
            assert!(!best.is_null(), "{} at depth {}", fen, depth);
            assert!(moves.contains(&best));
        }
    }
}

#[test]
fn quiescence_scores_are_finite() {
    let mut board = Board::from_fen("4k3/8/8/3q4/4P3/8/8/4K3 w - - 0 1").unwrap();
    let ctx = SearchContext::new();
    let mut tt = CustomTT::new();
    let score = quiescence(&mut board, -INFINITY, INFINITY, &mut tt, &ctx);
    assert!(-INFINITY < score && score < INFINITY);
    assert!(tt.table.values().all(|e| -INFINITY < e.score && e.score < INFINITY));
}
