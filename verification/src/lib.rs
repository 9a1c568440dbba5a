//! A chess move chooser: iterative-deepening minimax with alpha-beta pruning,
//! quiescence, a transposition table and move ordering, on top of the `pleco`
//! board and move generator, together with a codec for algebraic notation
//! and a reader for opening-book records.

pub mod book;
pub mod eval;
pub mod game;
pub mod moves;
pub mod notation;
pub mod ordering;
pub mod pass;
pub mod position;
pub mod search;
pub mod survey;
pub mod table;
pub mod text;

pub use book::parse_csv_line;
pub use eval::{evaluate_board, score_squares};
pub use game::{judge, next_step, play_move, replay_opening, verdict, Step, Verdict};
pub use moves::Move;
pub use notation::{bitmove_to_san, move_to_san, san_to_bitmove, write_move, NoMatch};
pub use ordering::{
    order_moves, rank_move, score_move, sort_by_scores, SearchContext, MAX_PLY,
};
pub use search::{
    get_best_move, minimax, minimax_at, quiescence, Window, INFINITY, MAX_DEPTH,
};
pub use table::{Bound, CustomTT, TTEntry};
