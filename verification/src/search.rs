//! The search: quiescence, alpha-beta minimax with a transposition table
//! and null-move pruning, and the iterative-deepening driver.
//!
//! Every search function takes the board by mutable reference, plays moves
//! on it and takes each of them back, so that the board is the same when the
//! function returns, on every path. What a function returns and what it
//! leaves in the tables is given by a function of the position written
//! beside it. The decisions that a search makes on the scores it gets back
//! stand in small functions of their own, on plain numbers.

use crate::eval::{evaluate_board, evaluation, lemma_crowned_evaluation};
use crate::moves::Move;
use crate::ordering::{
    lemma_kept_by_chains, lemma_ordered_is_falling_permutation, lemma_same_members, order_moves,
    ordered, score_key, ContextView, SearchContext,
};
use crate::pass::{pass_turn, passed_position};
use crate::position::{
    after_move, apply_move, capture_moves, capture_moves_of, captures, checked, checkmate, crowned,
    exchange, exchange_at_least, hash_of, in_check, is_checkmate, is_stalemate, kind_of,
    legal_moves, legal_moves_of, lemma_legal_moves_not_null, moved_piece, piece_on, piece_total,
    playable, ply_of,
    position_hash, position_ply, stalemate, undo_move, white_moves, white_to_move,
};
use crate::table::{probe_spec, Bound, CustomTT, TTEntry};
use pleco::Board;
use vstd::prelude::*;

verus! {

/// The score of a won game, and the widest window's edge.
pub const INFINITY: i32 = 1000000;

/// The depth to which the program searches.
pub const MAX_DEPTH: u8 = 5;

/// A score seen from the other side. The one score without a negative
/// becomes the largest score.
pub open spec fn negate(x: i32) -> i32 {
    if x == i32::MIN {
        i32::MAX
    } else {
        (-x) as i32
    }
}

pub fn negated(x: i32) -> (y: i32)
    ensures
        y == negate(x),
{
    if x == i32::MIN {
        i32::MAX
    } else {
        -x
    }
}

/// The ply after `ply`. The count starts again after the largest value; the
/// killer table only tells plies apart modulo 64, which divides the number
/// of values.
pub open spec fn next_ply(ply: u16) -> u16 {
    if ply == u16::MAX {
        0
    } else {
        (ply + 1) as u16
    }
}

pub fn ply_after(ply: u16) -> (next: u16)
    ensures
        next == next_ply(ply),
{
    if ply == u16::MAX {
        0
    } else {
        ply + 1
    }
}

/// The score of a checkmate: lost for the side to move, with positive
/// scores in White's favour.
pub open spec fn mate_value_of(white_to_move: bool) -> i32 {
    if white_to_move {
        (-INFINITY) as i32
    } else {
        INFINITY
    }
}

pub fn mate_value(white_to_move: bool) -> (score: i32)
    ensures
        score == mate_value_of(white_to_move),
{
    if white_to_move {
        -INFINITY
    } else {
        INFINITY
    }
}

/// The score that any reply improves on: the lowest for the maximizing
/// side, the highest for the minimizing side.
pub open spec fn worst_score(maximizing: bool) -> i32 {
    if maximizing {
        (-INFINITY) as i32
    } else {
        INFINITY
    }
}

pub fn worst(maximizing: bool) -> (score: i32)
    ensures
        score == worst_score(maximizing),
{
    if maximizing {
        -INFINITY
    } else {
        INFINITY
    }
}

/// What a score does to `alpha` in a quiescence search: at `beta` or above
/// it ends the search, which fails hard; below, it raises `alpha` if it is
/// higher.
pub open spec fn raised_by(alpha: i32, beta: i32, score: i32) -> Option<i32> {
    if score >= beta {
        None
    } else if score > alpha {
        Some(score)
    } else {
        Some(alpha)
    }
}

pub fn raise(alpha: i32, beta: i32, score: i32) -> (raised: Option<i32>)
    ensures
        raised == raised_by(alpha, beta, score),
{
    if score >= beta {
        None
    } else if score > alpha {
        Some(score)
    } else {
        Some(alpha)
    }
}

/// When a node tries a null move: with three plies or more to go, for the
/// minimizing side only, with a window that is not empty, and not in check.
pub open spec fn null_move_allowed(
    depth: u8,
    maximizing: bool,
    alpha: i32,
    beta: i32,
    in_check: bool,
) -> bool {
    depth >= 3 && !maximizing && alpha < beta && !in_check
}

pub fn allows_null_move(
    depth: u8,
    maximizing: bool,
    alpha: i32,
    beta: i32,
    in_check: bool,
) -> (allowed: bool)
    ensures
        allowed == null_move_allowed(depth, maximizing, alpha, beta, in_check),
{
    depth >= 3 && !maximizing && alpha < beta && !in_check
}

/// Where a node stands while its moves are expanded: the window and the
/// best score so far.
#[derive(Clone, Copy, PartialEq, Eq, Structural, Debug)]
pub struct Window {
    pub alpha: i32,
    pub beta: i32,
    pub best: i32,
}

impl Window {
    /// The window of a node before its first move.
    pub open spec fn opened(alpha: i32, beta: i32, maximizing: bool) -> Window {
        Window { alpha, beta, best: worst_score(maximizing) }
    }

    /// The window after a reply has come back: the maximizing side keeps
    /// the highest score and raises `alpha` to it, the minimizing side keeps
    /// the lowest and lowers `beta`.
    pub open spec fn absorbed(self, eval: i32, maximizing: bool) -> Window {
        if maximizing {
            Window {
                alpha: if eval > self.alpha {
                    eval
                } else {
                    self.alpha
                },
                beta: self.beta,
                best: if eval > self.best {
                    eval
                } else {
                    self.best
                },
            }
        } else {
            Window {
                alpha: self.alpha,
                beta: if eval < self.beta {
                    eval
                } else {
                    self.beta
                },
                best: if eval < self.best {
                    eval
                } else {
                    self.best
                },
            }
        }
    }

    /// Whether the node is cut off: `beta` is no more than `alpha`.
    pub open spec fn closed(self) -> bool {
        self.beta <= self.alpha
    }

    pub fn open(alpha: i32, beta: i32, maximizing: bool) -> (window: Window)
        ensures
            window == Window::opened(alpha, beta, maximizing),
    {
        Window { alpha, beta, best: worst(maximizing) }
    }

    pub fn absorb(self, eval: i32, maximizing: bool) -> (window: Window)
        ensures
            window == self.absorbed(eval, maximizing),
    {
        if maximizing {
            Window {
                alpha: if eval > self.alpha {
                    eval
                } else {
                    self.alpha
                },
                beta: self.beta,
                best: if eval > self.best {
                    eval
                } else {
                    self.best
                },
            }
        } else {
            Window {
                alpha: self.alpha,
                beta: if eval < self.beta {
                    eval
                } else {
                    self.beta
                },
                best: if eval < self.best {
                    eval
                } else {
                    self.best
                },
            }
        }
    }

    pub fn is_closed(self) -> (closed: bool)
        ensures
            closed == self.closed(),
    {
        self.beta <= self.alpha
    }
}

/// How the score of a node that was cut off is stored: as a lower bound for
/// the maximizing side, as an upper bound for the minimizing side.
pub open spec fn cutoff_bound_of(maximizing: bool) -> Bound {
    if maximizing {
        Bound::LowerBound
    } else {
        Bound::UpperBound
    }
}

pub fn cutoff_bound(maximizing: bool) -> (bound: Bound)
    ensures
        bound == cutoff_bound_of(maximizing),
{
    if maximizing {
        Bound::LowerBound
    } else {
        Bound::UpperBound
    }
}

/// Whether a root move with score `value` replaces the preferred one with
/// score `current`: only if it is strictly better for the side that
/// chooses.
pub open spec fn improves_on(maximizing: bool, value: i32, current: i32) -> bool {
    (maximizing && value > current) || (!maximizing && value < current)
}

pub fn improves(maximizing: bool, value: i32, current: i32) -> (better: bool)
    ensures
        better == improves_on(maximizing, value, current),
{
    (maximizing && value > current) || (!maximizing && value < current)
}

/// The table with the result of a node added.
pub open spec fn stored(
    table: Map<u64, TTEntry>,
    b: Board,
    score: i32,
    depth: u8,
    bound: Bound,
) -> Map<u64, TTEntry> {
    table.insert(position_hash(b), TTEntry { score, depth, bound })
}

/// Whether a score lies strictly between the scores of a lost and of a
/// won game.
pub open spec fn finite(score: i32) -> bool {
    -INFINITY < score < INFINITY
}

/// Whether every score in the table is finite.
pub open spec fn tame(table: Map<u64, TTEntry>) -> bool {
    forall|hash: u64| table.contains_key(hash) ==> finite(#[trigger] table[hash].score)
}

/// What a quiescence search comes to: its score and the table it leaves.
pub struct Settled {
    pub score: i32,
    pub table: Map<u64, TTEntry>,
}

/// What a quiescence search of `b` with the window (`alpha`, `beta`) comes
/// to.
///
/// A usable table entry for depth 0 is the answer. Else the static
/// evaluation stands pat: at `beta` or above the answer is `beta`; below,
/// it raises `alpha`, and the legal captures are walked in their order.
pub open spec fn quiescence_spec(
    b: Board,
    alpha: i32,
    beta: i32,
    table: Map<u64, TTEntry>,
    ctx: ContextView,
) -> Settled
    decreases piece_total(b), 1nat, 0nat,
{
    match probe_spec(table, position_hash(b), 0, alpha, beta) {
        Some(score) => Settled { score, table },
        None => match raised_by(alpha, beta, evaluation(b) as i32) {
            None => Settled { score: beta, table },
            Some(raised) => capture_walk(
                b,
                ordered(capture_moves_of(b), score_key(b, ctx)),
                0,
                raised,
                beta,
                table,
                ctx,
            ),
        },
    }
}

/// The walk through the captures `moves` of `b` from the `i`-th on.
///
/// A capture whose exchange loses material is passed over. Any other is
/// played and answered by a quiescence search with the window turned
/// round. An answer at `beta` or above is stored as an upper bound and ends
/// the walk with `beta`; a lower one raises `alpha` if it is higher. At the
/// end of the walk `alpha` is stored as exact and returned.
///
/// A capture takes a piece off the board, which is why the walk ends; a
/// move that takes none would be passed over.
pub open spec fn capture_walk(
    b: Board,
    moves: Seq<Move>,
    i: int,
    alpha: i32,
    beta: i32,
    table: Map<u64, TTEntry>,
    ctx: ContextView,
) -> Settled
    decreases piece_total(b), 0nat, moves.len() - i,
{
    if i < 0 || i >= moves.len() {
        Settled { score: alpha, table: stored(table, b, alpha, 0, Bound::Exact) }
    } else if !exchange_at_least(b, moves[i], 0) || piece_total(after_move(b, moves[i]))
        >= piece_total(b) {
        capture_walk(b, moves, i + 1, alpha, beta, table, ctx)
    } else {
        let reply = quiescence_spec(
            after_move(b, moves[i]),
            negate(beta),
            negate(alpha),
            table,
            ctx,
        );
        match raised_by(alpha, beta, negate(reply.score)) {
            None => Settled {
                score: beta,
                table: stored(reply.table, b, negate(reply.score), 0, Bound::UpperBound),
            },
            Some(raised) => capture_walk(b, moves, i + 1, raised, beta, reply.table, ctx),
        }
    }
}

/// Searches the captures of the position until it is quiet.
///
/// The board is handed back as it came. Unless the table answers at once,
/// and if `alpha` is no more than `beta`, the score is never above `beta`.
/// On a board with both kings, with a window inside the scores of a lost
/// and a won game and a table of finite scores, the score is finite and the
/// table stays so.
pub fn quiescence(
    board: &mut Board,
    alpha: i32,
    beta: i32,
    tt: &mut CustomTT,
    ctx: &SearchContext,
) -> (score: i32)
    requires
        ctx@.wf(),
    ensures
        *final(board) == *old(board),
        (Settled { score, table: final(tt)@ }) == quiescence_spec(
            *old(board),
            alpha,
            beta,
            old(tt)@,
            ctx@,
        ),
        probe_spec(old(tt)@, position_hash(*old(board)), 0, alpha, beta) is None && alpha <= beta
            ==> score <= beta,
        crowned(*old(board)) && tame(old(tt)@) && -INFINITY <= alpha < INFINITY && -INFINITY
            < beta <= INFINITY ==> finite(score) && tame(final(tt)@),
    decreases piece_total(*old(board)),
{
    let ghost b0 = *board;
    let ghost whole = quiescence_spec(b0, alpha, beta, tt@, ctx@);
    let ghost calm = crowned(b0) && tame(tt@) && -INFINITY <= alpha < INFINITY && -INFINITY
        < beta <= INFINITY;
    proof {
        if crowned(b0) {
            lemma_crowned_evaluation(b0);
        }
    }
    let hash: u64 = hash_of(board);
    if let Some(score) = tt.probe(hash, 0, alpha, beta) {
        return score;
    }
    let mut raised: i32 = match raise(alpha, beta, evaluate_board(board)) {
        Some(raised) => raised,
        None => {
            return beta;
        },
    };
    let mut moves = capture_moves(board);
    order_moves(&mut moves, board, ctx);
    let mut i: usize = 0;
    while i < moves.len()
        invariant
            i <= moves.len(),
            *board == b0,
            b0 == *old(board),
            whole == quiescence_spec(*old(board), alpha, beta, old(tt)@, ctx@),
            ctx@.wf(),
            hash == position_hash(b0),
            forall|k: int|
                0 <= k < moves.len() ==> capture_moves_of(b0).contains(#[trigger] moves[k]),
            forall|m: Move|
                capture_moves_of(b0).contains(m) ==> playable(b0, m) && captures(b0, m),
            capture_walk(b0, moves@, i as int, raised, beta, tt@, ctx@) == whole,
            alpha <= beta ==> raised <= beta,
            calm == (crowned(b0) && tame(old(tt)@) && -INFINITY <= alpha < INFINITY && -INFINITY
                < beta <= INFINITY),
            calm ==> tame(tt@) && finite(raised),
        decreases moves.len() - i,
    {
        let m: Move = moves[i];
        if exchange(board, m, 0) {
            apply_move(board, m);
            let reply: i32 = quiescence(board, negated(beta), negated(raised), tt, ctx);
            undo_move(board);
            match raise(raised, beta, negated(reply)) {
                Some(higher) => {
                    raised = higher;
                },
                None => {
                    tt.store(hash, 0, negated(reply), Bound::UpperBound);
                    return beta;
                },
            }
        }
        i += 1;
    }
    tt.store(hash, 0, raised, Bound::Exact);
    raised
}

/// What a search of a node comes to: its score and the tables it leaves.
pub struct Outcome {
    pub score: i32,
    pub table: Map<u64, TTEntry>,
    pub context: ContextView,
}

/// What a search of `b` to `depth` plies with the window (`alpha`, `beta`)
/// comes to, `ply` plies into the game.
///
/// In this order: a usable table entry is the answer and nothing changes; a
/// checkmate scores as lost for the side to move, a stalemate as 0, both
/// stored as exact; at depth 0 the quiescence search answers, stored as
/// exact at depth 0; a null move, where it is allowed and the passed
/// position can be made, is searched three plies shallower with the window
/// turned round, and an answer at `beta` or above is stored as a lower bound
/// and returned; else the legal moves are expanded in their order.
pub open spec fn minimax_spec(
    b: Board,
    depth: u8,
    alpha: i32,
    beta: i32,
    maximizing: bool,
    table: Map<u64, TTEntry>,
    ctx: ContextView,
    ply: u16,
) -> Outcome
    decreases depth, 2nat, 0nat,
{
    match probe_spec(table, position_hash(b), depth, alpha, beta) {
        Some(score) => Outcome { score, table, context: ctx },
        None => if checkmate(b) {
            Outcome {
                score: mate_value_of(white_to_move(b)),
                table: stored(table, b, mate_value_of(white_to_move(b)), depth, Bound::Exact),
                context: ctx,
            }
        } else if stalemate(b) {
            Outcome { score: 0, table: stored(table, b, 0, depth, Bound::Exact), context: ctx }
        } else if depth == 0 {
            let quiet = quiescence_spec(b, alpha, beta, table, ctx);
            Outcome {
                score: quiet.score,
                table: stored(quiet.table, b, quiet.score, 0, Bound::Exact),
                context: ctx,
            }
        } else {
            match passed_position(b) {
                Some(passed) if null_move_allowed(depth, maximizing, alpha, beta, in_check(b)) => {
                    let reply = minimax_spec(
                        passed,
                        (depth - 3) as u8,
                        negate(beta),
                        negate(alpha),
                        true,
                        table,
                        ctx,
                        next_ply(ply),
                    );
                    if negate(reply.score) >= beta {
                        Outcome {
                            score: negate(reply.score),
                            table: stored(
                                reply.table,
                                b,
                                negate(reply.score),
                                depth,
                                Bound::LowerBound,
                            ),
                            context: reply.context,
                        }
                    } else {
                        expand(
                            b,
                            ordered(legal_moves_of(b), score_key(b, reply.context)),
                            0,
                            depth,
                            Window::opened(alpha, beta, maximizing),
                            maximizing,
                            reply.table,
                            reply.context,
                            ply,
                        )
                    }
                },
                _ => expand(
                    b,
                    ordered(legal_moves_of(b), score_key(b, ctx)),
                    0,
                    depth,
                    Window::opened(alpha, beta, maximizing),
                    maximizing,
                    table,
                    ctx,
                    ply,
                ),
            }
        },
    }
}

/// The expansion of the moves `moves` of `b` from the `i`-th on.
///
/// Each move is played and answered by a search one ply shallower for the
/// other side, and the window absorbs the answer. Once the window is closed
/// the node is cut off: the move goes into the killer and history tables,
/// and the best score is stored as a bound. Without a cutoff the best score
/// is stored as exact.
pub open spec fn expand(
    b: Board,
    moves: Seq<Move>,
    i: int,
    depth: u8,
    window: Window,
    maximizing: bool,
    table: Map<u64, TTEntry>,
    ctx: ContextView,
    ply: u16,
) -> Outcome
    decreases depth, 1nat, moves.len() - i,
{
    if depth == 0 || i < 0 || i >= moves.len() {
        Outcome {
            score: window.best,
            table: stored(table, b, window.best, depth, Bound::Exact),
            context: ctx,
        }
    } else {
        let reply = minimax_spec(
            after_move(b, moves[i]),
            (depth - 1) as u8,
            window.alpha,
            window.beta,
            !maximizing,
            table,
            ctx,
            next_ply(ply),
        );
        let next = window.absorbed(reply.score, maximizing);
        if next.closed() {
            Outcome {
                score: next.best,
                table: stored(reply.table, b, next.best, depth, cutoff_bound_of(maximizing)),
                context: reply.context.with_cutoff(
                    ply,
                    moves[i],
                    kind_of(piece_on(b, moves[i].src())),
                    depth,
                ),
            }
        } else {
            expand(b, moves, i + 1, depth, next, maximizing, reply.table, reply.context, ply)
        }
    }
}

/// Searches the position to `depth` plies, `ply` plies into the game, and
/// returns its score: positive favours White. The board is handed back as
/// it came, and the killer and history tables only grow. At depth 0, on a
/// board with both kings, with the widest window and a table of finite
/// scores, the score is better than the worst for the side that moved
/// before.
pub fn minimax_at(
    board: &mut Board,
    depth: u8,
    alpha: i32,
    beta: i32,
    maximizing: bool,
    tt: &mut CustomTT,
    ctx: &mut SearchContext,
    ply: u16,
) -> (score: i32)
    requires
        old(ctx)@.wf(),
    ensures
        *final(board) == *old(board),
        final(ctx)@.wf(),
        old(ctx)@.kept_by(final(ctx)@),
        (Outcome { score, table: final(tt)@, context: final(ctx)@ }) == minimax_spec(
            *old(board),
            depth,
            alpha,
            beta,
            maximizing,
            old(tt)@,
            old(ctx)@,
            ply,
        ),
        depth == 0 && crowned(*old(board)) && tame(old(tt)@) && alpha == -INFINITY && beta
            == INFINITY && maximizing == white_to_move(*old(board)) ==> improves_on(
            !maximizing,
            score,
            worst_score(!maximizing),
        ),
    decreases depth,
{
    let ghost b0 = *board;
    let ghost ctx0 = ctx@;
    let ghost whole = minimax_spec(b0, depth, alpha, beta, maximizing, tt@, ctx@, ply);
    let hash: u64 = hash_of(board);
    if let Some(score) = tt.probe(hash, depth, alpha, beta) {
        return score;
    }
    if is_checkmate(board) {
        let score: i32 = mate_value(white_moves(board));
        tt.store(hash, depth, score, Bound::Exact);
        return score;
    }
    if is_stalemate(board) {
        tt.store(hash, depth, 0, Bound::Exact);
        return 0;
    }
    if depth == 0 {
        let score: i32 = quiescence(board, alpha, beta, tt, ctx);
        tt.store(hash, 0, score, Bound::Exact);
        return score;
    }
    let next: u16 = ply_after(ply);
    if allows_null_move(depth, maximizing, alpha, beta, checked(board)) {
        match pass_turn(board) {
            Some(position) => {
                let mut passed = position;
                let reply: i32 = minimax_at(
                    &mut passed,
                    depth - 3,
                    negated(beta),
                    negated(alpha),
                    true,
                    tt,
                    ctx,
                    next,
                );
                let null_score: i32 = negated(reply);
                if null_score >= beta {
                    tt.store(hash, depth, null_score, Bound::LowerBound);
                    return null_score;
                }
            },
            None => {},
        }
    }
    let mut moves = legal_moves(board);
    order_moves(&mut moves, board, ctx);
    let mut window = Window::open(alpha, beta, maximizing);
    let mut i: usize = 0;
    while i < moves.len()
        invariant
            i <= moves.len(),
            depth > 0,
            *board == b0,
            b0 == *old(board),
            whole == minimax_spec(
                *old(board),
                depth,
                alpha,
                beta,
                maximizing,
                old(tt)@,
                old(ctx)@,
                ply,
            ),
            ctx@.wf(),
            ctx0.wf(),
            ctx0 == old(ctx)@,
            ctx0.kept_by(ctx@),
            hash == position_hash(b0),
            next == next_ply(ply),
            forall|k: int|
                0 <= k < moves.len() ==> legal_moves_of(b0).contains(#[trigger] moves[k]),
            forall|m: Move| legal_moves_of(b0).contains(m) ==> playable(b0, m),
            expand(b0, moves@, i as int, depth, window, maximizing, tt@, ctx@, ply) == whole,
        decreases moves.len() - i,
    {
        let m: Move = moves[i];
        let kind: u8 = moved_piece(board, m) % 8;
        let ghost before = ctx@;
        apply_move(board, m);
        let eval: i32 = minimax_at(
            board,
            depth - 1,
            window.alpha,
            window.beta,
            !maximizing,
            tt,
            ctx,
            next,
        );
        proof {
            lemma_kept_by_chains(ctx0, before, ctx@);
        }
        undo_move(board);
        window = window.absorb(eval, maximizing);
        if window.is_closed() {
            let ghost replied = ctx@;
            ctx.record_killer(ply, m);
            let ghost noted = ctx@;
            ctx.add_history(kind, m.dest(), depth);
            proof {
                lemma_kept_by_chains(replied, noted, ctx@);
                lemma_kept_by_chains(ctx0, replied, ctx@);
            }
            tt.store(hash, depth, window.best, cutoff_bound(maximizing));
            return window.best;
        }
        i += 1;
    }
    tt.store(hash, depth, window.best, Bound::Exact);
    window.best
}

/// Searches the position to `depth` plies and returns its score: positive
/// favours White. The ply is the board's own count of moves played.
pub fn minimax(
    board: &mut Board,
    depth: u8,
    alpha: i32,
    beta: i32,
    maximizing: bool,
    tt: &mut CustomTT,
    ctx: &mut SearchContext,
) -> (score: i32)
    requires
        old(ctx)@.wf(),
    ensures
        *final(board) == *old(board),
        final(ctx)@.wf(),
        old(ctx)@.kept_by(final(ctx)@),
        (Outcome { score, table: final(tt)@, context: final(ctx)@ }) == minimax_spec(
            *old(board),
            depth,
            alpha,
            beta,
            maximizing,
            old(tt)@,
            old(ctx)@,
            position_ply(*old(board)),
        ),
{
    let ply: u16 = ply_of(board);
    minimax_at(board, depth, alpha, beta, maximizing, tt, ctx, ply)
}

/// What one pass over the root moves comes to: the move it prefers and the
/// tables it leaves.
pub struct Pass {
    pub best: Move,
    pub table: Map<u64, TTEntry>,
    pub context: ContextView,
}

/// What a call for the best move comes to: the move and the killer and
/// history tables it leaves.
pub struct Decision {
    pub best: Move,
    pub context: ContextView,
}

/// One pass over the root moves `moves` of `b` from the `i`-th on, at
/// `depth`, with `best` the move preferred so far and `value` its score.
///
/// Each move is played and answered by a search of `depth - 1` plies with
/// the widest window. A move replaces the preferred one only if its score
/// improves on it. Of two moves with the same score the earlier stays.
pub open spec fn root_scan(
    b: Board,
    moves: Seq<Move>,
    i: int,
    depth: u8,
    maximizing: bool,
    value: i32,
    best: Move,
    table: Map<u64, TTEntry>,
    ctx: ContextView,
    ply: u16,
) -> Pass
    decreases moves.len() - i,
{
    if depth == 0 || i < 0 || i >= moves.len() {
        Pass { best, table, context: ctx }
    } else {
        let reply = minimax_spec(
            after_move(b, moves[i]),
            (depth - 1) as u8,
            (-INFINITY) as i32,
            INFINITY,
            !maximizing,
            table,
            ctx,
            next_ply(ply),
        );
        if improves_on(maximizing, reply.score, value) {
            root_scan(
                b,
                moves,
                i + 1,
                depth,
                maximizing,
                reply.score,
                moves[i],
                reply.table,
                reply.context,
                ply,
            )
        } else {
            root_scan(
                b,
                moves,
                i + 1,
                depth,
                maximizing,
                value,
                best,
                reply.table,
                reply.context,
                ply,
            )
        }
    }
}

/// Iterative deepening from `depth` up to `max_depth`, with `best` the
/// choice of the depth before.
///
/// At each depth the root moves are ordered afresh and scanned. A depth at
/// which no move improves on the worst score ends the deepening with the
/// earlier choice; else its choice replaces the earlier one. The
/// transposition table is carried from depth to depth.
pub open spec fn deepen(
    b: Board,
    roots: Seq<Move>,
    depth: int,
    max_depth: u8,
    best: Move,
    table: Map<u64, TTEntry>,
    ctx: ContextView,
    ply: u16,
) -> Decision
    decreases max_depth + 1 - depth,
{
    if depth < 1 || depth > max_depth {
        Decision { best, context: ctx }
    } else {
        let pass = root_scan(
            b,
            ordered(roots, score_key(b, ctx)),
            0,
            depth as u8,
            white_to_move(b),
            worst_score(white_to_move(b)),
            Move { raw: 0 },
            table,
            ctx,
            ply,
        );
        if pass.best.is_null() {
            Decision { best, context: pass.context }
        } else {
            deepen(b, roots, depth + 1, max_depth, pass.best, pass.table, pass.context, ply)
        }
    }
}

/// The move chosen for `b` by a search to `max_depth`, and the tables left.
/// A position without a legal move gets the null move.
pub open spec fn best_move_spec(b: Board, max_depth: u8, ctx: ContextView) -> Decision {
    if legal_moves_of(b).len() == 0 {
        Decision { best: Move { raw: 0 }, context: ctx }
    } else {
        deepen(
            b,
            legal_moves_of(b),
            1,
            max_depth,
            Move { raw: 0 },
            Map::<u64, TTEntry>::empty(),
            ctx,
            position_ply(b),
        )
    }
}

/// Whether, in a pass over the root moves `moves` of `b` from the `i`-th
/// on, some reply improves on the worst score.
pub open spec fn some_reply_improves(
    b: Board,
    moves: Seq<Move>,
    i: int,
    depth: u8,
    maximizing: bool,
    table: Map<u64, TTEntry>,
    ctx: ContextView,
    ply: u16,
) -> bool
    decreases moves.len() - i,
{
    if depth == 0 || i < 0 || i >= moves.len() {
        false
    } else {
        let reply = minimax_spec(
            after_move(b, moves[i]),
            (depth - 1) as u8,
            (-INFINITY) as i32,
            INFINITY,
            !maximizing,
            table,
            ctx,
            next_ply(ply),
        );
        improves_on(maximizing, reply.score, worst_score(maximizing)) || some_reply_improves(
            b,
            moves,
            i + 1,
            depth,
            maximizing,
            reply.table,
            reply.context,
            ply,
        )
    }
}

/// Whether no move of `moves` is the null move.
pub open spec fn none_is_null(moves: Seq<Move>) -> bool {
    forall|k: int| 0 <= k < moves.len() ==> !(#[trigger] moves[k]).is_null()
}

/// A pass that already prefers a move ends with a move.
pub proof fn lemma_root_scan_keeps_a_move(
    b: Board,
    moves: Seq<Move>,
    i: int,
    depth: u8,
    maximizing: bool,
    value: i32,
    best: Move,
    table: Map<u64, TTEntry>,
    ctx: ContextView,
    ply: u16,
)
    requires
        !best.is_null(),
        none_is_null(moves),
    ensures
        !root_scan(b, moves, i, depth, maximizing, value, best, table, ctx, ply).best.is_null(),
    decreases moves.len() - i,
{
    if !(depth == 0 || i < 0 || i >= moves.len()) {
        let reply = minimax_spec(
            after_move(b, moves[i]),
            (depth - 1) as u8,
            (-INFINITY) as i32,
            INFINITY,
            !maximizing,
            table,
            ctx,
            next_ply(ply),
        );
        if improves_on(maximizing, reply.score, value) {
            lemma_root_scan_keeps_a_move(
                b,
                moves,
                i + 1,
                depth,
                maximizing,
                reply.score,
                moves[i],
                reply.table,
                reply.context,
                ply,
            );
        } else {
            lemma_root_scan_keeps_a_move(
                b,
                moves,
                i + 1,
                depth,
                maximizing,
                value,
                best,
                reply.table,
                reply.context,
                ply,
            );
        }
    }
}

/// A pass in which some reply improves on the worst score ends with a
/// move.
pub proof fn lemma_root_scan_finds_a_move(
    b: Board,
    moves: Seq<Move>,
    i: int,
    depth: u8,
    maximizing: bool,
    table: Map<u64, TTEntry>,
    ctx: ContextView,
    ply: u16,
)
    requires
        none_is_null(moves),
        some_reply_improves(b, moves, i, depth, maximizing, table, ctx, ply),
    ensures
        !root_scan(
            b,
            moves,
            i,
            depth,
            maximizing,
            worst_score(maximizing),
            Move { raw: 0 },
            table,
            ctx,
            ply,
        ).best.is_null(),
    decreases moves.len() - i,
{
    let reply = minimax_spec(
        after_move(b, moves[i]),
        (depth - 1) as u8,
        (-INFINITY) as i32,
        INFINITY,
        !maximizing,
        table,
        ctx,
        next_ply(ply),
    );
    if improves_on(maximizing, reply.score, worst_score(maximizing)) {
        lemma_root_scan_keeps_a_move(
            b,
            moves,
            i + 1,
            depth,
            maximizing,
            reply.score,
            moves[i],
            reply.table,
            reply.context,
            ply,
        );
    } else {
        lemma_root_scan_finds_a_move(
            b,
            moves,
            i + 1,
            depth,
            maximizing,
            reply.table,
            reply.context,
            ply,
        );
    }
}

/// The moves of a position stay what they are when they are ordered: none
/// of them is the null move.
pub proof fn lemma_ordered_roots_not_null(b: Board, ctx: ContextView)
    ensures
        none_is_null(legal_moves_of(b)),
        none_is_null(ordered(legal_moves_of(b), score_key(b, ctx))),
{
    let roots = legal_moves_of(b);
    let sorted = ordered(roots, score_key(b, ctx));
    assert forall|k: int| 0 <= k < roots.len() implies !(#[trigger] roots[k]).is_null() by {
        lemma_legal_moves_not_null(b, k);
    }
    lemma_ordered_is_falling_permutation(roots, score_key(b, ctx));
    assert forall|k: int| 0 <= k < sorted.len() implies !(#[trigger] sorted[k]).is_null() by {
        lemma_same_members(roots, sorted, k);
        let j = choose|j: int| 0 <= j < roots.len() && roots[j] == sorted[k];
        lemma_legal_moves_not_null(b, j);
    }
}

/// Deepening that starts from a move ends with a move.
pub proof fn lemma_deepen_keeps_a_move(
    b: Board,
    depth: int,
    max_depth: u8,
    best: Move,
    table: Map<u64, TTEntry>,
    ctx: ContextView,
    ply: u16,
)
    requires
        !best.is_null(),
    ensures
        !deepen(b, legal_moves_of(b), depth, max_depth, best, table, ctx, ply).best.is_null(),
    decreases max_depth + 1 - depth,
{
    if !(depth < 1 || depth > max_depth) {
        let pass = root_scan(
            b,
            ordered(legal_moves_of(b), score_key(b, ctx)),
            0,
            depth as u8,
            white_to_move(b),
            worst_score(white_to_move(b)),
            Move { raw: 0 },
            table,
            ctx,
            ply,
        );
        if !pass.best.is_null() {
            lemma_deepen_keeps_a_move(
                b,
                depth + 1,
                max_depth,
                pass.best,
                pass.table,
                pass.context,
                ply,
            );
        }
    }
}

/// A move is chosen whenever, at depth 1, some reply to a root move
/// improves on the worst score.
pub proof fn lemma_best_move_found(b: Board, max_depth: u8, ctx: ContextView)
    requires
        max_depth >= 1,
        some_reply_improves(
            b,
            ordered(legal_moves_of(b), score_key(b, ctx)),
            0,
            1,
            white_to_move(b),
            Map::<u64, TTEntry>::empty(),
            ctx,
            position_ply(b),
        ),
    ensures
        !best_move_spec(b, max_depth, ctx).best.is_null(),
{
    let sorted = ordered(legal_moves_of(b), score_key(b, ctx));
    let ply = position_ply(b);
    lemma_ordered_roots_not_null(b, ctx);
    lemma_ordered_is_falling_permutation(legal_moves_of(b), score_key(b, ctx));
    lemma_root_scan_finds_a_move(
        b,
        sorted,
        0,
        1,
        white_to_move(b),
        Map::<u64, TTEntry>::empty(),
        ctx,
        ply,
    );
    let pass = root_scan(
        b,
        sorted,
        0,
        1,
        white_to_move(b),
        worst_score(white_to_move(b)),
        Move { raw: 0 },
        Map::<u64, TTEntry>::empty(),
        ctx,
        ply,
    );
    lemma_deepen_keeps_a_move(b, 2, max_depth, pass.best, pass.table, pass.context, ply);
}

/// Deepening over a single root move, from that move, ends with it.
pub proof fn lemma_deepen_over_one_move(
    b: Board,
    m: Move,
    depth: int,
    max_depth: u8,
    table: Map<u64, TTEntry>,
    ctx: ContextView,
    ply: u16,
)
    requires
        !m.is_null(),
    ensures
        deepen(b, seq![m], depth, max_depth, m, table, ctx, ply).best == m,
    decreases max_depth + 1 - depth,
{
    if !(depth < 1 || depth > max_depth) {
        let sorted = ordered(seq![m], score_key(b, ctx));
        assert(sorted =~= seq![m]) by {
            reveal_with_fuel(ordered, 2);
            assert(seq![m].drop_last() =~= Seq::<Move>::empty());
        }
        let pass = root_scan(
            b,
            sorted,
            0,
            depth as u8,
            white_to_move(b),
            worst_score(white_to_move(b)),
            Move { raw: 0 },
            table,
            ctx,
            ply,
        );
        assert(pass.best.is_null() || pass.best == m) by {
            reveal_with_fuel(root_scan, 3);
        }
        if !pass.best.is_null() {
            lemma_deepen_over_one_move(b, m, depth + 1, max_depth, pass.table, pass.context, ply);
        }
    }
}

/// A position with a single legal move, after which the other side is to
/// move and is checkmated, gets that move at every depth from 1 on.
pub proof fn lemma_forced_mating_move(b: Board, m: Move, max_depth: u8, ctx: ContextView)
    requires
        max_depth >= 1,
        legal_moves_of(b) == seq![m],
        checkmate(after_move(b, m)),
        white_to_move(after_move(b, m)) == !white_to_move(b),
    ensures
        best_move_spec(b, max_depth, ctx).best == m,
{
    let ply = position_ply(b);
    let empty = Map::<u64, TTEntry>::empty();
    assert(legal_moves_of(b)[0] == m);
    lemma_legal_moves_not_null(b, 0);
    let sorted = ordered(seq![m], score_key(b, ctx));
    assert(sorted =~= seq![m]) by {
        reveal_with_fuel(ordered, 2);
        assert(seq![m].drop_last() =~= Seq::<Move>::empty());
    }
    let reply = minimax_spec(
        after_move(b, m),
        0,
        (-INFINITY) as i32,
        INFINITY,
        !white_to_move(b),
        empty,
        ctx,
        next_ply(ply),
    );
    assert(reply.score == mate_value_of(!white_to_move(b)));
    let pass = root_scan(
        b,
        sorted,
        0,
        1,
        white_to_move(b),
        worst_score(white_to_move(b)),
        Move { raw: 0 },
        empty,
        ctx,
        ply,
    );
    assert(pass.best == m) by {
        reveal_with_fuel(root_scan, 3);
    }
    lemma_deepen_over_one_move(b, m, 2, max_depth, pass.table, pass.context, ply);
}

fn copy_of(moves: &Vec<Move>) -> (copy: Vec<Move>)
    ensures
        copy@ == moves@,
{
    let mut copy: Vec<Move> = Vec::new();
    let mut i: usize = 0;
    while i < moves.len()
        invariant
            i <= moves.len(),
            copy@ == moves@.take(i as int),
        decreases moves.len() - i,
    {
        copy.push(moves[i]);
        i += 1;
    }
    proof {
        assert(moves@.take(moves.len() as int) == moves@);
    }
    copy
}

/// Chooses a move for the side to move by searching to depths 1, 2, and so
/// on up to `max_depth`, with a transposition table of its own.
///
/// The board is handed back as it came. The move is the null move or one of
/// the position's legal moves; it is the null move if there is no legal move
/// or `max_depth` is 0, and a legal move in every other case. Where the
/// position has a single legal move and that move mates, it is that move.
pub fn get_best_move(board: &mut Board, max_depth: u8, ctx: &mut SearchContext) -> (best: Move)
    requires
        old(ctx)@.wf(),
    ensures
        max_depth >= 1 && some_reply_improves(
            *old(board),
            ordered(legal_moves_of(*old(board)), score_key(*old(board), old(ctx)@)),
            0,
            1,
            white_to_move(*old(board)),
            Map::<u64, TTEntry>::empty(),
            old(ctx)@,
            position_ply(*old(board)),
        ) ==> !best.is_null(),
        max_depth >= 1 && legal_moves_of(*old(board)).len() > 0 ==> !best.is_null(),
        max_depth >= 1 && legal_moves_of(*old(board)).len() == 1 && checkmate(
            after_move(*old(board), legal_moves_of(*old(board))[0]),
        ) ==> best == legal_moves_of(*old(board))[0],
        *final(board) == *old(board),
        final(ctx)@.wf(),
        old(ctx)@.kept_by(final(ctx)@),
        (Decision { best, context: final(ctx)@ }) == best_move_spec(
            *old(board),
            max_depth,
            old(ctx)@,
        ),
        best.is_null() || legal_moves_of(*old(board)).contains(best),
        legal_moves_of(*old(board)).len() == 0 || max_depth == 0 ==> best.is_null(),
{
    let ghost b0 = *board;
    let ghost ctx0 = ctx@;
    let mut tt = CustomTT::new();
    let maximizing: bool = white_moves(board);
    let mut best_move: Move = Move::null();
    let moves = legal_moves(board);
    if moves.len() == 0 {
        return best_move;
    }
    let ply: u16 = ply_of(board);
    let next: u16 = ply_after(ply);
    let ghost whole = best_move_spec(b0, max_depth, ctx@);
    let ghost found = max_depth >= 1 && some_reply_improves(
        b0,
        ordered(moves@, score_key(b0, ctx0)),
        0,
        1,
        maximizing,
        Map::<u64, TTEntry>::empty(),
        ctx0,
        ply,
    );
    proof {
        if found {
            lemma_best_move_found(b0, max_depth, ctx0);
        }
    }
    let mut depth: u8 = 0;
    while depth < max_depth
        invariant
            depth <= max_depth,
            *board == b0,
            b0 == *old(board),
            whole == best_move_spec(*old(board), max_depth, old(ctx)@),
            ctx@.wf(),
            ctx0.wf(),
            ctx0 == old(ctx)@,
            ctx0.kept_by(ctx@),
            maximizing == white_to_move(b0),
            next == next_ply(ply),
            moves@ == legal_moves_of(b0),
            forall|k: int| 0 <= k < moves.len() ==> playable(b0, #[trigger] moves[k]),
            best_move.is_null() || moves@.contains(best_move),
            depth == 0 ==> best_move.is_null(),
            deepen(b0, moves@, depth + 1, max_depth, best_move, tt@, ctx@, ply) == whole,
            ply == position_ply(b0),
            moves.len() > 0,
            crowned(b0),
            depth == 0 ==> tt@ == Map::<u64, TTEntry>::empty() && ctx@ == ctx0,
            depth >= 1 ==> found,
            found == (max_depth >= 1 && some_reply_improves(
                b0,
                ordered(moves@, score_key(b0, ctx0)),
                0,
                1,
                maximizing,
                Map::<u64, TTEntry>::empty(),
                ctx0,
                ply,
            )),
            found ==> !whole.best.is_null(),
            depth >= 1 ==> forall|k: int|
                0 <= k < moves.len() ==> white_to_move(after_move(b0, #[trigger] moves[k]))
                    == !maximizing,
        decreases max_depth - depth,
    {
        depth += 1;
        let mut current_best: Move = Move::null();
        let mut current_value: i32 = worst(maximizing);
        let mut sorted = copy_of(&moves);
        order_moves(&mut sorted, board, ctx);
        let ghost round = root_scan(
            b0,
            sorted@,
            0,
            depth,
            maximizing,
            current_value,
            current_best,
            tt@,
            ctx@,
            ply,
        );
        let mut i: usize = 0;
        while i < sorted.len()
            invariant
                i <= sorted.len(),
                depth > 0,
                *board == b0,
                ctx@.wf(),
                ctx0.wf(),
                ctx0.kept_by(ctx@),
                next == next_ply(ply),
                forall|k: int| 0 <= k < sorted.len() ==> moves@.contains(#[trigger] sorted[k]),
                forall|k: int| 0 <= k < moves.len() ==> playable(b0, #[trigger] moves[k]),
                forall|k: int|
                    0 <= k < i ==> white_to_move(after_move(b0, #[trigger] sorted[k]))
                        == !maximizing,
                maximizing == white_to_move(b0),
                crowned(b0),
                sorted.len() > 0,
                ply == position_ply(b0),
                found == (max_depth >= 1 && some_reply_improves(
                    b0,
                    ordered(moves@, score_key(b0, ctx0)),
                    0,
                    1,
                    maximizing,
                    Map::<u64, TTEntry>::empty(),
                    ctx0,
                    ply,
                )),
                depth <= max_depth,
                depth == 1 && i == 0 ==> tt@ == Map::<u64, TTEntry>::empty() && ctx@ == ctx0
                    && sorted@ == ordered(moves@, score_key(b0, ctx0)),
                depth >= 2 || i >= 1 ==> found,
                current_best.is_null() || moves@.contains(current_best),
                root_scan(
                    b0,
                    sorted@,
                    i as int,
                    depth,
                    maximizing,
                    current_value,
                    current_best,
                    tt@,
                    ctx@,
                    ply,
                ) == round,
            decreases sorted.len() - i,
        {
            let m: Move = sorted[i];
            let ghost before = ctx@;
            assert(moves@.contains(m));
            apply_move(board, m);
            let value: i32 = minimax_at(
                board,
                depth - 1,
                -INFINITY,
                INFINITY,
                !maximizing,
                &mut tt,
                ctx,
                next,
            );
            proof {
                lemma_kept_by_chains(ctx0, before, ctx@);
                if depth == 1 && i == 0 {
                    assert(improves_on(maximizing, value, worst_score(maximizing)));
                    assert(found);
                }
            }
            undo_move(board);
            if improves(maximizing, value, current_value) {
                current_value = value;
                current_best = m;
            }
            i += 1;
        }
        proof {
            assert forall|k: int| 0 <= k < moves.len() implies white_to_move(
                after_move(b0, #[trigger] moves[k]),
            ) == !maximizing by {
                lemma_same_members(sorted@, moves@, k);
                let j = choose|j: int| 0 <= j < sorted.len() && sorted[j] == moves[k];
                assert(white_to_move(after_move(b0, sorted[j])) == !maximizing);
            }
            if moves.len() == 1 && checkmate(after_move(b0, moves[0])) {
                assert(moves@ =~= seq![moves[0]]);
                lemma_forced_mating_move(b0, moves[0], max_depth, ctx0);
            }
        }
        if current_best.is_null() {
            return best_move;
        }
        best_move = current_best;
    }
    proof {
        if max_depth >= 1 && moves.len() == 1 && checkmate(after_move(b0, moves[0])) {
            assert(moves@ =~= seq![moves[0]]);
            lemma_forced_mating_move(b0, moves[0], max_depth, ctx0);
        }
    }
    best_move
}

} // verus!
