//! The decisions of a game played by the engine against itself: when it is
//! over and who has won, what to do next, and how far an opening line can
//! be replayed. Whoever runs the game shows the board and the moves.

use crate::moves::Move;
use crate::notation::{decode_spec, san_to_bitmove};
use crate::ordering::{ContextView, SearchContext};
use crate::position::{
    after_move, apply_move, checkmate, is_checkmate, is_playable, is_stalemate, legal_moves_of,
    listed_moves_of, stalemate, white_moves, white_to_move,
};
use crate::search::{best_move_spec, get_best_move};
use pleco::Board;
use vstd::prelude::*;

verus! {

/// How a game stands.
#[derive(Clone, Copy, PartialEq, Eq, Structural, Debug)]
pub enum Verdict {
    /// Black is checkmated.
    WhiteWins,
    /// White is checkmated.
    BlackWins,
    /// The side to move is not in check and has no move, or fifty half-moves
    /// have gone by without a capture or a pawn move.
    Draw,
    /// Neither.
    Unfinished,
}

/// What to do next in a game.
#[derive(Clone, Copy, PartialEq, Eq, Structural, Debug)]
pub enum Step {
    /// Play this move.
    Play(Move),
    /// Stop: the game is over, or the search found no move.
    Stop(Verdict),
}

/// How a game stands, given whether the side to move is checkmated,
/// whether the game is drawn, and whose move it is.
pub open spec fn verdict_from(mate: bool, stale: bool, white_to_move: bool) -> Verdict {
    if mate {
        if white_to_move {
            Verdict::BlackWins
        } else {
            Verdict::WhiteWins
        }
    } else if stale {
        Verdict::Draw
    } else {
        Verdict::Unfinished
    }
}

/// How the game on `b` stands.
pub open spec fn verdict_of(b: Board) -> Verdict {
    verdict_from(checkmate(b), stalemate(b), white_to_move(b))
}

/// The next step on `b`: to stop with the verdict if the game is over, and
/// else to play the move that a search to `max_depth` chooses, or to stop
/// if it chooses none.
pub open spec fn step_of(b: Board, max_depth: u8, ctx: ContextView) -> Step {
    if checkmate(b) || stalemate(b) {
        Step::Stop(verdict_of(b))
    } else if best_move_spec(b, max_depth, ctx).best.is_null() {
        Step::Stop(Verdict::Unfinished)
    } else {
        Step::Play(best_move_spec(b, max_depth, ctx).best)
    }
}

/// The tables after the next step: untouched if the game is over, else as
/// the search leaves them.
pub open spec fn context_after_step(b: Board, max_depth: u8, ctx: ContextView) -> ContextView {
    if checkmate(b) || stalemate(b) {
        ctx
    } else {
        best_move_spec(b, max_depth, ctx).context
    }
}

/// Says how a game stands, given whether the side to move is checkmated,
/// whether the game is drawn, and whose move it is.
pub fn judge(mate: bool, stale: bool, white_to_move: bool) -> (v: Verdict)
    ensures
        v == verdict_from(mate, stale, white_to_move),
{
    if mate {
        if white_to_move {
            Verdict::BlackWins
        } else {
            Verdict::WhiteWins
        }
    } else if stale {
        Verdict::Draw
    } else {
        Verdict::Unfinished
    }
}

/// Says how the game on the board stands.
pub fn verdict(board: &Board) -> (v: Verdict)
    ensures
        v == verdict_of(*board),
{
    judge(is_checkmate(board), is_stalemate(board), white_moves(board))
}

/// Decides the next step of a game. A game that is over is not searched.
pub fn next_step(board: &mut Board, max_depth: u8, ctx: &mut SearchContext) -> (step: Step)
    requires
        old(ctx)@.wf(),
    ensures
        *final(board) == *old(board),
        final(ctx)@.wf(),
        old(ctx)@.kept_by(final(ctx)@),
        step == step_of(*old(board), max_depth, old(ctx)@),
        final(ctx)@ == context_after_step(*old(board), max_depth, old(ctx)@),
        step matches Step::Play(m) ==> legal_moves_of(*old(board)).contains(m),
{
    if is_checkmate(board) || is_stalemate(board) {
        return Step::Stop(verdict(board));
    }
    let best = get_best_move(board, max_depth, ctx);
    if best.is_null() {
        Step::Stop(Verdict::Unfinished)
    } else {
        Step::Play(best)
    }
}

/// Plays `m` if it is a legal move of the position, and says whether it
/// did. The board is left alone by any other move.
pub fn play_move(board: &mut Board, m: Move) -> (played: bool)
    ensures
        played == (listed_moves_of(*old(board)).contains(m) || legal_moves_of(
            *old(board),
        ).contains(m)),
        *final(board) == if played {
            after_move(*old(board), m)
        } else {
            *old(board)
        },
{
    if is_playable(board, m) {
        apply_move(board, m);
        true
    } else {
        false
    }
}

/// What replaying a line gives: the board reached and the number of moves
/// played.
pub struct Replay {
    pub board: Board,
    pub played: nat,
}

/// The replay of the moves `line` from the `i`-th on, starting on `b`: each
/// text in turn is decoded and its move played; the first text that stands
/// for no move ends the replay.
pub open spec fn replay_of(b: Board, line: Seq<Seq<char>>, i: int) -> Replay
    decreases line.len() - i,
{
    if i < 0 || i >= line.len() {
        Replay { board: b, played: 0 }
    } else {
        match decode_spec(b, line[i]) {
            Some(m) => {
                let rest = replay_of(after_move(b, m), line, i + 1);
                Replay { board: rest.board, played: rest.played + 1 }
            },
            None => Replay { board: b, played: 0 },
        }
    }
}

/// Replays an opening line on the board as far as its moves can be read,
/// and returns how many were played.
pub fn replay_opening(board: &mut Board, line: &Vec<String>) -> (played: usize)
    ensures
        (Replay { board: *final(board), played: played as nat }) == replay_of(
            *old(board),
            crate::book::texts_of(line@),
            0,
        ),
        played <= line.len(),
{
    let ghost texts = crate::book::texts_of(line@);
    let ghost whole = replay_of(*board, texts, 0);
    let mut i: usize = 0;
    while i < line.len()
        invariant
            i <= line.len(),
            texts == crate::book::texts_of(line@),
            whole == replay_of(*old(board), texts, 0),
            (Replay {
                board: replay_of(*board, texts, i as int).board,
                played: (replay_of(*board, texts, i as int).played + i) as nat,
            }) == whole,
        decreases line.len() - i,
    {
        match san_to_bitmove(&*board, line[i].as_str()) {
            Ok(m) => {
                apply_move(board, m);
            },
            Err(_) => {
                return i;
            },
        }
        i += 1;
    }
    i
}

} // verus!
