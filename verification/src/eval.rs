//! Static evaluation: material plus piece-square bonuses, from the point of
//! view of the side to move.

use crate::position::{
    contents, crowned, is_black, kind_of, piece_on, squares_of, white_moves, white_to_move,
};
use crate::survey::kings_in;
use pleco::Board;
use vstd::prelude::*;

verus! {

pub const PAWN: u8 = 1;

pub const KNIGHT: u8 = 2;

pub const BISHOP: u8 = 3;

pub const ROOK: u8 = 4;

pub const QUEEN: u8 = 5;

pub const KING: u8 = 6;

pub const PSQT_PAWN_MG: [i16; 64] = [
    0, 0, 0, 0, 0, 0, 0, 0,
    50, 50, 50, 50, 50, 50, 50, 50,
    10, 10, 20, 30, 30, 20, 10, 10,
    5, 5, 10, 25, 25, 10, 5, 5,
    0, 0, 0, 20, 20, 0, 0, 0,
    5, -5, -10, 0, 0, -10, -5, 5,
    5, 10, 10, -20, -20, 10, 10, 5,
    0, 0, 0, 0, 0, 0, 0, 0,
];

pub const PSQT_KNIGHT_MG: [i16; 64] = [
    -50, -40, -30, -30, -30, -30, -40, -50,
    -40, -20, 0, 5, 5, 0, -20, -40,
    -30, 5, 10, 15, 15, 10, 5, -30,
    -30, 0, 15, 20, 20, 15, 0, -30,
    -30, 5, 15, 20, 20, 15, 5, -30,
    -30, 0, 10, 15, 15, 10, 0, -30,
    -40, -20, 0, 0, 0, 0, -20, -40,
    -50, -40, -30, -30, -30, -30, -40, -50,
];

pub const PSQT_BISHOP_MG: [i16; 64] = [
    -20, -10, -10, -10, -10, -10, -10, -20,
    -10, 5, 0, 0, 0, 0, 5, -10,
    -10, 10, 10, 10, 10, 10, 10, -10,
    -10, 0, 10, 10, 10, 10, 0, -10,
    -10, 5, 5, 10, 10, 5, 5, -10,
    -10, 0, 5, 10, 10, 5, 0, -10,
    -10, 0, 0, 0, 0, 0, 0, -10,
    -20, -10, -10, -10, -10, -10, -10, -20,
];

pub const PSQT_ROOK_MG: [i16; 64] = [
    0, 0, 0, 5, 5, 0, 0, 0,
    -5, 0, 0, 0, 0, 0, 0, -5,
    -5, 0, 0, 0, 0, 0, 0, -5,
    -5, 0, 0, 0, 0, 0, 0, -5,
    -5, 0, 0, 0, 0, 0, 0, -5,
    -5, 0, 0, 0, 0, 0, 0, -5,
    5, 10, 10, 10, 10, 10, 10, 5,
    0, 0, 0, 0, 0, 0, 0, 0,
];

pub const PSQT_QUEEN_MG: [i16; 64] = [
    -20, -10, -10, -5, -5, -10, -10, -20,
    -10, 0, 5, 0, 0, 0, 0, -10,
    -10, 5, 5, 5, 5, 5, 0, -10,
    0, 0, 5, 5, 5, 5, 0, -5,
    -5, 0, 5, 5, 5, 5, 0, -5,
    -10, 0, 5, 5, 5, 5, 0, -10,
    -10, 0, 0, 0, 0, 0, 0, -10,
    -20, -10, -10, -5, -5, -10, -10, -20,
];

pub const PSQT_KING_MG: [i16; 64] = [
    -30, -40, -40, -50, -50, -40, -40, -30,
    -30, -40, -40, -50, -50, -40, -40, -30,
    -30, -40, -40, -50, -50, -40, -40, -30,
    -30, -40, -40, -50, -50, -40, -40, -30,
    -20, -30, -30, -40, -40, -30, -30, -20,
    -10, -20, -20, -20, -20, -20, -20, -10,
    20, 20, 0, 0, 0, 0, 20, 20,
    20, 30, 10, 0, 0, 10, 30, 20,
];

/// The material value of a kind of piece; 0 for no piece.
pub open spec fn material_of(kind: u8) -> int {
    if kind == PAWN {
        100
    } else if kind == KNIGHT {
        320
    } else if kind == BISHOP {
        330
    } else if kind == ROOK {
        500
    } else if kind == QUEEN {
        900
    } else if kind == KING {
        20000
    } else {
        0
    }
}

/// The bonus for a piece of `kind` at `index` of its table.
pub open spec fn placement_of(kind: u8, index: int) -> int {
    if kind == PAWN {
        PSQT_PAWN_MG[index] as int
    } else if kind == KNIGHT {
        PSQT_KNIGHT_MG[index] as int
    } else if kind == BISHOP {
        PSQT_BISHOP_MG[index] as int
    } else if kind == ROOK {
        PSQT_ROOK_MG[index] as int
    } else if kind == QUEEN {
        PSQT_QUEEN_MG[index] as int
    } else if kind == KING {
        PSQT_KING_MG[index] as int
    } else {
        0
    }
}

/// What the piece `code` on square `sq` adds to White's balance: material
/// plus placement, with the table read upside down and the sum subtracted
/// for a black piece.
pub open spec fn square_value(code: u8, sq: int) -> int {
    if kind_of(code) == 0 {
        0
    } else if is_black(code) {
        -(material_of(kind_of(code)) + placement_of(kind_of(code), 63 - sq))
    } else {
        material_of(kind_of(code)) + placement_of(kind_of(code), sq)
    }
}

/// White's balance over the first `n` squares.
pub open spec fn balance(squares: Seq<u8>, n: nat) -> int
    decreases n,
{
    if n == 0 {
        0
    } else {
        balance(squares, (n - 1) as nat) + square_value(squares[n - 1], n - 1)
    }
}

/// The evaluation of a board with the given 64 squares: White's balance if
/// White is to move, its negation if Black is.
pub open spec fn score_of(squares: Seq<u8>, white: bool) -> int {
    if white {
        balance(squares, 64)
    } else {
        -balance(squares, 64)
    }
}

/// The static evaluation of a position.
pub open spec fn evaluation(b: Board) -> int {
    score_of(contents(b), white_to_move(b))
}

/// No square adds more than a king and the largest table entry.
pub proof fn lemma_square_value_bounded(code: u8, sq: int)
    requires
        0 <= sq < 64,
    ensures
        -52768 <= square_value(code, sq) <= 52768,
{
}

/// No table entry is beyond 50 either way.
pub proof fn lemma_placement_bounded(kind: u8, index: int)
    requires
        0 <= index < 64,
    ensures
        -50 <= placement_of(kind, index) <= 50,
{
}

/// A king adds its 20000 and its table entry; any other piece adds at most
/// a queen and the largest table entry.
pub proof fn lemma_square_value_by_kind(code: u8, sq: int)
    requires
        0 <= sq < 64,
    ensures
        kind_of(code) == 6 && !is_black(code) ==> 19950 <= square_value(code, sq) <= 20050,
        kind_of(code) == 6 && is_black(code) ==> -20050 <= square_value(code, sq) <= -19950,
        kind_of(code) != 6 ==> -950 <= square_value(code, sq) <= 950,
{
    lemma_placement_bounded(kind_of(code), sq);
    lemma_placement_bounded(kind_of(code), 63 - sq);
}

/// The balance, bounded by the number of squares and of kings.
pub proof fn lemma_balance_by_kings(squares: Seq<u8>, n: nat)
    requires
        n <= 64,
    ensures
        balance(squares, n) <= 950 * n + 20050 * kings_in(squares, n, false) - 19950 * kings_in(
            squares,
            n,
            true,
        ),
        balance(squares, n) >= -950 * n + 19950 * kings_in(squares, n, false) - 20050 * kings_in(
            squares,
            n,
            true,
        ),
    decreases n,
{
    if n > 0 {
        lemma_balance_by_kings(squares, (n - 1) as nat);
        lemma_square_value_by_kind(squares[n - 1], n - 1);
    }
}

/// With one king on each side the evaluation stays far inside the score
/// of a won game.
pub proof fn lemma_crowned_evaluation(b: Board)
    requires
        crowned(b),
    ensures
        -100000 < evaluation(b) < 100000,
{
    lemma_balance_by_kings(contents(b), 64);
}

/// The evaluation depends on nothing but what stands on the squares and
/// whose move it is: two boards that agree on both have the same score.
pub proof fn lemma_evaluation_is_a_function_of_contents(a: Board, b: Board)
    requires
        forall|sq: u8| sq < 64 ==> piece_on(a, sq) == piece_on(b, sq),
        white_to_move(a) == white_to_move(b),
    ensures
        evaluation(a) == evaluation(b),
{
    assert(contents(a) =~= contents(b));
}

/// The material value of a kind of piece.
pub fn piece_value(kind: u8) -> (value: i32)
    ensures
        value == material_of(kind),
{
    if kind == PAWN {
        100
    } else if kind == KNIGHT {
        320
    } else if kind == BISHOP {
        330
    } else if kind == ROOK {
        500
    } else if kind == QUEEN {
        900
    } else if kind == KING {
        20000
    } else {
        0
    }
}

/// The bonus for a piece of `kind` at `index` of its table.
pub fn placement(kind: u8, index: usize) -> (bonus: i16)
    requires
        index < 64,
    ensures
        bonus == placement_of(kind, index as int),
{
    if kind == PAWN {
        PSQT_PAWN_MG[index]
    } else if kind == KNIGHT {
        PSQT_KNIGHT_MG[index]
    } else if kind == BISHOP {
        PSQT_BISHOP_MG[index]
    } else if kind == ROOK {
        PSQT_ROOK_MG[index]
    } else if kind == QUEEN {
        PSQT_QUEEN_MG[index]
    } else if kind == KING {
        PSQT_KING_MG[index]
    } else {
        0
    }
}

/// Scores 64 squares, given as piece codes from a1 to h8, for the side to
/// move.
pub fn score_squares(squares: &Vec<u8>, white: bool) -> (score: i32)
    requires
        squares.len() == 64,
    ensures
        score == score_of(squares@, white),
{
    let mut total: i32 = 0;
    let mut sq: usize = 0;
    while sq < 64
        invariant
            sq <= 64,
            squares.len() == 64,
            total == balance(squares@, sq as nat),
            -52768 * sq <= total <= 52768 * sq,
        decreases 64 - sq,
    {
        let code: u8 = squares[sq];
        let kind: u8 = code % 8;
        proof {
            lemma_square_value_bounded(code, sq as int);
        }
        if kind != 0 {
            if code >= 8 {
                total = total - (piece_value(kind) + placement(kind, 63 - sq) as i32);
            } else {
                total = total + (piece_value(kind) + placement(kind, sq) as i32);
            }
        }
        sq += 1;
    }
    if white {
        total
    } else {
        -total
    }
}

/// Scores the position for the side to move.
pub fn evaluate_board(board: &Board) -> (score: i32)
    ensures
        score == evaluation(*board),
{
    let squares = squares_of(board);
    score_squares(&squares, white_moves(board))
}

} // verus!
