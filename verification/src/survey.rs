//! A look over the squares of a position, on plain values: whether both
//! kings are there, whether the castling rights and the en-passant square
//! agree with the pieces, and whether the moves of the side to move are
//! sure to fit into the move generator's list.

use crate::position::{is_black, kind_of};
use vstd::prelude::*;

verus! {

/// The number of moves that the generator's list is sure to hold.
pub const MOVE_LIST_ROOM: u16 = 248;

/// The castling right of White on the king's side, as a bit of the rights.
pub const WHITE_SHORT: u8 = 8;

/// The castling right of White on the queen's side.
pub const WHITE_LONG: u8 = 4;

/// The castling right of Black on the king's side.
pub const BLACK_SHORT: u8 = 2;

/// The castling right of Black on the queen's side.
pub const BLACK_LONG: u8 = 1;

/// The value that stands for no en-passant square.
pub const NO_SQUARE: u8 = 64;

/// Whether file `f` and rank `r` are on the board.
pub open spec fn on_board(f: int, r: int) -> bool {
    0 <= f < 8 && 0 <= r < 8
}

/// Whether the piece `code` belongs to the side that is to move.
pub open spec fn is_own(code: u8, white: bool) -> bool {
    kind_of(code) != 0 && is_black(code) != white
}

/// The number of squares that a piece on file `f` and rank `r` can go to
/// along the line (`df`, `dr`), at most `left` steps far: the empty squares
/// up to the first piece, and that piece's square if it is not the mover's.
pub open spec fn line_reach(
    squares: Seq<u8>,
    white: bool,
    f: int,
    r: int,
    df: int,
    dr: int,
    left: nat,
) -> nat
    decreases left,
{
    if left == 0 || !on_board(f + df, r + dr) {
        0
    } else if kind_of(squares[(r + dr) * 8 + f + df]) != 0 {
        if is_own(squares[(r + dr) * 8 + f + df], white) {
            0
        } else {
            1
        }
    } else {
        1 + line_reach(squares, white, f + df, r + dr, df, dr, (left - 1) as nat)
    }
}

/// 1 if the square one step (`df`, `dr`) away is on the board and not held
/// by the mover, else 0.
pub open spec fn step_reach(
    squares: Seq<u8>,
    white: bool,
    f: int,
    r: int,
    df: int,
    dr: int,
) -> nat {
    if on_board(f + df, r + dr) && !is_own(squares[(r + dr) * 8 + f + df], white) {
        1
    } else {
        0
    }
}

pub open spec fn straight_reach(squares: Seq<u8>, white: bool, f: int, r: int) -> nat {
    line_reach(squares, white, f, r, 1, 0, 7) + line_reach(squares, white, f, r, -1, 0, 7)
        + line_reach(squares, white, f, r, 0, 1, 7) + line_reach(squares, white, f, r, 0, -1, 7)
}

pub open spec fn diagonal_reach(squares: Seq<u8>, white: bool, f: int, r: int) -> nat {
    line_reach(squares, white, f, r, 1, 1, 7) + line_reach(squares, white, f, r, -1, 1, 7)
        + line_reach(squares, white, f, r, 1, -1, 7) + line_reach(squares, white, f, r, -1, -1, 7)
}

pub open spec fn knight_reach(squares: Seq<u8>, white: bool, f: int, r: int) -> nat {
    step_reach(squares, white, f, r, 1, 2) + step_reach(squares, white, f, r, 2, 1) + step_reach(
        squares,
        white,
        f,
        r,
        2,
        -1,
    ) + step_reach(squares, white, f, r, 1, -2) + step_reach(squares, white, f, r, -1, -2)
        + step_reach(squares, white, f, r, -2, -1) + step_reach(squares, white, f, r, -2, 1)
        + step_reach(squares, white, f, r, -1, 2)
}

/// The steps of a king, and two more for castling.
pub open spec fn king_reach(squares: Seq<u8>, white: bool, f: int, r: int) -> nat {
    step_reach(squares, white, f, r, 1, 0) + step_reach(squares, white, f, r, 1, 1) + step_reach(
        squares,
        white,
        f,
        r,
        0,
        1,
    ) + step_reach(squares, white, f, r, -1, 1) + step_reach(squares, white, f, r, -1, 0)
        + step_reach(squares, white, f, r, -1, -1) + step_reach(squares, white, f, r, 0, -1)
        + step_reach(squares, white, f, r, 1, -1) + 2
}

/// 1 if a pawn can take on the square one step (`df`, `dr`) away: the
/// square holds a piece of the other side, or it is the en-passant square.
pub open spec fn take_reach(
    squares: Seq<u8>,
    white: bool,
    ep: u8,
    f: int,
    r: int,
    df: int,
    dr: int,
) -> nat {
    if on_board(f + df, r + dr) && ((kind_of(squares[(r + dr) * 8 + f + df]) != 0 && !is_own(
        squares[(r + dr) * 8 + f + df],
        white,
    )) || (r + dr) * 8 + f + df == ep) {
        1
    } else {
        0
    }
}

/// 1 if the square one step (`df`, `dr`) away is on the board and empty.
pub open spec fn free_reach(squares: Seq<u8>, f: int, r: int, df: int, dr: int) -> nat {
    if on_board(f + df, r + dr) && kind_of(squares[(r + dr) * 8 + f + df]) == 0 {
        1
    } else {
        0
    }
}

/// The moves of a pawn: a step ahead onto an empty square and a capture to
/// either side, each in four ways where the pawn promotes, and two steps
/// ahead from its first rank over empty squares.
pub open spec fn pawn_reach(squares: Seq<u8>, white: bool, ep: u8, f: int, r: int) -> nat {
    let dr: int = if white {
        1
    } else {
        -1
    };
    let ways: nat = if (white && r == 6) || (!white && r == 1) {
        4
    } else {
        1
    };
    let twice: nat = if ((white && r == 1) || (!white && r == 6)) && free_reach(
        squares,
        f,
        r,
        0,
        dr,
    ) == 1 {
        free_reach(squares, f, r + dr, 0, dr)
    } else {
        0
    };
    ways * (free_reach(squares, f, r, 0, dr) + take_reach(squares, white, ep, f, r, -1, dr)
        + take_reach(squares, white, ep, f, r, 1, dr)) + twice
}

/// An upper bound on the moves of the piece on square `sq`, if it is the
/// mover's.
pub open spec fn piece_reach(squares: Seq<u8>, white: bool, ep: u8, sq: int) -> nat {
    let kind = kind_of(squares[sq]);
    let f = sq % 8;
    let r = sq / 8;
    if !is_own(squares[sq], white) {
        0
    } else if kind == 1 {
        pawn_reach(squares, white, ep, f, r)
    } else if kind == 2 {
        knight_reach(squares, white, f, r)
    } else if kind == 3 {
        diagonal_reach(squares, white, f, r)
    } else if kind == 4 {
        straight_reach(squares, white, f, r)
    } else if kind == 5 {
        straight_reach(squares, white, f, r) + diagonal_reach(squares, white, f, r)
    } else if kind == 6 {
        king_reach(squares, white, f, r)
    } else {
        0
    }
}

/// An upper bound on the moves of the mover's pieces on the first `n`
/// squares.
pub open spec fn reach_in(squares: Seq<u8>, white: bool, ep: u8, n: nat) -> nat
    decreases n,
{
    if n == 0 {
        0
    } else {
        reach_in(squares, white, ep, (n - 1) as nat) + piece_reach(squares, white, ep, n - 1)
    }
}

/// The number of kings of one colour on the first `n` squares.
pub open spec fn kings_in(squares: Seq<u8>, n: nat, black: bool) -> nat
    decreases n,
{
    if n == 0 {
        0
    } else {
        kings_in(squares, (n - 1) as nat, black) + if kind_of(squares[n - 1]) == 6 && is_black(
            squares[n - 1],
        ) == black {
            1nat
        } else {
            0nat
        }
    }
}

/// Whether each side has exactly one king.
pub open spec fn both_kings(squares: Seq<u8>) -> bool {
    kings_in(squares, 64, false) == 1 && kings_in(squares, 64, true) == 1
}

/// Whether `rights` holds the bit `right`.
pub open spec fn has_right(rights: u8, right: u8) -> bool {
    right != 0 && (rights / right) % 2 == 1
}

/// Whether every castling right that is set finds its king and its rook at
/// home: the king on e1 or e8, the rook in its corner.
pub open spec fn rights_fit(squares: Seq<u8>, rights: u8) -> bool {
    &&& has_right(rights, WHITE_SHORT) ==> squares[4] == 6 && squares[7] == 4
    &&& has_right(rights, WHITE_LONG) ==> squares[4] == 6 && squares[0] == 4
    &&& has_right(rights, BLACK_SHORT) ==> squares[60] == 14 && squares[63] == 12
    &&& has_right(rights, BLACK_LONG) ==> squares[60] == 14 && squares[56] == 12
}

/// Whether the en-passant square, if there is one, is empty, on the sixth
/// rank as the mover counts, with a pawn of the other side behind it.
pub open spec fn en_passant_fits(squares: Seq<u8>, white: bool, ep: u8) -> bool {
    ||| ep == NO_SQUARE
    ||| white && 40 <= ep < 48 && kind_of(squares[ep as int]) == 0 && squares[ep - 8] == 9
    ||| !white && 16 <= ep < 24 && kind_of(squares[ep as int]) == 0 && squares[ep + 8] == 1
}

/// Whether moves can be generated for a position with these 64 squares,
/// side to move, castling rights and en-passant square.
pub open spec fn position_fits(squares: Seq<u8>, white: bool, rights: u8, ep: u8) -> bool {
    &&& both_kings(squares)
    &&& rights_fit(squares, rights)
    &&& en_passant_fits(squares, white, ep)
    &&& reach_in(squares, white, ep, 64) <= MOVE_LIST_ROOM
}

fn line(squares: &Vec<u8>, white: bool, f: i8, r: i8, df: i8, dr: i8) -> (count: u16)
    requires
        squares.len() == 64,
        on_board(f as int, r as int),
        -1 <= df <= 1,
        -1 <= dr <= 1,
    ensures
        count == line_reach(squares@, white, f as int, r as int, df as int, dr as int, 7),
        count <= 7,
{
    let mut count: u16 = 0;
    let mut cf: i8 = f;
    let mut cr: i8 = r;
    let mut left: u8 = 7;
    while left > 0 && 0 <= cf + df && cf + df < 8 && 0 <= cr + dr && cr + dr < 8
        invariant
            squares.len() == 64,
            on_board(cf as int, cr as int),
            -1 <= df <= 1,
            -1 <= dr <= 1,
            left <= 7,
            count + left <= 7,
            count + line_reach(
                squares@,
                white,
                cf as int,
                cr as int,
                df as int,
                dr as int,
                left as nat,
            ) == line_reach(squares@, white, f as int, r as int, df as int, dr as int, 7),
        decreases left,
    {
        let code: u8 = squares[((cr + dr) * 8 + cf + df) as usize];
        if code % 8 != 0 {
            if (code >= 8) == white {
                count += 1;
            }
            return count;
        }
        count += 1;
        cf += df;
        cr += dr;
        left -= 1;
    }
    count
}

fn step(squares: &Vec<u8>, white: bool, f: i8, r: i8, df: i8, dr: i8) -> (count: u16)
    requires
        squares.len() == 64,
        on_board(f as int, r as int),
        -2 <= df <= 2,
        -2 <= dr <= 2,
    ensures
        count == step_reach(squares@, white, f as int, r as int, df as int, dr as int),
        count <= 1,
{
    if 0 <= f + df && f + df < 8 && 0 <= r + dr && r + dr < 8 {
        let code: u8 = squares[((r + dr) * 8 + f + df) as usize];
        if code % 8 != 0 && (code >= 8) != white {
            0
        } else {
            1
        }
    } else {
        0
    }
}

fn free(squares: &Vec<u8>, f: i8, r: i8, dr: i8) -> (count: u16)
    requires
        squares.len() == 64,
        on_board(f as int, r as int),
        -2 <= dr <= 2,
    ensures
        count == free_reach(squares@, f as int, r as int, 0, dr as int),
        count <= 1,
{
    if 0 <= r + dr && r + dr < 8 && squares[((r + dr) * 8 + f) as usize] % 8 == 0 {
        1
    } else {
        0
    }
}

fn take(squares: &Vec<u8>, white: bool, ep: u8, f: i8, r: i8, df: i8, dr: i8) -> (count: u16)
    requires
        squares.len() == 64,
        on_board(f as int, r as int),
        -1 <= df <= 1,
        -1 <= dr <= 1,
    ensures
        count == take_reach(squares@, white, ep, f as int, r as int, df as int, dr as int),
        count <= 1,
{
    if 0 <= f + df && f + df < 8 && 0 <= r + dr && r + dr < 8 {
        let at: u8 = ((r + dr) * 8 + f + df) as u8;
        let code: u8 = squares[at as usize];
        if (code % 8 != 0 && (code >= 8) == white) || at == ep {
            1
        } else {
            0
        }
    } else {
        0
    }
}

fn pawn(squares: &Vec<u8>, white: bool, ep: u8, f: i8, r: i8) -> (count: u16)
    requires
        squares.len() == 64,
        on_board(f as int, r as int),
    ensures
        count == pawn_reach(squares@, white, ep, f as int, r as int),
        count <= 13,
{
    let dr: i8 = if white {
        1
    } else {
        -1
    };
    let ways: u16 = if (white && r == 6) || (!white && r == 1) {
        4
    } else {
        1
    };
    let ahead: u16 = free(squares, f, r, dr);
    let twice: u16 = if ((white && r == 1) || (!white && r == 6)) && ahead == 1 {
        free(squares, f, r + dr, dr)
    } else {
        0
    };
    let taking: u16 = take(squares, white, ep, f, r, -1, dr) + take(
        squares,
        white,
        ep,
        f,
        r,
        1,
        dr,
    );
    assert(ways * (ahead + taking) <= 12) by (nonlinear_arith)
        requires
            ways <= 4,
            ahead + taking <= 3,
    ;
    ways * (ahead + taking) + twice
}

fn straight(squares: &Vec<u8>, white: bool, f: i8, r: i8) -> (count: u16)
    requires
        squares.len() == 64,
        on_board(f as int, r as int),
    ensures
        count == straight_reach(squares@, white, f as int, r as int),
        count <= 28,
{
    line(squares, white, f, r, 1, 0) + line(squares, white, f, r, -1, 0) + line(
        squares,
        white,
        f,
        r,
        0,
        1,
    ) + line(squares, white, f, r, 0, -1)
}

fn diagonal(squares: &Vec<u8>, white: bool, f: i8, r: i8) -> (count: u16)
    requires
        squares.len() == 64,
        on_board(f as int, r as int),
    ensures
        count == diagonal_reach(squares@, white, f as int, r as int),
        count <= 28,
{
    line(squares, white, f, r, 1, 1) + line(squares, white, f, r, -1, 1) + line(
        squares,
        white,
        f,
        r,
        1,
        -1,
    ) + line(squares, white, f, r, -1, -1)
}

/// An upper bound on the moves of the piece on square `sq`, if it is the
/// mover's.
pub fn reach_of_piece(squares: &Vec<u8>, white: bool, ep: u8, sq: u8) -> (count: u16)
    requires
        squares.len() == 64,
        sq < 64,
    ensures
        count == piece_reach(squares@, white, ep, sq as int),
        count <= 56,
{
    let code: u8 = squares[sq as usize];
    let kind: u8 = code % 8;
    let f: i8 = (sq % 8) as i8;
    let r: i8 = (sq / 8) as i8;
    if kind == 0 || (code >= 8) == white {
        0
    } else if kind == 1 {
        pawn(squares, white, ep, f, r)
    } else if kind == 2 {
        step(squares, white, f, r, 1, 2) + step(squares, white, f, r, 2, 1) + step(
            squares,
            white,
            f,
            r,
            2,
            -1,
        ) + step(squares, white, f, r, 1, -2) + step(squares, white, f, r, -1, -2) + step(
            squares,
            white,
            f,
            r,
            -2,
            -1,
        ) + step(squares, white, f, r, -2, 1) + step(squares, white, f, r, -1, 2)
    } else if kind == 3 {
        diagonal(squares, white, f, r)
    } else if kind == 4 {
        straight(squares, white, f, r)
    } else if kind == 5 {
        straight(squares, white, f, r) + diagonal(squares, white, f, r)
    } else if kind == 6 {
        step(squares, white, f, r, 1, 0) + step(squares, white, f, r, 1, 1) + step(
            squares,
            white,
            f,
            r,
            0,
            1,
        ) + step(squares, white, f, r, -1, 1) + step(squares, white, f, r, -1, 0) + step(
            squares,
            white,
            f,
            r,
            -1,
            -1,
        ) + step(squares, white, f, r, 0, -1) + step(squares, white, f, r, 1, -1) + 2
    } else {
        0
    }
}

/// Whether every castling right that is set finds its king and rook at
/// home.
pub fn rights_agree(squares: &Vec<u8>, rights: u8) -> (ok: bool)
    requires
        squares.len() == 64,
    ensures
        ok == rights_fit(squares@, rights),
{
    let white_home: bool = squares[4] == 6;
    let black_home: bool = squares[60] == 14;
    ((rights / 8) % 2 != 1 || (white_home && squares[7] == 4)) && ((rights / 4) % 2 != 1 || (
    white_home && squares[0] == 4)) && ((rights / 2) % 2 != 1 || (black_home && squares[63]
        == 12)) && (rights % 2 != 1 || (black_home && squares[56] == 12))
}

/// Whether the en-passant square agrees with the pieces.
pub fn en_passant_agrees(squares: &Vec<u8>, white: bool, ep: u8) -> (ok: bool)
    requires
        squares.len() == 64,
    ensures
        ok == en_passant_fits(squares@, white, ep),
{
    if ep == NO_SQUARE {
        true
    } else if white {
        40 <= ep && ep < 48 && squares[ep as usize] % 8 == 0 && squares[(ep - 8) as usize] == 9
    } else {
        16 <= ep && ep < 24 && squares[ep as usize] % 8 == 0 && squares[(ep + 8) as usize] == 1
    }
}

/// Whether moves can be generated for a position with these squares, side
/// to move, castling rights and en-passant square.
pub fn fits(squares: &Vec<u8>, white: bool, rights: u8, ep: u8) -> (ok: bool)
    requires
        squares.len() == 64,
    ensures
        ok == position_fits(squares@, white, rights, ep),
{
    let mut reach: u16 = 0;
    let mut white_kings: u8 = 0;
    let mut black_kings: u8 = 0;
    let mut sq: u8 = 0;
    while sq < 64
        invariant
            sq <= 64,
            squares.len() == 64,
            reach == reach_in(squares@, white, ep, sq as nat),
            white_kings == kings_in(squares@, sq as nat, false),
            black_kings == kings_in(squares@, sq as nat, true),
            reach <= 56 * sq,
            white_kings <= sq,
            black_kings <= sq,
        decreases 64 - sq,
    {
        let code: u8 = squares[sq as usize];
        if code % 8 == 6 {
            if code >= 8 {
                black_kings += 1;
            } else {
                white_kings += 1;
            }
        }
        reach += reach_of_piece(squares, white, ep, sq);
        sq += 1;
    }
    white_kings == 1 && black_kings == 1 && rights_agree(squares, rights) && en_passant_agrees(
        squares,
        white,
        ep,
    ) && reach <= MOVE_LIST_ROOM
}

} // verus!
