//! Passing the turn. A search that tries a null move needs the position in
//! which the other side is to move and nothing else has changed. It is made
//! from the position's text in Forsyth-Edwards notation: the side to move
//! is swapped, the en-passant square is cleared and the half-move clock
//! goes up by one.

use crate::position::{
    board_from_passed_fen, board_of_fen, checked, clock_of, fen_of, fen_text, halfmove_clock,
    in_check,
};
use pleco::Board;
use vstd::prelude::*;

verus! {

/// The index of the first space at or after `from`; the length of `text`
/// if there is none.
pub open spec fn space_from(text: Seq<char>, from: int) -> int
    decreases text.len() - from,
{
    if from < 0 || from >= text.len() {
        text.len() as int
    } else if text[from] == ' ' {
        from
    } else {
        space_from(text, from + 1)
    }
}

/// The character of a decimal digit.
pub open spec fn digit_char(d: nat) -> char {
    ((48 + d) as u8) as char
}

/// `n` written in decimal.
pub open spec fn digits_of(n: nat) -> Seq<char>
    decreases n,
{
    if n < 10 {
        seq![digit_char(n)]
    } else {
        digits_of(n / 10).push(digit_char(n % 10))
    }
}

/// The text with its second field replaced by `side`, its fourth by a dash
/// and its fifth by `clock`, where `s1`, `s2`, `s3` and `s5` are the places
/// of the first, second, third and fifth space.
pub open spec fn reassembled(
    text: Seq<char>,
    s1: int,
    s2: int,
    s3: int,
    s5: int,
    side: char,
    clock: nat,
) -> Seq<char> {
    text.subrange(0, s1 + 1).push(side) + text.subrange(s2, s3 + 1) + seq!['-', ' '] + digits_of(
        clock,
    ) + text.subrange(s5, text.len() as int)
}

/// The text of the position in which the turn has been passed, for a
/// position whose text is `text` and whose half-move clock is `clock`.
///
/// There is none if the text has fewer than six fields, if its second field
/// is not `w` or `b`, or if the clock is negative or cannot go up.
pub open spec fn passed_fen(text: Seq<char>, clock: i16) -> Option<Seq<char>> {
    let s1 = space_from(text, 0);
    let s2 = space_from(text, s1 + 1);
    let s3 = space_from(text, s2 + 1);
    let s4 = space_from(text, s3 + 1);
    let s5 = space_from(text, s4 + 1);
    if s5 >= text.len() || s2 != s1 + 2 || clock < 0 || clock >= i16::MAX {
        None
    } else if text[s1 + 1] == 'w' {
        Some(reassembled(text, s1, s2, s3, s5, 'b', (clock + 1) as nat))
    } else if text[s1 + 1] == 'b' {
        Some(reassembled(text, s1, s2, s3, s5, 'w', (clock + 1) as nat))
    } else {
        None
    }
}

/// The position after the side to move has passed, where it can be made:
/// the side to move is not in check, the text of the position can be
/// edited, and the edited text is accepted.
pub open spec fn passed_position(b: Board) -> Option<Board> {
    if in_check(b) {
        None
    } else {
        match passed_fen(fen_text(b), halfmove_clock(b)) {
            Some(text) => board_of_fen(text),
            None => None,
        }
    }
}

fn find_space(text: &Vec<char>, from: usize) -> (at: usize)
    requires
        from <= text.len(),
    ensures
        at == space_from(text@, from as int),
        from <= at <= text.len(),
        at < text.len() ==> text[at as int] == ' ',
{
    let mut at: usize = from;
    while at < text.len() && text[at] != ' '
        invariant
            from <= at <= text.len(),
            space_from(text@, at as int) == space_from(text@, from as int),
        decreases text.len() - at,
    {
        at += 1;
    }
    at
}

fn append_range(out: &mut Vec<char>, text: &Vec<char>, from: usize, to: usize)
    requires
        from <= to <= text.len(),
    ensures
        final(out)@ == old(out)@ + text@.subrange(from as int, to as int),
{
    let mut i: usize = from;
    while i < to
        invariant
            from <= i <= to <= text.len(),
            out@ == old(out)@ + text@.subrange(from as int, i as int),
        decreases to - i,
    {
        out.push(text[i]);
        proof {
            assert(text@.subrange(from as int, i + 1) == text@.subrange(from as int, i as int).push(
                text[i as int],
            ));
        }
        i += 1;
    }
}

fn append_decimal(out: &mut Vec<char>, n: u16)
    ensures
        final(out)@ == old(out)@ + digits_of(n as nat),
    decreases n,
{
    if n >= 10 {
        append_decimal(out, n / 10);
    }
    let d: u8 = (n % 10) as u8;
    out.push((48 + d) as char);
}

/// Edits the text of a position into that of the position with the turn
/// passed.
pub fn pass_in_fen(text: &Vec<char>, clock: i16) -> (passed: Option<Vec<char>>)
    ensures
        match passed {
            Some(t) => passed_fen(text@, clock) == Some(t@),
            None => passed_fen(text@, clock) is None,
        },
{
    let s1 = find_space(text, 0);
    let s2 = if s1 < text.len() {
        find_space(text, s1 + 1)
    } else {
        s1
    };
    let s3 = if s2 < text.len() {
        find_space(text, s2 + 1)
    } else {
        s2
    };
    let s4 = if s3 < text.len() {
        find_space(text, s3 + 1)
    } else {
        s3
    };
    let s5 = if s4 < text.len() {
        find_space(text, s4 + 1)
    } else {
        s4
    };
    if s5 >= text.len() || s2 != s1 + 2 || clock < 0 || clock >= i16::MAX {
        return None;
    }
    let side: char = if text[s1 + 1] == 'w' {
        'b'
    } else if text[s1 + 1] == 'b' {
        'w'
    } else {
        return None;
    };
    let mut out: Vec<char> = Vec::new();
    append_range(&mut out, text, 0, s1 + 1);
    out.push(side);
    append_range(&mut out, text, s2, s3 + 1);
    out.push('-');
    out.push(' ');
    append_decimal(&mut out, (clock + 1) as u16);
    append_range(&mut out, text, s5, text.len());
    proof {
        assert(out@ == reassembled(
            text@,
            s1 as int,
            s2 as int,
            s3 as int,
            s5 as int,
            side,
            (clock + 1) as nat,
        ));
    }
    Some(out)
}

/// The position in which the side to move has passed; nothing for a
/// position in check, in which the turn cannot be passed.
pub fn pass_turn(board: &Board) -> (passed: Option<Board>)
    ensures
        passed == passed_position(*board),
{
    if checked(board) {
        return None;
    }
    let text = fen_of(board);
    let clock = clock_of(board);
    match pass_in_fen(&text, clock) {
        Some(edited) => board_from_passed_fen(&edited),
        None => None,
    }
}

} // verus!
