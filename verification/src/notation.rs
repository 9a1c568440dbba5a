//! Algebraic notation: writing a move as text and finding the move that a
//! text stands for.

use crate::eval::PAWN;
use crate::moves::Move;
use crate::position::{
    checked, checkmate, in_check, is_checkmate, is_playable, kind_of, play_on_copy,
    played_on_copy,
    legal_moves_of, listed_moves, listed_moves_of, moved_piece, piece_on, playable,
    white_moves, white_to_move,
};
use crate::text::{
    ascii_lowered, chars_of, lowercase, lowercase_of, string_of, strip, stripped, trimmed,
    without_trailing, CharClass,
};
use vstd::utf8::is_ascii_chars;
use pleco::Board;
use vstd::prelude::*;

verus! {

/// The letter of a file, `a` for file 0.
pub open spec fn file_letter(file_idx: u8) -> char {
    ((97 + file_idx) as u8) as char
}

/// The digit of a rank, `1` for rank 0.
pub open spec fn rank_digit(rank_idx: u8) -> char {
    ((49 + rank_idx) as u8) as char
}

/// The letter of a kind of piece: a blank for a pawn, `?` for what is no
/// piece.
pub open spec fn piece_letter(kind: u8) -> char {
    if kind == 1 {
        ' '
    } else if kind == 2 {
        'N'
    } else if kind == 3 {
        'B'
    } else if kind == 4 {
        'R'
    } else if kind == 5 {
        'Q'
    } else if kind == 6 {
        'K'
    } else {
        '?'
    }
}

pub fn file_char(file_idx: u8) -> (c: char)
    requires
        file_idx <= 158,
    ensures
        c == file_letter(file_idx),
{
    (97 + file_idx) as char
}

pub fn rank_char(rank_idx: u8) -> (c: char)
    requires
        rank_idx <= 206,
    ensures
        c == rank_digit(rank_idx),
{
    (49 + rank_idx) as char
}

pub fn piece_char(kind: u8) -> (c: char)
    ensures
        c == piece_letter(kind),
{
    if kind == 1 {
        ' '
    } else if kind == 2 {
        'N'
    } else if kind == 3 {
        'B'
    } else if kind == 4 {
        'R'
    } else if kind == 5 {
        'Q'
    } else if kind == 6 {
        'K'
    } else {
        '?'
    }
}

/// Whether `other` could be mistaken for `m`: another move of the same kind
/// of piece to the same square.
pub open spec fn is_rival(b: Board, m: Move, other: Move) -> bool {
    other.dest() == m.dest() && kind_of(piece_on(b, other.src())) == kind_of(
        piece_on(b, m.src()),
    ) && other != m
}

/// Whether one of the first `n` listed moves is a rival of `m`.
pub open spec fn rival_among(b: Board, m: Move, n: int) -> bool {
    exists|k: int| 0 <= k < n && k < listed_moves_of(b).len() && is_rival(
        b,
        m,
        #[trigger] listed_moves_of(b)[k],
    )
}

/// Whether some listed move is a rival of `m`.
pub open spec fn has_rival(b: Board, m: Move) -> bool {
    rival_among(b, m, listed_moves_of(b).len() as int)
}

/// The text of a move that is neither null nor castling, up to the marks
/// for check and mate, given the kind of piece that moves, whether the move
/// has a rival and whether White moves: the piece's letter unless it is a
/// pawn; the source file if the move has a rival; for a capture, the source
/// file if a pawn captures, then `x`; the destination; `=Q` if a pawn
/// arrives on the last rank.
pub open spec fn san_body(m: Move, kind: u8, rival: bool, white: bool) -> Seq<char> {
    let source_file = file_letter(m.src() % 8);
    let last_rank: u8 = if white {
        7
    } else {
        0
    };
    (if piece_letter(kind) != ' ' {
        seq![piece_letter(kind)]
    } else {
        Seq::<char>::empty()
    }) + (if rival {
        seq![source_file]
    } else {
        Seq::<char>::empty()
    }) + (if m.is_capture() && kind == PAWN {
        seq![source_file, 'x']
    } else if m.is_capture() {
        seq!['x']
    } else {
        Seq::<char>::empty()
    }) + seq![file_letter(m.dest() % 8), rank_digit(m.dest() / 8)] + (if kind == PAWN && m.dest()
        / 8 == last_rank {
        seq!['=', 'Q']
    } else {
        Seq::<char>::empty()
    })
}

/// The marks behind a move: `+` if it gives check and, whether or not that
/// mark is there, `#` if it mates.
pub open spec fn san_marks(check: bool, mate: bool) -> Seq<char> {
    (if check {
        seq!['+']
    } else {
        Seq::<char>::empty()
    }) + (if mate {
        seq!['#']
    } else {
        Seq::<char>::empty()
    })
}

/// The text of a move, given the kind of piece that moves, whether the move
/// has a rival, whether White moves, and whether the move gives check and
/// mate: nothing for the null move, `O-O` and `O-O-O` for castling, with no
/// mark behind them, else the body and the marks.
pub open spec fn san_text(
    m: Move,
    kind: u8,
    rival: bool,
    white: bool,
    check: bool,
    mate: bool,
) -> Seq<char> {
    if m.is_null() {
        Seq::<char>::empty()
    } else if m.is_king_castle() {
        seq!['O', '-', 'O']
    } else if m.is_queen_castle() {
        seq!['O', '-', 'O', '-', 'O']
    } else {
        san_body(m, kind, rival, white) + san_marks(check, mate)
    }
}

/// The text of the move `m` on `b`.
pub open spec fn san_spec(b: Board, m: Move) -> Seq<char> {
    san_text(
        m,
        kind_of(piece_on(b, m.src())),
        has_rival(b, m),
        white_to_move(b),
        in_check(played_on_copy(b, m)),
        checkmate(played_on_copy(b, m)),
    )
}

/// Whether a move can be written: it is null, a castling move, or playable.
pub open spec fn writable(b: Board, m: Move) -> bool {
    m.is_null() || m.is_king_castle() || m.is_queen_castle() || playable(b, m)
}

/// Writes a move, given the kind of piece that moves, whether the move has a
/// rival, whether White moves, and whether the move gives check and mate.
pub fn write_move(
    m: Move,
    kind: u8,
    rival: bool,
    white_to_move: bool,
    check: bool,
    mate: bool,
) -> (san: String)
    ensures
        san@ == san_text(m, kind, rival, white_to_move, check, mate),
{
    let mut san: Vec<char> = Vec::new();
    if m.is_null() {
        return string_of(&san);
    }
    if m.is_king_castle() {
        san.push('O');
        san.push('-');
        san.push('O');
        return string_of(&san);
    }
    if m.is_queen_castle() {
        san.push('O');
        san.push('-');
        san.push('O');
        san.push('-');
        san.push('O');
        return string_of(&san);
    }
    let from: u8 = m.src();
    let to: u8 = m.dest();
    let letter: char = piece_char(kind);
    if letter != ' ' {
        san.push(letter);
    }
    if rival {
        san.push(file_char(from % 8));
    }
    if m.is_capture() {
        if kind == PAWN {
            san.push(file_char(from % 8));
        }
        san.push('x');
    }
    san.push(file_char(to % 8));
    san.push(rank_char(to / 8));
    let last_rank: u8 = if white_to_move {
        7
    } else {
        0
    };
    if kind == PAWN && to / 8 == last_rank {
        san.push('=');
        san.push('Q');
    }
    assert(san@ == san_body(m, kind, rival, white_to_move));
    if check {
        san.push('+');
    }
    if mate {
        san.push('#');
    }
    assert(san@ == san_body(m, kind, rival, white_to_move) + san_marks(check, mate));
    string_of(&san)
}

/// Whether some listed move of the position is a rival of `mv`.
pub fn find_rival(board: &Board, mv: Move) -> (rival: bool)
    ensures
        rival == has_rival(*board, mv),
{
    let kind: u8 = moved_piece(board, mv) % 8;
    let to: u8 = mv.dest();
    let others = listed_moves(board);
    let mut rival: bool = false;
    let mut k: usize = 0;
    while k < others.len()
        invariant
            k <= others.len(),
            others@ == listed_moves_of(*board),
            kind == kind_of(piece_on(*board, mv.src())),
            to == mv.dest(),
            rival == rival_among(*board, mv, k as int),
        decreases others.len() - k,
    {
        let other: Move = others[k];
        if other.dest() == to && moved_piece(board, other) % 8 == kind && other != mv {
            rival = true;
        }
        k += 1;
    }
    rival
}

/// Writes a move of the position in algebraic notation. Whether the move
/// gives check or mate is found by playing it on a copy of the board.
pub fn bitmove_to_san(board: &Board, mv: Move) -> (san: String)
    requires
        writable(*board, mv),
    ensures
        san@ == san_spec(*board, mv),
{
    if mv.is_null() || mv.is_king_castle() || mv.is_queen_castle() {
        return write_move(mv, 0, false, false, false, false);
    }
    let kind: u8 = moved_piece(board, mv) % 8;
    let rival: bool = find_rival(board, mv);
    let white: bool = white_moves(board);
    let copy = play_on_copy(board, mv);
    let check: bool = checked(&copy);
    let mate: bool = is_checkmate(&copy);
    write_move(mv, kind, rival, white, check, mate)
}

/// Writes a move in algebraic notation if it is null, a castling move or a
/// legal move of the position, and returns nothing for any other move.
pub fn move_to_san(board: &Board, mv: Move) -> (san: Option<String>)
    ensures
        san is Some <==> (mv.is_null() || mv.is_king_castle() || mv.is_queen_castle()
            || listed_moves_of(*board).contains(mv) || legal_moves_of(*board).contains(mv)),
        san is Some ==> san->0@ == san_spec(*board, mv),
{
    if mv.is_null() || mv.is_king_castle() || mv.is_queen_castle() || is_playable(board, mv) {
        Some(bitmove_to_san(board, mv))
    } else {
        None
    }
}

/// The failure to find a move for a text; it carries the text as it came.
#[derive(Debug)]
pub struct NoMatch {
    pub text: String,
}

impl NoMatch {
    /// The failure in words.
    pub fn message(&self) -> (words: String)
        ensures
            words@ == "No matching move for SAN: "@ + self.text@,
    {
        let mut words = String::from_str("No matching move for SAN: ");
        words.append(self.text.as_str());
        words
    }
}

/// A text as it is compared: without white space at its ends, in lower
/// case, and without marks for check and mate at its end.
pub open spec fn normalized(text: Seq<char>) -> Seq<char> {
    stripped(lowercase_of(trimmed(text)), CharClass::Mark, false, true)
}

/// Whether `m` castles on the given side.
pub open spec fn castles(m: Move, king_side: bool) -> bool {
    if king_side {
        m.is_king_castle()
    } else {
        m.is_queen_castle()
    }
}

/// The first of `moves`, from the `from`-th on, that castles on the given
/// side.
pub open spec fn first_castle(moves: Seq<Move>, king_side: bool, from: int) -> Option<Move>
    decreases moves.len() - from,
{
    if from < 0 || from >= moves.len() {
        None
    } else if castles(moves[from], king_side) {
        Some(moves[from])
    } else {
        first_castle(moves, king_side, from + 1)
    }
}

/// The first of `moves`, from the `from`-th on, whose text in lower case is
/// `clean`.
pub open spec fn first_written(b: Board, moves: Seq<Move>, clean: Seq<char>, from: int) -> Option<
    Move,
>
    decreases moves.len() - from,
{
    if from < 0 || from >= moves.len() {
        None
    } else if lowercase_of(san_spec(b, moves[from])) == clean {
        Some(moves[from])
    } else {
        first_written(b, moves, clean, from + 1)
    }
}

/// The move that `text` stands for on `b`.
///
/// The text is normalized. If it is then `o-o` or `o-o-o`, the first listed
/// move that castles on that side is the answer. Failing that, the answer is
/// the first listed move whose own text, in lower case, is the normalized
/// text.
pub open spec fn decode_spec(b: Board, text: Seq<char>) -> Option<Move> {
    let clean = normalized(text);
    let moves = listed_moves_of(b);
    let castle = if clean == seq!['o', '-', 'o'] {
        first_castle(moves, true, 0)
    } else if clean == seq!['o', '-', 'o', '-', 'o'] {
        first_castle(moves, false, 0)
    } else {
        None
    };
    match castle {
        Some(m) => Some(m),
        None => first_written(b, moves, clean, 0),
    }
}

/// Puts a text in the form in which it is compared. If the trimmed text is
/// all ASCII, its lower case is taken character by character.
pub fn normalize(text: &str) -> (clean: Vec<char>)
    ensures
        clean@ == normalized(text@),
        is_ascii_chars(trimmed(text@)) ==> lowercase_of(trimmed(text@)) == ascii_lowered(
            trimmed(text@),
        ),
{
    let chars = chars_of(text);
    let bare = strip(&chars, CharClass::Whitespace, true, true);
    let lowered = lowercase(string_of(&bare).as_str());
    let lowered_chars = chars_of(lowered.as_str());
    strip(&lowered_chars, CharClass::Mark, false, true)
}

/// The first of `moves` that castles on the given side.
pub fn find_castle(moves: &Vec<Move>, king_side: bool) -> (found: Option<Move>)
    ensures
        found == first_castle(moves@, king_side, 0),
{
    let mut i: usize = 0;
    while i < moves.len()
        invariant
            i <= moves.len(),
            first_castle(moves@, king_side, i as int) == first_castle(moves@, king_side, 0),
        decreases moves.len() - i,
    {
        let m: Move = moves[i];
        if (king_side && m.is_king_castle()) || (!king_side && m.is_queen_castle()) {
            return Some(m);
        }
        i += 1;
    }
    None
}

fn find_written(board: &Board, moves: &Vec<Move>, clean: &String) -> (found: Option<Move>)
    requires
        forall|k: int| 0 <= k < moves.len() ==> playable(*board, #[trigger] moves[k]),
    ensures
        found == first_written(*board, moves@, clean@, 0),
{
    let mut i: usize = 0;
    while i < moves.len()
        invariant
            i <= moves.len(),
            forall|k: int| 0 <= k < moves.len() ==> playable(*board, #[trigger] moves[k]),
            first_written(*board, moves@, clean@, i as int) == first_written(
                *board,
                moves@,
                clean@,
                0,
            ),
        decreases moves.len() - i,
    {
        let m: Move = moves[i];
        let written = bitmove_to_san(board, m);
        let lowered = lowercase(written.as_str());
        if lowered == *clean {
            return Some(m);
        }
        i += 1;
    }
    None
}

/// The characters that the body of a written move is made of.
pub open spec fn is_san_char(c: char) -> bool {
    ('a' <= c <= 'h') || ('1' <= c <= '8') || c == 'N' || c == 'B' || c == 'R' || c == 'Q' || c
        == 'K' || c == '?' || c == 'x' || c == '=' || c == 'O' || c == '-'
}

/// Whether a text is made of such characters alone.
pub open spec fn all_san_chars(text: Seq<char>) -> bool {
    forall|i: int| 0 <= i < text.len() ==> is_san_char(#[trigger] text[i])
}

/// Whether the text of `m` ends without a mark for check or mate.
pub open spec fn unmarked(b: Board, m: Move) -> bool {
    m.is_null() || m.is_king_castle() || m.is_queen_castle() || (!in_check(played_on_copy(b, m))
        && !checkmate(played_on_copy(b, m)))
}

/// Whether another listed move is written as `m` is, lower case aside.
pub open spec fn collides(b: Board, m: Move) -> bool {
    exists|k: int|
        0 <= k < listed_moves_of(b).len() && #[trigger] listed_moves_of(b)[k] != m && lowercase_of(
            san_spec(b, listed_moves_of(b)[k]),
        ) == lowercase_of(san_spec(b, m))
}

/// The moves that come back from their own text: the listed moves whose
/// text carries no mark for check or mate and is shared by no other listed
/// move.
pub open spec fn round_trips(b: Board, m: Move) -> bool {
    listed_moves_of(b).contains(m) && unmarked(b, m) && !collides(b, m)
}

proof fn lemma_joined_san_chars(head: Seq<char>, tail: Seq<char>)
    requires
        all_san_chars(head),
        all_san_chars(tail),
    ensures
        all_san_chars(head + tail),
{
    assert forall|i: int| 0 <= i < (head + tail).len() implies is_san_char(
        #[trigger] (head + tail)[i],
    ) by {}
}

/// The body of a written move has at least two characters, all of them
/// from the small set above, and ends in a rank digit or in `Q`.
pub proof fn lemma_body_shape(m: Move, kind: u8, rival: bool, white: bool)
    ensures
        san_body(m, kind, rival, white).len() >= 2,
        all_san_chars(san_body(m, kind, rival, white)),
        ('1' <= san_body(m, kind, rival, white).last() <= '8') || san_body(
            m,
            kind,
            rival,
            white,
        ).last() == 'Q',
{
    let source_file = file_letter(m.src() % 8);
    let last_rank: u8 = if white {
        7
    } else {
        0
    };
    let p1 = if piece_letter(kind) != ' ' {
        seq![piece_letter(kind)]
    } else {
        Seq::<char>::empty()
    };
    let p2 = if rival {
        seq![source_file]
    } else {
        Seq::<char>::empty()
    };
    let p3 = if m.is_capture() && kind == PAWN {
        seq![source_file, 'x']
    } else if m.is_capture() {
        seq!['x']
    } else {
        Seq::<char>::empty()
    };
    let p4 = seq![file_letter(m.dest() % 8), rank_digit(m.dest() / 8)];
    let p5 = if kind == PAWN && m.dest() / 8 == last_rank {
        seq!['=', 'Q']
    } else {
        Seq::<char>::empty()
    };
    lemma_joined_san_chars(p1, p2);
    lemma_joined_san_chars(p1 + p2, p3);
    lemma_joined_san_chars(p1 + p2 + p3, p4);
    lemma_joined_san_chars(p1 + p2 + p3 + p4, p5);
}

/// What holds of the text of a move without marks: it is made of ASCII
/// characters, trimming leaves it alone, and so does the removal of marks
/// from its end once it is in lower case. In lower case it is `o-o` or
/// `o-o-o` only for the castling move of that side.
pub proof fn lemma_unmarked_text(m: Move, kind: u8, rival: bool, white: bool)
    ensures
        ({
            let text = san_text(m, kind, rival, white, false, false);
            &&& is_ascii_chars(text)
            &&& trimmed(text) == text
            &&& stripped(ascii_lowered(text), CharClass::Mark, false, true) == ascii_lowered(text)
            &&& ascii_lowered(text) == seq!['o', '-', 'o'] <==> !m.is_null() && m.is_king_castle()
            &&& ascii_lowered(text) == seq!['o', '-', 'o', '-', 'o'] <==> !m.is_null()
                && m.is_queen_castle()
        }),
{
    let text = san_text(m, kind, rival, white, false, false);
    let low = ascii_lowered(text);
    if m.is_null() {
    } else if m.is_king_castle() {
        assert(low =~= seq!['o', '-', 'o']);
    } else if m.is_queen_castle() {
        assert(low =~= seq!['o', '-', 'o', '-', 'o']);
    } else {
        lemma_body_shape(m, kind, rival, white);
        assert(text == san_body(m, kind, rival, white));
    }
    assert(without_trailing(low, CharClass::Mark) == low);
}

/// The text of a move of the position that carries no mark is the text
/// written without marks.
pub proof fn lemma_unmarked_spec(b: Board, m: Move)
    requires
        unmarked(b, m),
    ensures
        san_spec(b, m) == san_text(
            m,
            kind_of(piece_on(b, m.src())),
            has_rival(b, m),
            white_to_move(b),
            false,
            false,
        ),
{
    assert(san_marks(false, false) == Seq::<char>::empty());
}

proof fn lemma_first_castle_finds(moves: Seq<Move>, king_side: bool, from: int, at: int)
    requires
        0 <= from <= at < moves.len(),
        castles(moves[at], king_side),
    ensures
        first_castle(moves, king_side, from) is Some,
    decreases at - from,
{
    if !castles(moves[from], king_side) {
        lemma_first_castle_finds(moves, king_side, from + 1, at);
    }
}

proof fn lemma_first_castle_is_member(moves: Seq<Move>, king_side: bool, from: int)
    requires
        0 <= from,
        first_castle(moves, king_side, from) is Some,
    ensures
        moves.contains(first_castle(moves, king_side, from)->0),
        castles(first_castle(moves, king_side, from)->0, king_side),
    decreases moves.len() - from,
{
    if from < moves.len() && !castles(moves[from], king_side) {
        lemma_first_castle_is_member(moves, king_side, from + 1);
    }
}

proof fn lemma_first_written_finds(b: Board, moves: Seq<Move>, clean: Seq<char>, from: int, at: int)
    requires
        0 <= from <= at < moves.len(),
        lowercase_of(san_spec(b, moves[at])) == clean,
    ensures
        first_written(b, moves, clean, from) is Some,
    decreases at - from,
{
    if lowercase_of(san_spec(b, moves[from])) != clean {
        lemma_first_written_finds(b, moves, clean, from + 1, at);
    }
}

proof fn lemma_first_written_is_member(b: Board, moves: Seq<Move>, clean: Seq<char>, from: int)
    requires
        0 <= from,
        first_written(b, moves, clean, from) is Some,
    ensures
        moves.contains(first_written(b, moves, clean, from)->0),
        lowercase_of(san_spec(b, first_written(b, moves, clean, from)->0)) == clean,
    decreases moves.len() - from,
{
    if from < moves.len() && lowercase_of(san_spec(b, moves[from])) != clean {
        lemma_first_written_is_member(b, moves, clean, from + 1);
    }
}

/// A move that round-trips is the one that its own text stands for.
///
/// The one thing asked of lower case is that, on the text at hand if it is
/// all ASCII, it works character by character; the function that computes
/// lower case says so of every text it is given.
pub proof fn lemma_round_trip(b: Board, m: Move)
    requires
        round_trips(b, m),
        is_ascii_chars(san_spec(b, m)) ==> lowercase_of(san_spec(b, m)) == ascii_lowered(
            san_spec(b, m),
        ),
    ensures
        decode_spec(b, san_spec(b, m)) == Some(m),
{
    let text = san_spec(b, m);
    let moves = listed_moves_of(b);
    lemma_unmarked_spec(b, m);
    lemma_unmarked_text(m, kind_of(piece_on(b, m.src())), has_rival(b, m), white_to_move(b));
    let clean = normalized(text);
    let at = choose|at: int| 0 <= at < moves.len() && moves[at] == m;
    let king = clean == seq!['o', '-', 'o'];
    let queen = clean == seq!['o', '-', 'o', '-', 'o'];
    if king || queen {
        lemma_first_castle_finds(moves, king, 0, at);
        lemma_first_castle_is_member(moves, king, 0);
    } else {
        lemma_first_written_finds(b, moves, clean, 0, at);
        lemma_first_written_is_member(b, moves, clean, 0);
    }
}

/// Finds the move of the position that a text stands for.
///
/// The text is trimmed, put in lower case and freed of marks for check and
/// mate at its end, and then held against the castling words and against
/// the text of every listed move. Without a match the error carries the
/// text as it came. A move that round-trips is found from its own text.
pub fn san_to_bitmove(board: &Board, san: &str) -> (found: Result<Move, NoMatch>)
    ensures
        match found {
            Ok(m) => decode_spec(*board, san@) == Some(m) && listed_moves_of(*board).contains(m)
                && playable(*board, m) && !m.is_null(),
            Err(e) => decode_spec(*board, san@) is None && e.text@ == san@,
        },
        forall|m: Move|
            #![trigger san_spec(*board, m)]
            round_trips(*board, m) && san@ == san_spec(*board, m) ==> found == Ok::<Move, NoMatch>(
                m,
            ),
{
    let ghost b0 = *board;
    let clean_chars = normalize(san);
    let clean = string_of(&clean_chars);
    let moves = listed_moves(board);
    let n: usize = clean_chars.len();
    let castle: Option<Move> = if n == 3 && clean_chars[0] == 'o' && clean_chars[1] == '-'
        && clean_chars[2] == 'o' {
        assert(clean@ =~= seq!['o', '-', 'o']);
        find_castle(&moves, true)
    } else if n == 5 && clean_chars[0] == 'o' && clean_chars[1] == '-' && clean_chars[2] == 'o'
        && clean_chars[3] == '-' && clean_chars[4] == 'o' {
        assert(clean@ =~= seq!['o', '-', 'o', '-', 'o']);
        find_castle(&moves, false)
    } else {
        None
    };
    let answer: Option<Move> = match castle {
        Some(m) => Some(m),
        None => find_written(board, &moves, &clean),
    };
    proof {
        if answer is Some {
            if castle is Some {
                lemma_first_castle_is_member(moves@, clean@ == seq!['o', '-', 'o'], 0);
            } else {
                lemma_first_written_is_member(b0, moves@, clean@, 0);
            }
        }
        assert forall|m: Move|
            #![trigger san_spec(b0, m)]
            round_trips(b0, m) && san@ == san_spec(b0, m) implies answer == Some(m) by {
            lemma_unmarked_spec(b0, m);
            lemma_unmarked_text(
                m,
                kind_of(piece_on(b0, m.src())),
                has_rival(b0, m),
                white_to_move(b0),
            );
            lemma_round_trip(b0, m);
        }
    }
    match answer {
        Some(m) => Ok(m),
        None => Err(NoMatch { text: String::from_str(san) }),
    }
}

} // verus!
