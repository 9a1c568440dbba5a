//! The board. Positions are `pleco::Board` values; this module says what the
//! engine reads from one and how moves change it.
//!
//! Verus sees nothing inside a `Board`. Each fact that the engine uses is
//! therefore a named function of the board, and a small function ties each
//! name to the `pleco` call that computes it. Those ties are taken on trust;
//! everything else is proved from them.

use crate::moves::Move;
use crate::pass::passed_fen;
use crate::survey::{both_kings, fits, kings_in, position_fits};
use pleco::{BitMove, Board, Player, SQ};
use vstd::prelude::*;

verus! {

/// `pleco::Board`, taken as it is: a value to carry, with nothing known of
/// its inside.
#[verifier::external_type_specification]
#[verifier::external_body]
pub struct ExBoard(Board);

/// The piece on square `sq` (0 is a1, 7 is h1, 63 is h8): 0 for an empty
/// square, else the kind (1 pawn, 2 knight, 3 bishop, 4 rook, 5 queen,
/// 6 king), plus 8 for a black piece.
pub uninterp spec fn piece_on(b: Board, sq: u8) -> u8;

/// Whether White is to move.
pub uninterp spec fn white_to_move(b: Board) -> bool;

/// The position's 64-bit hash.
pub uninterp spec fn position_hash(b: Board) -> u64;

/// The number of moves played on the board so far.
pub uninterp spec fn position_ply(b: Board) -> u16;

/// Half-moves since the last capture or pawn move.
pub uninterp spec fn halfmove_clock(b: Board) -> i16;

/// The number of half-moves played in the game so far.
pub uninterp spec fn moves_played(b: Board) -> u16;

/// The number of moves that can be taken back on the board.
pub uninterp spec fn undo_depth(b: Board) -> u16;

/// The castling rights as four bits: 8 and 4 for White on the king's and on
/// the queen's side, 2 and 1 likewise for Black.
pub uninterp spec fn castling_rights(b: Board) -> u8;

/// The square on which a pawn can be taken en passant; 64 if there is
/// none.
pub uninterp spec fn en_passant_square(b: Board) -> u8;

/// Whether the side to move is in check.
pub uninterp spec fn in_check(b: Board) -> bool;

/// The legal moves, in the order in which the generator gives them.
pub uninterp spec fn generated_moves(b: Board) -> Seq<Move>;

/// The pseudo-legal moves, in generation order: all legal moves, and
/// possibly moves that leave the mover's king attacked.
pub uninterp spec fn pseudolegal_moves(b: Board) -> Seq<Move>;

/// The verdict of the legality test on a generated move.
pub uninterp spec fn passes_legality(b: Board, m: Move) -> bool;

/// Whether the static exchange that `m` starts wins at least `threshold`.
pub uninterp spec fn exchange_at_least(b: Board, m: Move, threshold: i32) -> bool;

/// The board after `m` has been played on `b`.
pub uninterp spec fn after_move(b: Board, m: Move) -> Board;

/// The board as it stood before its last move was played.
pub uninterp spec fn before_move(b: Board) -> Board;

/// A copy of the board on which no move can be taken back.
pub uninterp spec fn copied(b: Board) -> Board;

/// The position written in Forsyth-Edwards notation.
pub uninterp spec fn fen_text(b: Board) -> Seq<char>;

/// The board that a text in Forsyth-Edwards notation describes, if any.
pub uninterp spec fn board_of_fen(text: Seq<char>) -> Option<Board>;

/// The kind of a piece code: 0 for none, 1 to 6 for pawn to king.
pub open spec fn kind_of(code: u8) -> u8 {
    code % 8
}

/// Whether a piece code stands for a black piece.
pub open spec fn is_black(code: u8) -> bool {
    code >= 8
}

/// What stands on the 64 squares of a board.
pub open spec fn contents(b: Board) -> Seq<u8> {
    Seq::new(64, |sq: int| piece_on(b, sq as u8))
}

/// Whether each side has exactly one king on the board.
pub open spec fn crowned(b: Board) -> bool {
    both_kings(contents(b))
}

/// Whether moves can be generated for `b`: each side has one king, the
/// castling rights and the en-passant square agree with the pieces, and the
/// mover's moves are sure to fit into the generator's list.
pub open spec fn sound(b: Board) -> bool {
    position_fits(contents(b), white_to_move(b), castling_rights(b), en_passant_square(b))
}

/// Whether one more move can be counted on `b`: none of the board's four
/// counters stands at its largest value.
pub open spec fn has_room(b: Board) -> bool {
    moves_played(b) < u16::MAX && undo_depth(b) < u16::MAX && position_ply(b) < u16::MAX
        && halfmove_clock(b) < i16::MAX
}

/// Whether `m` comes out of the move generator for `b`.
pub open spec fn is_generated(b: Board, m: Move) -> bool {
    sound(b) && (pseudolegal_moves(b).contains(m) || generated_moves(b).contains(m))
}

/// Whether `m` would take a king.
pub open spec fn takes_king(b: Board, m: Move) -> bool {
    kind_of(piece_on(b, m.dest())) == 6
}

/// Whether `m` may be played on `b`: it was generated for `b`, it passes
/// the legality test, it takes no king, and the board can count one more
/// move.
pub open spec fn playable(b: Board, m: Move) -> bool {
    is_generated(b, m) && passes_legality(b, m) && !takes_king(b, m) && has_room(b)
}

/// Whether `b` is what some playable move made of an earlier board.
pub open spec fn reached_by_move(b: Board) -> bool {
    exists|p: Board, m: Move| playable(p, m) && b == #[trigger] after_move(p, m)
}

/// Whether playing `m` on `b` takes a piece off the board: the destination
/// is occupied and the move is no castling, or the move captures en passant.
pub open spec fn captures(b: Board, m: Move) -> bool {
    (piece_on(b, m.dest()) != 0 && !m.is_castle()) || m.is_en_passant()
}

/// The number of occupied squares among the first `n`.
pub open spec fn occupied_below(b: Board, n: nat) -> nat
    decreases n,
{
    if n == 0 {
        0
    } else {
        occupied_below(b, (n - 1) as nat) + if piece_on(b, (n - 1) as u8) != 0 {
            1nat
        } else {
            0nat
        }
    }
}

/// The number of pieces on the board.
pub open spec fn piece_total(b: Board) -> nat {
    occupied_below(b, 64)
}

/// `Board::piece_at_sq`: the piece on a square, as its code.
#[verifier::external_body]
pub(crate) fn piece_at(board: &Board, sq: u8) -> (code: u8)
    requires
        sq < 64,
    ensures
        code == piece_on(*board, sq),
{
    board.piece_at_sq(SQ(sq)) as u8
}

/// `Board::turn`: whose move it is.
#[verifier::external_body]
pub(crate) fn white_moves(board: &Board) -> (white: bool)
    ensures
        white == white_to_move(*board),
{
    match board.turn() {
        Player::White => true,
        Player::Black => false,
    }
}

/// `Board::zobrist`: the position's hash.
#[verifier::external_body]
pub(crate) fn hash_of(board: &Board) -> (hash: u64)
    ensures
        hash == position_hash(*board),
{
    board.zobrist()
}

/// `Board::ply`: the number of moves played on the board.
#[verifier::external_body]
pub(crate) fn ply_of(board: &Board) -> (ply: u16)
    ensures
        ply == position_ply(*board),
{
    board.ply()
}

/// `Board::rule_50`: the half-move clock.
#[verifier::external_body]
pub(crate) fn clock_of(board: &Board) -> (clock: i16)
    ensures
        clock == halfmove_clock(*board),
{
    board.rule_50()
}

/// `Board::moves_played`: the number of half-moves played in the game.
#[verifier::external_body]
pub(crate) fn played_of(board: &Board) -> (played: u16)
    ensures
        played == moves_played(*board),
{
    board.moves_played()
}

/// `Board::depth`: the number of moves that can be taken back.
#[verifier::external_body]
pub(crate) fn depth_of(board: &Board) -> (depth: u16)
    ensures
        depth == undo_depth(*board),
{
    board.depth()
}

/// `Board::castling_bits`: the castling rights as four bits.
#[verifier::external_body]
pub(crate) fn rights_of(board: &Board) -> (rights: u8)
    ensures
        rights == castling_rights(*board),
{
    board.castling_bits()
}

/// `Board::ep_square`: the en-passant square as its number, 64 for none.
#[verifier::external_body]
pub(crate) fn en_passant_of(board: &Board) -> (sq: u8)
    ensures
        sq == en_passant_square(*board),
{
    board.ep_square().0
}

/// `Board::in_check`: whether the side to move is in check.
#[verifier::external_body]
pub(crate) fn checked(board: &Board) -> (check: bool)
    ensures
        check == in_check(*board),
{
    board.in_check()
}

/// `Board::generate_moves`: the legal moves, each as its sixteen bits, for
/// a sound board. The generator makes them as it makes the pseudo-legal
/// moves and puts each to the legality test before it lists it.
#[verifier::external_body]
pub(crate) fn generate(board: &Board) -> (moves: Vec<Move>)
    requires
        sound(*board),
    ensures
        moves@ == generated_moves(*board),
        moves@ == pseudolegal_moves(*board).filter(passing(*board)),
{
    board.generate_moves().iter().map(|m| Move { raw: m.get_raw() }).collect()
}

/// `Board::generate_pseudolegal_moves`: the pseudo-legal moves, each as its
/// sixteen bits, for a sound board.
#[verifier::external_body]
pub(crate) fn generate_pseudolegal(board: &Board) -> (moves: Vec<Move>)
    requires
        sound(*board),
    ensures
        moves@ == pseudolegal_moves(*board),
{
    board.generate_pseudolegal_moves().iter().map(|m| Move { raw: m.get_raw() }).collect()
}

/// `Board::legal_move`: the legality test for a move that the generator has
/// given for this board.
#[verifier::external_body]
pub(crate) fn legality(board: &Board, m: Move) -> (legal: bool)
    requires
        is_generated(*board, m),
    ensures
        legal == passes_legality(*board, m),
{
    board.legal_move(BitMove::new(m.raw))
}

/// `Board::see_ge`: the static exchange evaluation of a playable move
/// against a threshold of moderate size.
#[verifier::external_body]
pub(crate) fn exchange(board: &Board, m: Move, threshold: i32) -> (enough: bool)
    requires
        playable(*board, m),
        -1000000 <= threshold <= 1000000,
    ensures
        enough == exchange_at_least(*board, m, threshold),
{
    board.see_ge(BitMove::new(m.raw), threshold)
}

/// `Board::apply_move`: plays a playable move, which takes no king and
/// leaves every counter in range. The earlier board is what an undo gives
/// back, the other side is to move, each side has as many kings as before,
/// and a capture leaves one piece fewer on the board.
#[verifier::external_body]
pub(crate) fn apply_move(board: &mut Board, m: Move)
    requires
        playable(*old(board), m),
    ensures
        *final(board) == after_move(*old(board), m),
        before_move(*final(board)) == *old(board),
        white_to_move(*final(board)) == !white_to_move(*old(board)),
        kings_in(contents(*final(board)), 64, false) == kings_in(contents(*old(board)), 64, false),
        kings_in(contents(*final(board)), 64, true) == kings_in(contents(*old(board)), 64, true),
        captures(*old(board), m) ==> piece_total(*final(board)) + 1 == piece_total(*old(board)),
{
    board.apply_move(BitMove::new(m.raw))
}

/// `Board::undo_move`: takes back the move that led to the board.
#[verifier::external_body]
pub(crate) fn undo_move(board: &mut Board)
    requires
        reached_by_move(*old(board)),
    ensures
        *final(board) == before_move(*old(board)),
{
    board.undo_move()
}

/// `Board::shallow_clone`: a copy of the board. The copy has the pieces,
/// the turn, the state and the count of moves played of the board, so that
/// the same moves are generated for it and pass the legality test; its
/// count of moves that can be taken back is 0.
#[verifier::external_body]
pub(crate) fn copy_board(board: &Board) -> (copy: Board)
    ensures
        copy == copied(*board),
        forall|sq: u8| piece_on(copy, sq) == #[trigger] piece_on(*board, sq),
        white_to_move(copy) == white_to_move(*board),
        generated_moves(copy) == generated_moves(*board),
        pseudolegal_moves(copy) == pseudolegal_moves(*board),
        forall|m: Move| passes_legality(copy, m) == #[trigger] passes_legality(*board, m),
        moves_played(copy) == moves_played(*board),
        position_ply(copy) == position_ply(*board),
        halfmove_clock(copy) == halfmove_clock(*board),
        castling_rights(copy) == castling_rights(*board),
        en_passant_square(copy) == en_passant_square(*board),
        undo_depth(copy) == 0,
{
    board.shallow_clone()
}

/// `Board::fen`: the position in Forsyth-Edwards notation, as its
/// characters.
#[verifier::external_body]
pub(crate) fn fen_of(board: &Board) -> (text: Vec<char>)
    ensures
        text@ == fen_text(*board),
{
    board.fen().chars().collect()
}

/// `Board::from_fen`, for texts of one shape only: what the board itself
/// wrote for a position without check, with the turn handed over (see
/// `passed_fen`). The result is the board that the text describes, or
/// nothing where the text is refused.
#[verifier::external_body]
pub(crate) fn board_from_passed_fen(text: &Vec<char>) -> (board: Option<Board>)
    requires
        exists|b: Board|
            !in_check(b) && #[trigger] passed_fen(fen_text(b), halfmove_clock(b)) == Some(text@),
    ensures
        board == board_of_fen(text@),
{
    match Board::from_fen(&text.iter().collect::<String>()) {
        Ok(b) => Some(b),
        Err(_) => None,
    }
}

/// The legality test on `b`, as a test of moves.
pub open spec fn passing(b: Board) -> spec_fn(Move) -> bool {
    |m: Move| passes_legality(b, m)
}

/// The test that keeps a generated move: it passes the legality test, its
/// two squares differ, it takes no king and, where only captures are
/// wanted, it captures.
pub open spec fn wanted(b: Board, captures_only: bool) -> spec_fn(Move) -> bool {
    |m: Move|
        passes_legality(b, m) && m.src() != m.dest() && !takes_king(b, m) && (captures_only
            ==> captures(b, m))
}

/// Whether moves can be generated for `b` and played on it.
pub open spec fn ready(b: Board) -> bool {
    sound(b) && has_room(b)
}

/// The moves that a search expands: the pseudo-legal moves that are
/// wanted. A board that is not ready has none.
pub open spec fn legal_moves_of(b: Board) -> Seq<Move> {
    if ready(b) {
        pseudolegal_moves(b).filter(wanted(b, false))
    } else {
        Seq::empty()
    }
}

/// The moves that the quiescence search expands: the legal captures.
pub open spec fn capture_moves_of(b: Board) -> Seq<Move> {
    if ready(b) {
        pseudolegal_moves(b).filter(wanted(b, true))
    } else {
        Seq::empty()
    }
}

/// The moves that the notation codec goes through: the generator's legal
/// moves that are wanted. A board that is not ready has none.
pub open spec fn listed_moves_of(b: Board) -> Seq<Move> {
    if ready(b) {
        generated_moves(b).filter(wanted(b, false))
    } else {
        Seq::empty()
    }
}

/// Checkmate: in check, and the generator finds no legal move.
pub open spec fn checkmate(b: Board) -> bool {
    in_check(b) && sound(b) && generated_moves(b).len() == 0
}

/// What ends the game in a draw: not in check, and either no legal move or
/// fifty half-moves without a capture or a pawn move.
pub open spec fn stalemate(b: Board) -> bool {
    !in_check(b) && (halfmove_clock(b) >= 50 || (sound(b) && generated_moves(b).len() == 0))
}

/// Every move kept by a filter of the generator's output is playable and
/// is not the null move.
pub proof fn lemma_kept_moves_playable(b: Board, source: Seq<Move>, captures_only: bool, m: Move)
    requires
        ready(b),
        forall|k: int| 0 <= k < source.len() ==> is_generated(b, #[trigger] source[k]),
        source.filter(wanted(b, captures_only)).contains(m),
    ensures
        playable(b, m),
        !m.is_null(),
        captures_only ==> captures(b, m),
        source.contains(m),
{
    let kept = source.filter(wanted(b, captures_only));
    let j = choose|j: int| 0 <= j < kept.len() && kept[j] == m;
    source.lemma_filter_pred(wanted(b, captures_only), j);
    source.lemma_filter_contains_rev(wanted(b, captures_only), m);
}

/// No legal move is the null move.
pub proof fn lemma_legal_moves_not_null(b: Board, k: int)
    requires
        0 <= k < legal_moves_of(b).len(),
    ensures
        !legal_moves_of(b)[k].is_null(),
{
    pseudolegal_moves(b).lemma_filter_pred(wanted(b, false), k);
}

/// The board that a move makes of a copy of `b`.
pub open spec fn played_on_copy(b: Board, m: Move) -> Board {
    after_move(copied(b), m)
}

/// Plays a playable move on a copy of the board and hands the copy back.
pub fn play_on_copy(board: &Board, m: Move) -> (copy: Board)
    requires
        playable(*board, m),
    ensures
        copy == played_on_copy(*board, m),
        white_to_move(copy) == !white_to_move(*board),
{
    let mut copy = copy_board(board);
    proof {
        assert(contents(copy) =~= contents(*board));
        assert(piece_on(copy, m.dest()) == piece_on(*board, m.dest()));
        assert(passes_legality(copy, m) == passes_legality(*board, m));
    }
    apply_move(&mut copy, m);
    copy
}

/// Reads what stands on the 64 squares of the board.
pub fn squares_of(board: &Board) -> (squares: Vec<u8>)
    ensures
        squares@ == contents(*board),
{
    let mut squares: Vec<u8> = Vec::new();
    let mut sq: u8 = 0;
    while sq < 64
        invariant
            sq <= 64,
            squares.len() == sq,
            forall|k: int| 0 <= k < sq ==> squares[k] == piece_on(*board, k as u8),
        decreases 64 - sq,
    {
        squares.push(piece_at(board, sq));
        sq += 1;
    }
    squares
}

/// Whether moves can be generated for the board: a look over its squares,
/// its castling rights and its en-passant square.
pub fn is_sound(board: &Board) -> (ok: bool)
    ensures
        ok == sound(*board),
{
    let squares = squares_of(board);
    fits(&squares, white_moves(board), rights_of(board), en_passant_of(board))
}

/// Whether the board can count one more move.
pub fn has_room_left(board: &Board) -> (ok: bool)
    ensures
        ok == has_room(*board),
{
    played_of(board) < u16::MAX && depth_of(board) < u16::MAX && ply_of(board) < u16::MAX
        && clock_of(board) < i16::MAX
}

/// Whether moves can be generated for the board and played on it.
pub fn is_ready(board: &Board) -> (ok: bool)
    ensures
        ok == ready(*board),
{
    is_sound(board) && has_room_left(board)
}

/// The members of `candidates` that are wanted; their order is kept.
fn keep_wanted(board: &Board, candidates: &Vec<Move>, captures_only: bool) -> (kept: Vec<Move>)
    requires
        forall|k: int| 0 <= k < candidates.len() ==> is_generated(*board, #[trigger] candidates[k]),
    ensures
        kept@ == candidates@.filter(wanted(*board, captures_only)),
{
    let mut kept: Vec<Move> = Vec::new();
    let mut i: usize = 0;
    while i < candidates.len()
        invariant
            i <= candidates.len(),
            forall|k: int|
                0 <= k < candidates.len() ==> is_generated(*board, #[trigger] candidates[k]),
            kept@ == candidates@.take(i as int).filter(wanted(*board, captures_only)),
        decreases candidates.len() - i,
    {
        let m: Move = candidates[i];
        let keep: bool = legality(board, m) && m.src() != m.dest() && piece_at(board, m.dest())
            % 8 != 6 && (!captures_only || is_capture(board, m));
        proof {
            assert(candidates@.take(i + 1) == candidates@.take(i as int).push(m));
            candidates@.take(i as int).lemma_filter_push(m, wanted(*board, captures_only));
        }
        if keep {
            kept.push(m);
        }
        i += 1;
    }
    proof {
        assert(candidates@.take(candidates.len() as int) == candidates@);
    }
    kept
}

/// The legal moves of the position, in generation order. Each can be
/// played, and none is the null move.
pub fn legal_moves(board: &Board) -> (moves: Vec<Move>)
    ensures
        moves@ == legal_moves_of(*board),
        forall|k: int|
            0 <= k < moves.len() ==> playable(*board, #[trigger] moves[k]) && !moves[k].is_null(),
{
    if !is_ready(board) {
        return Vec::new();
    }
    let candidates = generate_pseudolegal(board);
    let moves = keep_wanted(board, &candidates, false);
    proof {
        assert forall|k: int| 0 <= k < moves.len() implies playable(
            *board,
            #[trigger] moves[k],
        ) && !moves[k].is_null() by {
            lemma_kept_moves_playable(*board, candidates@, false, moves[k]);
        }
    }
    moves
}

/// The legal captures of the position, in generation order.
pub fn capture_moves(board: &Board) -> (moves: Vec<Move>)
    ensures
        moves@ == capture_moves_of(*board),
        forall|k: int|
            0 <= k < moves.len() ==> playable(*board, #[trigger] moves[k]) && captures(
                *board,
                moves[k],
            ),
{
    if !is_ready(board) {
        return Vec::new();
    }
    let candidates = generate_pseudolegal(board);
    let moves = keep_wanted(board, &candidates, true);
    proof {
        assert forall|k: int| 0 <= k < moves.len() implies playable(
            *board,
            #[trigger] moves[k],
        ) && captures(*board, moves[k]) by {
            lemma_kept_moves_playable(*board, candidates@, true, moves[k]);
        }
    }
    moves
}

/// The generator's legal moves that are wanted. Each can be played, and
/// none is the null move.
pub fn listed_moves(board: &Board) -> (moves: Vec<Move>)
    ensures
        moves@ == listed_moves_of(*board),
        forall|k: int|
            0 <= k < moves.len() ==> playable(*board, #[trigger] moves[k]) && !moves[k].is_null(),
{
    if !is_ready(board) {
        return Vec::new();
    }
    let candidates = generate(board);
    let moves = keep_wanted(board, &candidates, false);
    proof {
        assert forall|k: int| 0 <= k < moves.len() implies playable(
            *board,
            #[trigger] moves[k],
        ) && !moves[k].is_null() by {
            lemma_kept_moves_playable(*board, candidates@, false, moves[k]);
        }
    }
    moves
}

/// Whether `m` is among `moves`.
pub fn holds_move(moves: &Vec<Move>, m: Move) -> (found: bool)
    ensures
        found == moves@.contains(m),
{
    let mut i: usize = 0;
    while i < moves.len()
        invariant
            i <= moves.len(),
            forall|k: int| 0 <= k < i ==> moves[k] != m,
        decreases moves.len() - i,
    {
        if moves[i] == m {
            return true;
        }
        i += 1;
    }
    false
}

/// Whether `m` is one of the moves that the codec lists for the position.
pub fn is_listed(board: &Board, m: Move) -> (listed: bool)
    ensures
        listed == listed_moves_of(*board).contains(m),
        listed ==> playable(*board, m) && !m.is_null(),
{
    let moves = listed_moves(board);
    holds_move(&moves, m)
}

/// Whether `m` is a legal move of the position: one that a search expands
/// or that the codec lists.
pub fn is_playable(board: &Board, m: Move) -> (found: bool)
    ensures
        found == (listed_moves_of(*board).contains(m) || legal_moves_of(*board).contains(m)),
        found ==> playable(*board, m) && !m.is_null(),
{
    if is_listed(board, m) {
        return true;
    }
    let moves = legal_moves(board);
    holds_move(&moves, m)
}

/// Whether playing `m` takes a piece off the board, judged by the board and
/// not by the move's own flag.
pub fn is_capture(board: &Board, m: Move) -> (capture: bool)
    ensures
        capture == captures(*board, m),
{
    (piece_at(board, m.dest()) != 0 && !m.is_castle()) || m.is_en_passant()
}

/// The piece that `m` moves: the one on its source square.
pub fn moved_piece(board: &Board, m: Move) -> (code: u8)
    ensures
        code == piece_on(*board, m.src()),
{
    piece_at(board, m.src())
}

/// The kind of piece that `m` takes: a pawn for an en-passant capture, else
/// the kind of what stands on the destination square (0 if it is empty).
pub open spec fn captured_kind_of(b: Board, m: Move) -> u8 {
    if m.is_en_passant() {
        1
    } else {
        kind_of(piece_on(b, m.dest()))
    }
}

pub fn captured_kind(board: &Board, m: Move) -> (kind: u8)
    ensures
        kind == captured_kind_of(*board, m),
{
    if m.is_en_passant() {
        1
    } else {
        piece_at(board, m.dest()) % 8
    }
}

/// Where no pseudo-legal move passes the legality test, none is wanted.
pub proof fn lemma_none_passing_none_wanted(source: Seq<Move>, b: Board, captures_only: bool)
    requires
        source.filter(passing(b)).len() == 0,
    ensures
        source.filter(wanted(b, captures_only)).len() == 0,
{
    let kept = source.filter(wanted(b, captures_only));
    if kept.len() > 0 {
        source.lemma_filter_pred(wanted(b, captures_only), 0);
        assert(kept.contains(kept[0]));
        source.lemma_filter_contains_rev(wanted(b, captures_only), kept[0]);
        let j = choose|j: int| 0 <= j < source.len() && source[j] == kept[0];
        source.lemma_filter_contains(passing(b), j);
        let passed = source.filter(passing(b));
        assert(passed.contains(source[j]));
    }
}

/// Whether the generator finds no legal move on a sound board. The search
/// then has no move either.
pub fn has_no_move(board: &Board) -> (none: bool)
    requires
        sound(*board),
    ensures
        none == (generated_moves(*board).len() == 0),
        none ==> legal_moves_of(*board).len() == 0 && capture_moves_of(*board).len() == 0
            && listed_moves_of(*board).len() == 0,
{
    let moves = generate(board);
    proof {
        if moves.len() == 0 {
            lemma_none_passing_none_wanted(pseudolegal_moves(*board), *board, false);
            lemma_none_passing_none_wanted(pseudolegal_moves(*board), *board, true);
            lemma_none_passing_none_wanted(generated_moves(*board), *board, false);
        }
    }
    moves.len() == 0
}

/// Whether the side to move is checkmated. The search then has no move.
pub fn is_checkmate(board: &Board) -> (mate: bool)
    ensures
        mate == checkmate(*board),
        mate ==> legal_moves_of(*board).len() == 0 && listed_moves_of(*board).len() == 0,
{
    checked(board) && is_sound(board) && has_no_move(board)
}

/// Whether the game is drawn. Unless the clock says so, the search then
/// has no move.
pub fn is_stalemate(board: &Board) -> (stale: bool)
    ensures
        stale == stalemate(*board),
        stale && halfmove_clock(*board) < 50 ==> legal_moves_of(*board).len() == 0
            && listed_moves_of(*board).len() == 0,
{
    !checked(board) && (clock_of(board) >= 50 || (is_sound(board) && has_no_move(board)))
}

} // verus!
