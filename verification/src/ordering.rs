//! Move ordering: the killer and history tables, the score of a move, and
//! the stable sort that puts the most promising moves first.

use crate::eval::{material_of, piece_value};
use crate::moves::Move;
use crate::position::{
    captured_kind, captured_kind_of, captures, is_capture, kind_of, moved_piece, piece_on,
};
use pleco::Board;
use vstd::prelude::*;

verus! {

/// The number of plies that the killer table tells apart; a ply beyond it
/// wraps around.
pub const MAX_PLY: usize = 64;

/// The largest value that a history entry takes. An entry that would grow
/// past it stays there, so that the score of a quiet move always fits.
pub const HISTORY_MAX: i32 = 2_147_482_647;

/// What a search remembers from one call to the next: for every ply two
/// killer moves, and for every kind of piece and destination square a
/// history count.
pub struct SearchContext {
    /// Two slots per ply, `MAX_PLY` plies; a null move marks an empty slot.
    pub killers: Vec<Move>,
    /// 64 entries per kind of piece, pawn to king.
    pub history: Vec<i32>,
}

/// The two tables as sequences.
pub struct ContextView {
    pub killers: Seq<Move>,
    pub history: Seq<i32>,
}

impl View for SearchContext {
    type V = ContextView;

    open spec fn view(&self) -> ContextView {
        ContextView { killers: self.killers@, history: self.history@ }
    }
}

impl ContextView {
    /// Both tables have their full size, and every history count lies
    /// between 0 and `HISTORY_MAX`.
    pub open spec fn wf(self) -> bool {
        &&& self.killers.len() == 2 * MAX_PLY
        &&& self.history.len() == 6 * 64
        &&& forall|i: int|
            0 <= i < self.history.len() ==> 0 <= #[trigger] self.history[i] <= HISTORY_MAX
    }

    /// Whether `later` may follow `self`: every killer slot that was taken
    /// holds the same move, and no history count has gone down.
    pub open spec fn kept_by(self, later: ContextView) -> bool {
        &&& forall|i: int|
            0 <= i < self.killers.len() && !(#[trigger] self.killers[i]).is_null()
                ==> later.killers[i] == self.killers[i]
        &&& forall|i: int|
            0 <= i < self.history.len() ==> #[trigger] self.history[i] <= later.history[i]
    }

    /// The tables after `m` caused a cutoff at `ply`: the move fills the
    /// first empty killer slot of that ply, if there is one.
    pub open spec fn with_killer(self, ply: u16, m: Move) -> ContextView {
        let slot = 2 * (ply as int % 64);
        if self.killers[slot].is_null() {
            ContextView { killers: self.killers.update(slot, m), history: self.history }
        } else if self.killers[slot + 1].is_null() {
            ContextView { killers: self.killers.update(slot + 1, m), history: self.history }
        } else {
            self
        }
    }

    /// The tables after a piece of `kind` going to `dest` caused a cutoff in
    /// a search of `depth` plies: its count grows by the square of the depth.
    pub open spec fn with_history(self, kind: u8, dest: u8, depth: u8) -> ContextView {
        let index = history_index(kind, dest);
        let grown = self.history[index] + depth * depth;
        ContextView {
            killers: self.killers,
            history: self.history.update(
                index,
                if grown > HISTORY_MAX {
                    HISTORY_MAX
                } else {
                    grown as i32
                },
            ),
        }
    }

    /// The tables after the move `m`, made by a piece of `kind`, cut a node
    /// off at `ply` in a search of `depth` plies.
    pub open spec fn with_cutoff(self, ply: u16, m: Move, kind: u8, depth: u8) -> ContextView {
        self.with_killer(ply, m).with_history(kind, m.dest(), depth)
    }
}

/// Where the history table keeps the count of a kind of piece going to a
/// square. What is no piece counts as a pawn.
pub open spec fn history_index(kind: u8, dest: u8) -> int {
    if 1 <= kind <= 6 {
        (kind - 1) * 64 + dest % 64
    } else {
        (dest % 64) as int
    }
}

/// The ordering score of `m` on `b`.
///
/// A capture scores 10000 plus a hundred times the value of what it takes,
/// minus the value of what takes. A quiet move that is one of the two
/// killers recorded for ply 0 scores 9000. Any other quiet move scores its
/// history count plus 1000.
pub open spec fn move_score(b: Board, m: Move, ctx: ContextView) -> int {
    rank_of(m, captures(b, m), captured_kind_of(b, m), kind_of(piece_on(b, m.src())), ctx)
}

/// The ordering score of `m`, given whether it captures, the kind of piece
/// it takes and the kind of piece it moves.
pub open spec fn rank_of(m: Move, capture: bool, victim: u8, mover: u8, ctx: ContextView) -> int {
    if capture {
        10000 + material_of(victim) * 100 - material_of(mover)
    } else if m == ctx.killers[0] || m == ctx.killers[1] {
        9000
    } else {
        ctx.history[history_index(mover, m.dest())] + 1000
    }
}

/// The score as a sort key.
pub open spec fn score_key(b: Board, ctx: ContextView) -> spec_fn(Move) -> int {
    |m: Move| move_score(b, m, ctx)
}

/// Where a move with key `k` goes into `sorted`: behind the last move whose
/// key is at least `k`.
pub open spec fn slot_for(sorted: Seq<Move>, k: int, key: spec_fn(Move) -> int) -> int
    decreases sorted.len(),
{
    if sorted.len() == 0 {
        0
    } else if key(sorted.last()) >= k {
        sorted.len() as int
    } else {
        slot_for(sorted.drop_last(), k, key)
    }
}

/// `moves` sorted by falling key, moves of equal key in their old order:
/// each move in turn is put behind the last of those before it whose key is
/// no smaller.
pub open spec fn ordered(moves: Seq<Move>, key: spec_fn(Move) -> int) -> Seq<Move>
    decreases moves.len(),
{
    if moves.len() == 0 {
        moves
    } else {
        let front = ordered(moves.drop_last(), key);
        front.insert(slot_for(front, key(moves.last()), key), moves.last())
    }
}

/// Whether the keys never rise along `moves`.
pub open spec fn falling(moves: Seq<Move>, key: spec_fn(Move) -> int) -> bool {
    forall|i: int, j: int| 0 <= i <= j < moves.len() ==> key(moves[i]) >= key(moves[j])
}

/// In a falling sequence the slot for `k` is within bounds, everything
/// before it has a key of at least `k` and everything from it on a smaller
/// one.
pub proof fn lemma_slot_splits(sorted: Seq<Move>, k: int, key: spec_fn(Move) -> int)
    requires
        falling(sorted, key),
    ensures
        0 <= slot_for(sorted, k, key) <= sorted.len(),
        forall|i: int| 0 <= i < slot_for(sorted, k, key) ==> key(sorted[i]) >= k,
        forall|i: int| slot_for(sorted, k, key) <= i < sorted.len() ==> key(sorted[i]) < k,
    decreases sorted.len(),
{
    if sorted.len() > 0 && key(sorted.last()) < k {
        let front = sorted.drop_last();
        assert(falling(front, key)) by {
            assert forall|i: int, j: int| 0 <= i <= j < front.len() implies key(front[i]) >= key(
                front[j],
            ) by {
            }
        }
        lemma_slot_splits(front, k, key);
        assert forall|i: int| 0 <= i < slot_for(sorted, k, key) implies key(sorted[i]) >= k by {
            assert(front[i] == sorted[i]);
        }
        assert forall|i: int| slot_for(sorted, k, key) <= i < sorted.len() implies key(sorted[i])
            < k by {
            if i < front.len() {
                assert(front[i] == sorted[i]);
            }
        }
    }
}

/// The sorted sequence holds the same moves, each as often as before, and
/// its keys never rise.
pub proof fn lemma_ordered_is_falling_permutation(moves: Seq<Move>, key: spec_fn(Move) -> int)
    ensures
        ordered(moves, key).len() == moves.len(),
        ordered(moves, key).to_multiset() == moves.to_multiset(),
        falling(ordered(moves, key), key),
    decreases moves.len(),
{
    broadcast use vstd::seq_lib::group_to_multiset_ensures;

    if moves.len() == 0 {
    } else {
        let front = ordered(moves.drop_last(), key);
        let m = moves.last();
        let at = slot_for(front, key(m), key);
        lemma_ordered_is_falling_permutation(moves.drop_last(), key);
        lemma_slot_splits(front, key(m), key);
        let out = front.insert(at, m);
        assert forall|i: int, j: int| 0 <= i <= j < out.len() implies key(out[i]) >= key(
            out[j],
        ) by {
            let a = if i < at { i } else { i - 1 };
            let b = if j < at { j } else { j - 1 };
            if i != at {
            }
            if j != at {
            }
        }
        assert(moves == moves.drop_last().push(m));
        vstd::seq_lib::to_multiset_insert(front, at, m);
    }
}

/// The relation carries over a chain of tables: if the second may follow
/// the first and the third the second, the third may follow the first.
pub proof fn lemma_kept_by_chains(first: ContextView, second: ContextView, third: ContextView)
    requires
        first.wf(),
        second.wf(),
        first.kept_by(second),
        second.kept_by(third),
    ensures
        first.kept_by(third),
{
    assert forall|i: int|
        0 <= i < first.killers.len() && !(#[trigger] first.killers[i]).is_null()
        implies third.killers[i] == first.killers[i] by {
        assert(second.killers[i] == first.killers[i]);
    }
    assert forall|i: int| 0 <= i < first.history.len() implies #[trigger] first.history[i]
        <= third.history[i] by {
        assert(first.history[i] <= second.history[i]);
    }
}

impl SearchContext {
    /// Empty tables: no killers, every history count 0.
    pub fn new() -> (ctx: Self)
        ensures
            ctx@.wf(),
            forall|i: int| 0 <= i < ctx@.killers.len() ==> ctx@.killers[i].is_null(),
            forall|i: int| 0 <= i < ctx@.history.len() ==> ctx@.history[i] == 0,
    {
        let mut killers: Vec<Move> = Vec::new();
        while killers.len() < 2 * MAX_PLY
            invariant
                killers.len() <= 2 * MAX_PLY,
                forall|i: int| 0 <= i < killers.len() ==> killers[i].is_null(),
            decreases 2 * MAX_PLY - killers.len(),
        {
            killers.push(Move::null());
        }
        let mut history: Vec<i32> = Vec::new();
        while history.len() < 6 * 64
            invariant
                history.len() <= 6 * 64,
                forall|i: int| 0 <= i < history.len() ==> history[i] == 0,
            decreases 6 * 64 - history.len(),
        {
            history.push(0);
        }
        SearchContext { killers, history }
    }

    /// Whether both tables have their full size and every history count is
    /// in range, as every function that takes the tables asks.
    pub fn is_valid(&self) -> (valid: bool)
        ensures
            valid == self@.wf(),
    {
        if self.killers.len() != 2 * MAX_PLY || self.history.len() != 6 * 64 {
            return false;
        }
        let mut i: usize = 0;
        while i < self.history.len()
            invariant
                i <= self.history.len(),
                forall|k: int| 0 <= k < i ==> 0 <= #[trigger] self.history[k] <= HISTORY_MAX,
            decreases self.history.len() - i,
        {
            if self.history[i] < 0 || self.history[i] > HISTORY_MAX {
                return false;
            }
            i += 1;
        }
        true
    }

    /// Sets every history count back to 0 and empties every killer slot.
    pub fn reset(&mut self)
        ensures
            final(self)@.wf(),
            forall|i: int|
                0 <= i < final(self)@.killers.len() ==> final(self)@.killers[i].is_null(),
            forall|i: int|
                0 <= i < final(self)@.history.len() ==> final(self)@.history[i] == 0,
    {
        *self = SearchContext::new();
    }

    /// Notes that `m` caused a cutoff at `ply`. A ply whose two slots are
    /// taken keeps them.
    pub fn record_killer(&mut self, ply: u16, m: Move)
        requires
            old(self)@.wf(),
        ensures
            final(self)@ == old(self)@.with_killer(ply, m),
            final(self)@.wf(),
            old(self)@.kept_by(final(self)@),
    {
        let slot: usize = 2 * (ply as usize % MAX_PLY);
        if self.killers[slot].is_null() {
            self.killers.set(slot, m);
        } else if self.killers[slot + 1].is_null() {
            self.killers.set(slot + 1, m);
        }
    }

    /// Adds the square of `depth` to the count of `kind` going to `dest`.
    pub fn add_history(&mut self, kind: u8, dest: u8, depth: u8)
        requires
            old(self)@.wf(),
        ensures
            final(self)@ == old(self)@.with_history(kind, dest, depth),
            final(self)@.wf(),
            old(self)@.kept_by(final(self)@),
    {
        let row: usize = if 1 <= kind && kind <= 6 {
            (kind - 1) as usize
        } else {
            0
        };
        let index: usize = row * 64 + (dest % 64) as usize;
        assert(0 <= depth * depth <= 65025) by (nonlinear_arith)
            requires
                0 <= depth <= 255,
        ;
        let gain: i32 = depth as i32 * depth as i32;
        let count: i32 = self.history[index];
        let grown: i32 = if count > HISTORY_MAX - gain {
            HISTORY_MAX
        } else {
            count + gain
        };
        self.history.set(index, grown);
    }

    /// The history count of `kind` going to `dest`.
    pub fn history_of(&self, kind: u8, dest: u8) -> (count: i32)
        requires
            self@.wf(),
        ensures
            count == self@.history[history_index(kind, dest)],
            0 <= count <= HISTORY_MAX,
    {
        let row: usize = if 1 <= kind && kind <= 6 {
            (kind - 1) as usize
        } else {
            0
        };
        self.history[row * 64 + (dest % 64) as usize]
    }
}

/// The ordering score of a move, given whether it captures, the kind of
/// piece it takes and the kind of piece it moves.
pub fn rank_move(
    m: Move,
    capture: bool,
    victim: u8,
    mover: u8,
    ctx: &SearchContext,
) -> (score: i32)
    requires
        ctx@.wf(),
    ensures
        score == rank_of(m, capture, victim, mover, ctx@),
{
    if capture {
        10000 + piece_value(victim) * 100 - piece_value(mover)
    } else if m == ctx.killers[0] || m == ctx.killers[1] {
        9000
    } else {
        ctx.history_of(mover, m.dest()) + 1000
    }
}

/// The ordering score of `m`: high for what should be searched first.
pub fn score_move(m: Move, board: &Board, ctx: &SearchContext) -> (score: i32)
    requires
        ctx@.wf(),
    ensures
        score == move_score(*board, m, ctx@),
{
    rank_move(
        m,
        is_capture(board, m),
        captured_kind(board, m),
        moved_piece(board, m) % 8,
        ctx,
    )
}

/// Whether `scores` gives one score to each of `moves`, the same to equal
/// moves.
pub open spec fn scores_agree(moves: Seq<Move>, scores: Seq<i32>) -> bool {
    &&& scores.len() == moves.len()
    &&& forall|i: int, j: int|
        0 <= i < moves.len() && 0 <= j < moves.len() && moves[i] == moves[j] ==> scores[i]
            == scores[j]
}

/// The score that `scores` gives to a move of `moves`, as a sort key.
pub open spec fn listed_score(moves: Seq<Move>, scores: Seq<i32>) -> spec_fn(Move) -> int {
    |m: Move|
        if moves.contains(m) {
            scores[moves.index_of(m)] as int
        } else {
            0
        }
}

/// If `sorted` holds the same moves as `moves`, each as often, then each
/// move of `sorted` is one of `moves`.
pub proof fn lemma_same_members(moves: Seq<Move>, sorted: Seq<Move>, k: int)
    requires
        sorted.to_multiset() == moves.to_multiset(),
        0 <= k < sorted.len(),
    ensures
        moves.contains(sorted[k]),
{
    moves.to_multiset_ensures();
    sorted.to_multiset_ensures();
    assert(sorted.contains(sorted[k]));
    assert(sorted.to_multiset().count(sorted[k]) > 0);
}

/// Two keys that agree on every move of a sequence give the same slot in
/// it.
pub proof fn lemma_slot_follows_the_keys(
    sorted: Seq<Move>,
    k: int,
    one: spec_fn(Move) -> int,
    other: spec_fn(Move) -> int,
)
    requires
        forall|i: int| 0 <= i < sorted.len() ==> one(#[trigger] sorted[i]) == other(sorted[i]),
    ensures
        slot_for(sorted, k, one) == slot_for(sorted, k, other),
    decreases sorted.len(),
{
    if sorted.len() > 0 {
        let front = sorted.drop_last();
        assert forall|i: int| 0 <= i < front.len() implies one(#[trigger] front[i]) == other(
            front[i],
        ) by {
            assert(front[i] == sorted[i]);
        }
        lemma_slot_follows_the_keys(front, k, one, other);
    }
}

/// Two keys that agree on every move of `moves` order it alike.
pub proof fn lemma_ordered_follows_the_keys(
    moves: Seq<Move>,
    one: spec_fn(Move) -> int,
    other: spec_fn(Move) -> int,
)
    requires
        forall|i: int| 0 <= i < moves.len() ==> one(#[trigger] moves[i]) == other(moves[i]),
    ensures
        ordered(moves, one) == ordered(moves, other),
    decreases moves.len(),
{
    if moves.len() > 0 {
        let rest = moves.drop_last();
        assert forall|i: int| 0 <= i < rest.len() implies one(#[trigger] rest[i]) == other(
            rest[i],
        ) by {
            assert(rest[i] == moves[i]);
        }
        lemma_ordered_follows_the_keys(rest, one, other);
        let front = ordered(rest, one);
        lemma_ordered_is_falling_permutation(rest, one);
        assert forall|i: int| 0 <= i < front.len() implies one(#[trigger] front[i]) == other(
            front[i],
        ) by {
            lemma_same_members(rest, front, i);
            let j = choose|j: int| 0 <= j < rest.len() && rest[j] == front[i];
            assert(one(rest[j]) == other(rest[j]));
        }
        lemma_slot_follows_the_keys(front, one(moves.last()), one, other);
    }
}

/// Sorts `moves` by falling score, where `scores` holds the score of each
/// move. Moves of equal score keep their order.
pub fn sort_by_scores(moves: &Vec<Move>, scores: &Vec<i32>) -> (sorted: Vec<Move>)
    requires
        scores_agree(moves@, scores@),
    ensures
        sorted@ == ordered(moves@, listed_score(moves@, scores@)),
        sorted@.len() == moves@.len(),
        sorted@.to_multiset() == moves@.to_multiset(),
        falling(sorted@, listed_score(moves@, scores@)),
{
    let ghost key = listed_score(moves@, scores@);
    proof {
        assert forall|k: int| 0 <= k < moves.len() implies key(#[trigger] moves[k])
            == scores[k] by {
            assert(moves@.contains(moves[k]));
        }
    }
    let mut sorted: Vec<Move> = Vec::new();
    let mut placed: Vec<i32> = Vec::new();
    let mut i: usize = 0;
    while i < moves.len()
        invariant
            i <= moves.len(),
            scores.len() == moves.len(),
            forall|k: int| 0 <= k < moves.len() ==> key(#[trigger] moves[k]) == scores[k],
            sorted@ == ordered(moves@.take(i as int), key),
            placed.len() == sorted.len(),
            forall|k: int| 0 <= k < sorted.len() ==> placed[k] == key(#[trigger] sorted[k]),
        decreases moves.len() - i,
    {
        let m: Move = moves[i];
        let score: i32 = scores[i];
        let mut at: usize = sorted.len();
        assert(sorted@.take(at as int) == sorted@);
        while at > 0 && placed[at - 1] < score
            invariant
                at <= sorted.len(),
                placed.len() == sorted.len(),
                forall|k: int| 0 <= k < sorted.len() ==> placed[k] == key(#[trigger] sorted[k]),
                slot_for(sorted@, score as int, key) == slot_for(
                    sorted@.take(at as int),
                    score as int,
                    key,
                ),
            decreases at,
        {
            assert(sorted@.take(at as int).drop_last() == sorted@.take(at - 1));
            at -= 1;
        }
        assert(moves@.take(i + 1).drop_last() == moves@.take(i as int));
        sorted.insert(at, m);
        placed.insert(at, score);
        i += 1;
    }
    proof {
        assert(moves@.take(moves.len() as int) == moves@);
        lemma_ordered_is_falling_permutation(moves@, key);
    }
    sorted
}

/// Sorts `moves` by falling score. Moves of equal score keep their order.
pub fn order_moves(moves: &mut Vec<Move>, board: &Board, ctx: &SearchContext)
    requires
        ctx@.wf(),
    ensures
        final(moves)@ == ordered(old(moves)@, score_key(*board, ctx@)),
        final(moves)@.len() == old(moves)@.len(),
        final(moves)@.to_multiset() == old(moves)@.to_multiset(),
        forall|k: int|
            0 <= k < final(moves)@.len() ==> old(moves)@.contains(#[trigger] final(moves)@[k]),
        falling(final(moves)@, score_key(*board, ctx@)),
{
    let ghost key = score_key(*board, ctx@);
    let mut scores: Vec<i32> = Vec::new();
    let mut i: usize = 0;
    while i < moves.len()
        invariant
            i <= moves.len(),
            ctx@.wf(),
            key == score_key(*board, ctx@),
            moves@ == old(moves)@,
            scores.len() == i,
            forall|k: int| 0 <= k < i ==> scores[k] == key(#[trigger] moves[k]),
        decreases moves.len() - i,
    {
        scores.push(score_move(moves[i], board, ctx));
        i += 1;
    }
    let sorted = sort_by_scores(moves, &scores);
    proof {
        let listed = listed_score(moves@, scores@);
        assert forall|k: int| 0 <= k < moves.len() implies listed(#[trigger] moves[k]) == key(
            moves[k],
        ) by {
            assert(moves@.contains(moves[k]));
        }
        lemma_ordered_follows_the_keys(moves@, listed, key);
        lemma_ordered_is_falling_permutation(moves@, key);
        assert forall|k: int| 0 <= k < sorted.len() implies moves@.contains(
            #[trigger] sorted[k],
        ) by {
            lemma_same_members(moves@, sorted@, k);
        }
    }
    *moves = sorted;
}

} // verus!
