//! Moves as sixteen-bit values, in the layout of the `pleco` move generator:
//! the source square in the low six bits, the destination square in the next
//! six, and a four-bit flag on top.

use vstd::prelude::*;

verus! {

/// The flag of castling on the king's side.
pub const FLAG_KING_CASTLE: u16 = 2;

/// The flag of castling on the queen's side.
pub const FLAG_QUEEN_CASTLE: u16 = 3;

/// The flag of an en-passant capture.
pub const FLAG_EN_PASSANT: u16 = 5;

/// A move. Two moves are equal exactly when their sixteen bits are.
#[derive(Clone, Copy, PartialEq, Eq, Structural, Debug)]
pub struct Move {
    pub raw: u16,
}

impl Move {
    pub open spec fn spec_src(self) -> u8 {
        (self.raw % 64) as u8
    }

    pub open spec fn spec_dest(self) -> u8 {
        ((self.raw / 64) % 64) as u8
    }

    pub open spec fn spec_flag(self) -> u16 {
        self.raw / 4096
    }

    pub open spec fn spec_is_null(self) -> bool {
        self.raw == 0
    }

    pub open spec fn spec_is_capture(self) -> bool {
        (self.raw / 16384) % 2 == 1
    }

    pub open spec fn spec_is_castle(self) -> bool {
        self.raw / 8192 == 1
    }

    pub open spec fn spec_is_king_castle(self) -> bool {
        self.spec_flag() == FLAG_KING_CASTLE
    }

    pub open spec fn spec_is_queen_castle(self) -> bool {
        self.spec_flag() == FLAG_QUEEN_CASTLE
    }

    pub open spec fn spec_is_en_passant(self) -> bool {
        self.spec_flag() == FLAG_EN_PASSANT
    }

    /// The move that passes the turn: all bits zero.
    pub fn null() -> (m: Move)
        ensures
            m.raw == 0,
            m.is_null(),
    {
        Move { raw: 0 }
    }

    pub fn from_raw(raw: u16) -> (m: Move)
        ensures
            m.raw == raw,
    {
        Move { raw }
    }

    /// The square the piece leaves, 0 (a1) to 63 (h8).
    #[verifier::when_used_as_spec(spec_src)]
    pub fn src(self) -> (sq: u8)
        ensures
            sq == self.spec_src(),
            sq < 64,
    {
        (self.raw % 64) as u8
    }

    /// The square the piece arrives on; for castling, the rook's square.
    #[verifier::when_used_as_spec(spec_dest)]
    pub fn dest(self) -> (sq: u8)
        ensures
            sq == self.spec_dest(),
            sq < 64,
    {
        ((self.raw / 64) % 64) as u8
    }

    #[verifier::when_used_as_spec(spec_flag)]
    pub fn flag(self) -> (f: u16)
        ensures
            f == self.spec_flag(),
            f < 16,
    {
        self.raw / 4096
    }

    #[verifier::when_used_as_spec(spec_is_null)]
    pub fn is_null(self) -> (b: bool)
        ensures
            b == self.spec_is_null(),
    {
        self.raw == 0
    }

    /// Whether the move's own flag marks it as a capture.
    #[verifier::when_used_as_spec(spec_is_capture)]
    pub fn is_capture(self) -> (b: bool)
        ensures
            b == self.spec_is_capture(),
    {
        (self.raw / 16384) % 2 == 1
    }

    #[verifier::when_used_as_spec(spec_is_castle)]
    pub fn is_castle(self) -> (b: bool)
        ensures
            b == self.spec_is_castle(),
            b == (self.is_king_castle() || self.is_queen_castle()),
    {
        self.raw / 8192 == 1
    }

    #[verifier::when_used_as_spec(spec_is_king_castle)]
    pub fn is_king_castle(self) -> (b: bool)
        ensures
            b == self.spec_is_king_castle(),
    {
        self.raw / 4096 == FLAG_KING_CASTLE
    }

    #[verifier::when_used_as_spec(spec_is_queen_castle)]
    pub fn is_queen_castle(self) -> (b: bool)
        ensures
            b == self.spec_is_queen_castle(),
    {
        self.raw / 4096 == FLAG_QUEEN_CASTLE
    }

    #[verifier::when_used_as_spec(spec_is_en_passant)]
    pub fn is_en_passant(self) -> (b: bool)
        ensures
            b == self.spec_is_en_passant(),
    {
        self.raw / 4096 == FLAG_EN_PASSANT
    }
}

} // verus!
