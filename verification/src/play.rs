//! Move record: origin square, destination square and a flag byte naming the
//! special-move kind or the promotion piece.

use vstd::prelude::*;

verus! {

/// Quiet move or plain capture.
pub const FLAG_QUIET: u8 = 0;

/// Pawn advance of two ranks from its starting rank.
pub const FLAG_DOUBLE_PUSH: u8 = 1;

/// King-side castle.
pub const FLAG_CASTLE_KING: u8 = 2;

/// Queen-side castle.
pub const FLAG_CASTLE_QUEEN: u8 = 3;

/// En passant capture.
pub const FLAG_EN_PASSANT: u8 = 4;

/// Promotion to a knight.
pub const FLAG_PROMO_KNIGHT: u8 = 5;

/// Promotion to a bishop.
pub const FLAG_PROMO_BISHOP: u8 = 6;

/// Promotion to a rook.
pub const FLAG_PROMO_ROOK: u8 = 7;

/// Promotion to a queen.
pub const FLAG_PROMO_QUEEN: u8 = 8;

/// One candidate move: origin square index, destination square index and a
/// flag byte. Square indices run from a1 = 0 to h8 = 63, rank by rank.
#[derive(Clone, Copy, PartialEq, Eq, Structural, Debug)]
pub struct Play {
    pub org: u8,
    pub dst: u8,
    pub flag: u8,
}

/// True of the four promotion flags.
pub open spec fn is_promo_flag(flag: u8) -> bool {
    FLAG_PROMO_KNIGHT <= flag <= FLAG_PROMO_QUEEN
}

/// Kind code a promotion flag promotes to.
pub open spec fn promo_kind(flag: u8) -> u8 {
    if flag == FLAG_PROMO_KNIGHT {
        2
    } else if flag == FLAG_PROMO_BISHOP {
        3
    } else if flag == FLAG_PROMO_ROOK {
        4
    } else {
        5
    }
}

impl Default for Play {
    /// The sentinel record standing for "no move" in fixed-size buffers.
    fn default() -> (r: Play)
        ensures
            r.org == 255,
            r.dst == 255,
            r.flag == 0,
    {
        Play { org: 255, dst: 255, flag: 0 }
    }
}

} // verus!
