//! Position record and move executor: the board of 64 packed piece bytes,
//! the side to move, the castling rights and the en passant target, together
//! with the transformation one move applies to them.

use vstd::prelude::*;

use crate::piece::COLOUR_SHIFT;
use crate::piece::Piece;
use crate::piece::colour_bit;
use crate::piece::kind_bits;
use crate::piece::wf_piece;
use crate::play::FLAG_CASTLE_KING;
use crate::play::FLAG_CASTLE_QUEEN;
use crate::play::FLAG_DOUBLE_PUSH;
use crate::play::FLAG_EN_PASSANT;
use crate::play::Play;
use crate::play::is_promo_flag;
use crate::play::promo_kind;

verus! {

broadcast use vstd::array::group_array_axioms;

/// Sentinel stored in `en_passant` when no square is eligible.
pub const NO_EN_PASSANT: u8 = 255;

/// White may castle king-side.
pub const CASTLE_WHITE_KING: u8 = 1;

/// White may castle queen-side.
pub const CASTLE_WHITE_QUEEN: u8 = 2;

/// Black may castle king-side.
pub const CASTLE_BLACK_KING: u8 = 4;

/// Black may castle queen-side.
pub const CASTLE_BLACK_QUEEN: u8 = 8;

/// A chess position: 64 squares indexed rank by rank from a1 = 0 to h8 = 63,
/// the colour to move, one bit per castling right, and the en passant target
/// square or its sentinel.
#[derive(Clone, Copy, PartialEq, Eq, Debug)]
pub struct Match {
    pub board: [Piece; 64],
    pub turn: u8,
    pub castling_rights: u8,
    pub en_passant: u8,
}

/// Mathematical model of a position: the board as a sequence of piece bytes
/// beside the three scalar fields.
#[verifier::ext_equal]
pub struct MatchV {
    pub board: Seq<Piece>,
    pub turn: u8,
    pub castling_rights: u8,
    pub en_passant: u8,
}

impl View for Match {
    type V = MatchV;

    open spec fn view(&self) -> MatchV {
        MatchV {
            board: self.board@,
            turn: self.turn,
            castling_rights: self.castling_rights,
            en_passant: self.en_passant,
        }
    }
}

/// Rank (0 to 7) of a square index.
pub open spec fn rank_of(i: int) -> int {
    i / 8
}

/// File (0 to 7) of a square index.
pub open spec fn file_of(i: int) -> int {
    i % 8
}

/// The square holds a piece.
pub open spec fn occupied(b: Seq<Piece>, i: int) -> bool {
    kind_bits(b[i]) != 0
}

/// Kind code of the piece on a square.
pub open spec fn kind_at(b: Seq<Piece>, i: int) -> u8 {
    kind_bits(b[i])
}

/// Colour bit of the piece on a square.
pub open spec fn colour_at(b: Seq<Piece>, i: int) -> u8 {
    colour_bit(b[i])
}

/// The other side's colour code.
pub open spec fn opposite(c: u8) -> u8 {
    if c == 0 {
        1
    } else {
        0
    }
}

/// Every square holds a decodable piece byte.
pub open spec fn wf_board(b: Seq<Piece>) -> bool {
    &&& b.len() == 64
    &&& forall|i: int| 0 <= i < 64 ==> wf_piece(b[i])
}

/// A structurally sound position: decodable board, a real colour to move,
/// rights within the four flag bits, en passant a square or the sentinel.
pub open spec fn wf_state(m: MatchV) -> bool {
    &&& wf_board(m.board)
    &&& m.turn <= 1
    &&& m.castling_rights < 16
    &&& (m.en_passant == NO_EN_PASSANT || m.en_passant < 64)
}

/// Castling-right bits that survive a piece moving from, onto or off the
/// given square: a king or rook home square clears its side's bits.
pub open spec fn rights_mask(sq: u8) -> u8 {
    if sq == 0 {
        13
    } else if sq == 4 {
        12
    } else if sq == 7 {
        14
    } else if sq == 56 {
        7
    } else if sq == 60 {
        3
    } else if sq == 63 {
        11
    } else {
        15
    }
}

/// The position one move produces, step by step: relocate the mover, remove
/// an en-passant victim, relocate the castling rook, substitute the promotion
/// piece, mask the castling rights, set or clear the en passant target and
/// flip the side to move.
pub open spec fn step(m: MatchV, p: Play) -> MatchV
    recommends
        p.org < 64,
        p.dst < 64,
        m.board.len() == 64,
{
    let org = p.org as int;
    let dst = p.dst as int;
    let mover = m.board[org];
    let b1 = m.board.update(org, Piece(0)).update(dst, mover);
    let b2 = if p.flag == FLAG_EN_PASSANT {
        b1.update((org / 8) * 8 + (dst % 8), Piece(0))
    } else {
        b1
    };
    let b3 = if p.flag == FLAG_CASTLE_KING && p.dst >= 1 && p.dst + 1 < 64 {
        b2.update(dst + 1, Piece(0)).update(dst - 1, b2[dst + 1])
    } else if p.flag == FLAG_CASTLE_QUEEN && p.dst >= 2 && p.dst + 1 < 64 {
        b2.update(dst - 2, Piece(0)).update(dst + 1, b2[dst - 2])
    } else {
        b2
    };
    let b4 = if is_promo_flag(p.flag) {
        b3.update(dst, Piece(promo_kind(p.flag) | (colour_bit(mover) << COLOUR_SHIFT)))
    } else {
        b3
    };
    MatchV {
        board: b4,
        turn: if m.turn == 0 { 1 } else { 0 },
        castling_rights: m.castling_rights & rights_mask(p.org) & rights_mask(p.dst),
        en_passant: if p.flag == FLAG_DOUBLE_PUSH {
            (((p.org + p.dst) / 2) as u8)
        } else {
            NO_EN_PASSANT
        },
    }
}

/// Castling-right bits that survive a move, as an executable mask.
fn rights_mask_exec(sq: u8) -> (m: u8)
    ensures
        m == rights_mask(sq),
{
    if sq == 0 {
        13
    } else if sq == 4 {
        12
    } else if sq == 7 {
        14
    } else if sq == 56 {
        7
    } else if sq == 60 {
        3
    } else if sq == 63 {
        11
    } else {
        15
    }
}

impl Match {
    /// A blank record: every square empty, every scalar field zero.
    pub fn empty() -> (m: Match)
        ensures
            m@.board.len() == 64,
            forall|i: int| 0 <= i < 64 ==> m@.board[i] == Piece(0),
            m@.turn == 0,
            m@.castling_rights == 0,
            m@.en_passant == 0,
    {
        Match { board: [Piece(0); 64], turn: 0, castling_rights: 0, en_passant: 0 }
    }

    /// Applies one move. A move whose squares are out of range leaves the
    /// position untouched; any other move produces exactly the successor
    /// position that `step` describes. Legality is the generator's business:
    /// this function trusts its caller to hand it a generated move.
    pub fn execute(&mut self, play: Play)
        ensures
            play.org < 64 && play.dst < 64 ==> final(self)@ == step(old(self)@, play),
            !(play.org < 64 && play.dst < 64) ==> *final(self) == *old(self),
    {
        if !(play.org < 64 && play.dst < 64) {
            return ;
        }
        let org = play.org as usize;
        let dst = play.dst as usize;
        let mover = self.board[org];
        self.board[org] = Piece(0);
        self.board[dst] = mover;
        if play.flag == FLAG_EN_PASSANT {
            let victim = (org / 8) * 8 + dst % 8;
            self.board[victim] = Piece(0);
        }
        if play.flag == FLAG_CASTLE_KING && play.dst >= 1 && play.dst + 1 < 64 {
            let rook = self.board[dst + 1];
            self.board[dst + 1] = Piece(0);
            self.board[dst - 1] = rook;
        } else if play.flag == FLAG_CASTLE_QUEEN && play.dst >= 2 && play.dst + 1 < 64 {
            let rook = self.board[dst - 2];
            self.board[dst - 2] = Piece(0);
            self.board[dst + 1] = rook;
        }
        if 5 <= play.flag && play.flag <= 8 {
            let kind: u8 = if play.flag == 5 {
                2
            } else if play.flag == 6 {
                3
            } else if play.flag == 7 {
                4
            } else {
                5
            };
            let col = (mover.0 >> COLOUR_SHIFT) & 1;
            proof {
                let b = mover.0;
                assert(((b >> 4u8) & 1) <= 1) by (bit_vector);
            }
            self.board[dst] = Piece::new(kind, col);
        }
        self.castling_rights = self.castling_rights & rights_mask_exec(play.org)
            & rights_mask_exec(play.dst);
        self.en_passant = if play.flag == FLAG_DOUBLE_PUSH {
            (play.org + play.dst) / 2
        } else {
            NO_EN_PASSANT
        };
        self.turn = if self.turn == 0 {
            1
        } else {
            0
        };
        proof {
            assert(self@ =~= step(old(self)@, play));
        }
    }
}

/// The piece standing on each square in the standard starting position.
pub open spec fn start_piece(i: int) -> Piece {
    if i == 0 || i == 7 {
        Piece(4)
    } else if i == 1 || i == 6 {
        Piece(2)
    } else if i == 2 || i == 5 {
        Piece(3)
    } else if i == 3 {
        Piece(5)
    } else if i == 4 {
        Piece(6)
    } else if 8 <= i < 16 {
        Piece(1)
    } else if 48 <= i < 56 {
        Piece(17)
    } else if i == 56 || i == 63 {
        Piece(20)
    } else if i == 57 || i == 62 {
        Piece(18)
    } else if i == 58 || i == 61 {
        Piece(19)
    } else if i == 59 {
        Piece(21)
    } else if i == 60 {
        Piece(22)
    } else {
        Piece(0)
    }
}

/// The standard starting position: both back ranks set up, all pawns on
/// their second rank, white to move, all four castling rights, no en passant
/// target.
pub open spec fn start_state() -> MatchV {
    MatchV {
        board: Seq::new(64, |i: int| start_piece(i)),
        turn: 0,
        castling_rights: 15,
        en_passant: NO_EN_PASSANT,
    }
}

impl Default for Match {
    /// The standard chess starting position.
    fn default() -> (m: Match)
        ensures
            m@ == start_state(),
            wf_state(m@),
    {
        let mut board: [Piece; 64] = vstd::array::array_fill_for_copy_types(Piece(0));
        board[0] = Piece(4);
        board[1] = Piece(2);
        board[2] = Piece(3);
        board[3] = Piece(5);
        board[4] = Piece(6);
        board[5] = Piece(3);
        board[6] = Piece(2);
        board[7] = Piece(4);
        board[8] = Piece(1);
        board[9] = Piece(1);
        board[10] = Piece(1);
        board[11] = Piece(1);
        board[12] = Piece(1);
        board[13] = Piece(1);
        board[14] = Piece(1);
        board[15] = Piece(1);
        board[48] = Piece(17);
        board[49] = Piece(17);
        board[50] = Piece(17);
        board[51] = Piece(17);
        board[52] = Piece(17);
        board[53] = Piece(17);
        board[54] = Piece(17);
        board[55] = Piece(17);
        board[56] = Piece(20);
        board[57] = Piece(18);
        board[58] = Piece(19);
        board[59] = Piece(21);
        board[60] = Piece(22);
        board[61] = Piece(19);
        board[62] = Piece(18);
        board[63] = Piece(20);
        let m = Match { board, turn: 0, castling_rights: 15, en_passant: NO_EN_PASSANT };
        proof {
            assert((0u8 & 0x0F) == 0 && (1u8 & 0x0F) == 1 && (2u8 & 0x0F) == 2 && (3u8 & 0x0F)
                == 3 && (4u8 & 0x0F) == 4 && (5u8 & 0x0F) == 5 && (6u8 & 0x0F) == 6 && (17u8
                & 0x0F) == 1 && (18u8 & 0x0F) == 2 && (19u8 & 0x0F) == 3 && (20u8 & 0x0F) == 4 && (
            21u8 & 0x0F) == 5 && (22u8 & 0x0F) == 6) by (bit_vector);
            assert(m@.board =~= start_state().board);
            assert(m@ =~= start_state());
            assert(forall|i: int| 0 <= i < 64 ==> wf_piece(#[trigger] m@.board[i]));
        }
        m
    }
}

/// A move between in-range squares keeps the board decodable, the scalar
/// fields in range, and so the whole position structurally sound.
pub proof fn lemma_step_wf(m: MatchV, p: Play)
    requires
        wf_state(m),
        p.org < 64,
        p.dst < 64,
    ensures
        wf_state(step(m, p)),
{
    let s = step(m, p);
    if is_promo_flag(p.flag) {
        let k = promo_kind(p.flag);
        let c = colour_bit(m.board[p.org as int]);
        assert(c <= 1) by {
            let b = m.board[p.org as int].0;
            assert(((b >> 4u8) & 1) <= 1) by (bit_vector);
        }
        assert(wf_piece(Piece(k | (c << 4u8)))) by {
            assert(2 <= k <= 5 && c <= 1 ==> {
                &&& ((k | (c << 4u8)) & 0x0F) == k
                &&& (k | (c << 4u8)) < 32
            }) by (bit_vector);
        }
    }
    assert(forall|i: int| 0 <= i < 64 ==> wf_piece(s.board[i])) by {
        assert(wf_piece(Piece(0))) by (bit_vector);
    }
    assert(s.castling_rights < 16) by {
        let r = m.castling_rights;
        let a = rights_mask(p.org);
        let bm = rights_mask(p.dst);
        assert(r < 16 ==> (r & a & bm) < 16) by (bit_vector);
    }
}

/// Castling rights only ever shrink: every right bit set after a move was
/// already set before it.
pub proof fn lemma_castling_monotonic(m: MatchV, p: Play)
    ensures
        step(m, p).castling_rights & m.castling_rights == step(m, p).castling_rights,
        forall|bit: u8|
            (step(m, p).castling_rights & bit) != 0 ==> (m.castling_rights & bit) != 0,
{
    let r = m.castling_rights;
    let a = rights_mask(p.org);
    let bm = rights_mask(p.dst);
    assert(((r & a & bm) & r) == (r & a & bm)) by (bit_vector);
    assert forall|bit: u8| ((r & a & bm) & bit) != 0 implies (r & bit) != 0 by {
        assert(((r & a & bm) & bit) != 0 ==> (r & bit) != 0) by (bit_vector);
    }
}

} // verus!
