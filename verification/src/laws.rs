//! Laws of the move pipeline: the en passant lifecycle, the self-check
//! filter and promotion expansion, each proved of the generator's legality
//! predicate and the executor's transformation.

use vstd::prelude::*;

use crate::attack::attacked;
use crate::attack::attacks;
use crate::attack::bishop_path_clear;
use crate::attack::rook_path_clear;
use crate::board::MatchV;
use crate::board::NO_EN_PASSANT;
use crate::board::colour_at;
use crate::board::kind_at;
use crate::board::occupied;
use crate::board::opposite;
use crate::board::step;
use crate::movegen::legal_play;
use crate::movegen::own_king_safe;
use crate::movegen::pseudo_legal;
use crate::piece::Piece;
use crate::play::FLAG_CASTLE_KING;
use crate::play::FLAG_CASTLE_QUEEN;
use crate::play::FLAG_DOUBLE_PUSH;
use crate::play::FLAG_EN_PASSANT;
use crate::play::FLAG_QUIET;
use crate::play::Play;
use crate::play::is_promo_flag;

verus! {

/// En passant lifecycle: a legal double push records the passed-over square
/// as the en passant target; every other move resets the target to its
/// sentinel; and the generator offers the en-passant flag only onto the
/// recorded target square.
pub proof fn lemma_en_passant_lifecycle(m: MatchV, p: Play)
    requires
        legal_play(m, p),
    ensures
        p.flag == FLAG_DOUBLE_PUSH ==> step(m, p).en_passant == (if m.turn == 0 {
            p.org + 8
        } else {
            p.org - 8
        }),
        p.flag != FLAG_DOUBLE_PUSH ==> step(m, p).en_passant == NO_EN_PASSANT,
        p.flag == FLAG_EN_PASSANT ==> m.en_passant < 64 && p.dst == m.en_passant,
{
    if p.flag == FLAG_DOUBLE_PUSH {
        let org = p.org as int;
        let dst = p.dst as int;
        assert(org == 8 * (org / 8) + org % 8);
        assert(dst == 8 * (dst / 8) + dst % 8);
        if m.turn == 0 {
            assert(dst == org + 16);
        } else {
            assert(dst == org - 16);
        }
    }
}

/// Self-check filter: every legal move leaves the mover's own kings
/// unattacked in the resulting position, and a castle is offered only when
/// the king is neither in check now nor crosses an attacked square.
pub proof fn lemma_self_check_filter(m: MatchV, p: Play)
    requires
        legal_play(m, p),
    ensures
        own_king_safe(step(m, p), m.turn),
        p.flag == FLAG_CASTLE_KING || p.flag == FLAG_CASTLE_QUEEN ==> !attacked(
            m.board,
            p.org as int,
            opposite(m.turn),
        ) && !attacked(m.board, (p.org + p.dst) as int / 2, opposite(m.turn)),
{
}

/// Two boards that agree everywhere but on one square, which both sides see
/// as occupied by a piece that is not the attacker's, are attacked alike.
proof fn lemma_attacks_transfer(b1: Seq<Piece>, b2: Seq<Piece>, d: int, c: u8, s: int, t: int)
    requires
        b1.len() == 64,
        b2.len() == 64,
        0 <= d < 64,
        forall|i: int| 0 <= i < 64 && i != d ==> b1[i] == b2[i],
        occupied(b1, d) && occupied(b2, d),
        colour_at(b1, d) != c,
        colour_at(b2, d) != c,
        attacks(b1, s, t, c),
    ensures
        attacks(b2, s, t, c),
{
    assert(s != d);
    assert(b1[s] == b2[s]);
    assert forall|q: int| 0 <= q < 64 implies occupied(b2, q) == occupied(b1, q) by {
        if q != d {
            assert(b1[q] == b2[q]);
        }
    }
    let k = kind_at(b1, s);
    if k == 3 || k == 5 {
        if bishop_path_clear(b1, s, t) {
            assert(bishop_path_clear(b2, s, t));
        }
    }
    if k == 4 || k == 5 {
        if rook_path_clear(b1, s, t) {
            assert(rook_path_clear(b2, s, t));
        }
    }
}

/// Promotion expansion: where one promotion move is legal, each of the four
/// promotion flags to the same destination is legal too, and the plain quiet
/// move onto the last rank is not.
pub proof fn lemma_promotion_expansion(m: MatchV, p: Play, g: u8)
    requires
        m.board.len() == 64,
        legal_play(m, p),
        is_promo_flag(p.flag),
        is_promo_flag(g),
    ensures
        legal_play(m, Play { org: p.org, dst: p.dst, flag: g }),
        !legal_play(m, Play { org: p.org, dst: p.dst, flag: FLAG_QUIET }),
{
    let q = Play { org: p.org, dst: p.dst, flag: g };
    let org = p.org as int;
    let dst = p.dst as int;
    assert(kind_at(m.board, org) == 1);
    assert(pseudo_legal(m, q));
    let mover = m.board[org];
    let col = crate::piece::colour_bit(mover);
    assert(col == m.turn);
    let s1 = step(m, p);
    let s2 = step(m, q);
    assert(col <= 1) by {
        let b = mover.0;
        assert(((b >> 4u8) & 1) <= 1) by (bit_vector);
    }
    let k1 = crate::play::promo_kind(p.flag);
    let k2 = crate::play::promo_kind(g);
    let n1: u8 = k1 | (col << crate::piece::COLOUR_SHIFT);
    let n2: u8 = k2 | (col << crate::piece::COLOUR_SHIFT);
    assert((n1 & 0x0F) == k1 && (n2 & 0x0F) == k2 && ((n1 >> 4u8) & 1) == col && ((n2 >> 4u8) & 1)
        == col) by (bit_vector)
        requires
            n1 == (k1 | (col << 4u8)),
            n2 == (k2 | (col << 4u8)),
            2 <= k1 <= 5,
            2 <= k2 <= 5,
            col <= 1,
    ;
    assert(s1.board.len() == 64 && s2.board.len() == 64);
    assert(forall|i: int| 0 <= i < 64 && i != dst ==> s1.board[i] == s2.board[i]);
    assert(occupied(s1.board, dst) && occupied(s2.board, dst));
    assert(colour_at(s1.board, dst) == col && colour_at(s2.board, dst) == col);
    let opp = opposite(m.turn);
    assert forall|kk: int|
        0 <= kk < 64 && #[trigger] kind_at(s2.board, kk) == 6 && colour_at(s2.board, kk)
            == m.turn implies !attacked(s2.board, kk, opp) by {
        assert(kk != dst);
        assert(kind_at(s1.board, kk) == 6 && colour_at(s1.board, kk) == m.turn);
        assert(!attacked(s1.board, kk, opp));
        if attacked(s2.board, kk, opp) {
            let w = choose|w: int| attacks(s2.board, w, kk, opp);
            lemma_attacks_transfer(s2.board, s1.board, dst, opp, w, kk);
        }
    }
    assert(own_king_safe(s2, m.turn));
}

} // verus!
