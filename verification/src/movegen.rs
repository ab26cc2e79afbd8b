//! Move generator: the legality predicate for a single candidate move and
//! the per-square generator that enumerates every legal move from an origin.

use vstd::prelude::*;

use crate::attack::attacked;
use crate::attack::bishop_path_clear;
use crate::attack::king_step;
use crate::attack::knight_jump;
use crate::attack::rook_path_clear;
use crate::attack::square_attacked;
use crate::board::CASTLE_BLACK_KING;
use crate::board::CASTLE_BLACK_QUEEN;
use crate::board::CASTLE_WHITE_KING;
use crate::board::CASTLE_WHITE_QUEEN;
use crate::board::Match;
use crate::board::MatchV;
use crate::board::colour_at;
use crate::board::file_of;
use crate::board::kind_at;
use crate::board::occupied;
use crate::board::opposite;
use crate::board::rank_of;
use crate::board::step;
use crate::piece::Piece;
use crate::play::FLAG_CASTLE_KING;
use crate::play::FLAG_CASTLE_QUEEN;
use crate::play::FLAG_DOUBLE_PUSH;
use crate::play::FLAG_EN_PASSANT;
use crate::play::FLAG_QUIET;
use crate::play::Play;
use crate::play::is_promo_flag;

verus! {

broadcast use vstd::array::group_array_axioms, vstd::seq_lib::group_seq_properties;

/// The square holds a piece of the side to move.
pub open spec fn friendly(b: Seq<Piece>, i: int, turn: u8) -> bool {
    occupied(b, i) && colour_at(b, i) == turn
}

/// The square holds a piece of the other side.
pub open spec fn enemy(b: Seq<Piece>, i: int, turn: u8) -> bool {
    occupied(b, i) && colour_at(b, i) != turn
}

/// Pawn movement pattern for each flag: single push, double push from the
/// starting rank over empty squares, diagonal capture, en passant capture
/// onto the recorded target, and promotion on reaching the last rank.
pub open spec fn pawn_pseudo(m: MatchV, p: Play) -> bool {
    let org = p.org as int;
    let dst = p.dst as int;
    let dir: int = if m.turn == 0 { 1int } else { -1int };
    let start_rank: int = if m.turn == 0 { 1int } else { 6int };
    let last_rank: int = if m.turn == 0 { 7int } else { 0int };
    let ro = rank_of(org);
    let fo = file_of(org);
    let rt = rank_of(dst);
    let ft = file_of(dst);
    let push = rt == ro + dir && ft == fo && !occupied(m.board, dst);
    let cap = rt == ro + dir && (ft == fo + 1 || ft == fo - 1) && enemy(m.board, dst, m.turn);
    if p.flag == FLAG_QUIET {
        (push || cap) && rt != last_rank
    } else if p.flag == FLAG_DOUBLE_PUSH {
        &&& ro == start_rank
        &&& rt == ro + 2 * dir
        &&& ft == fo
        &&& !occupied(m.board, org + 8 * dir)
        &&& !occupied(m.board, dst)
    } else if p.flag == FLAG_EN_PASSANT {
        &&& m.en_passant < 64
        &&& dst == m.en_passant as int
        &&& rt == ro + dir
        &&& (ft == fo + 1 || ft == fo - 1)
    } else if is_promo_flag(p.flag) {
        (push || cap) && rt == last_rank
    } else {
        false
    }
}

/// King movement pattern: a single step to any adjacent square, or a castle
/// while the right is held, the squares between king and rook are empty, and
/// the king neither stands in nor passes through check.
pub open spec fn king_pseudo(m: MatchV, p: Play) -> bool {
    let org = p.org as int;
    let dst = p.dst as int;
    if p.flag == FLAG_QUIET {
        king_step(org, dst) && !friendly(m.board, dst, m.turn)
    } else if p.flag == FLAG_CASTLE_KING {
        if m.turn == 0 {
            &&& org == 4
            &&& dst == 6
            &&& m.castling_rights & CASTLE_WHITE_KING != 0
            &&& !occupied(m.board, 5)
            &&& !occupied(m.board, 6)
            &&& !attacked(m.board, 4, 1)
            &&& !attacked(m.board, 5, 1)
        } else {
            &&& org == 60
            &&& dst == 62
            &&& m.castling_rights & CASTLE_BLACK_KING != 0
            &&& !occupied(m.board, 61)
            &&& !occupied(m.board, 62)
            &&& !attacked(m.board, 60, 0)
            &&& !attacked(m.board, 61, 0)
        }
    } else if p.flag == FLAG_CASTLE_QUEEN {
        if m.turn == 0 {
            &&& org == 4
            &&& dst == 2
            &&& m.castling_rights & CASTLE_WHITE_QUEEN != 0
            &&& !occupied(m.board, 1)
            &&& !occupied(m.board, 2)
            &&& !occupied(m.board, 3)
            &&& !attacked(m.board, 4, 1)
            &&& !attacked(m.board, 3, 1)
        } else {
            &&& org == 60
            &&& dst == 58
            &&& m.castling_rights & CASTLE_BLACK_QUEEN != 0
            &&& !occupied(m.board, 57)
            &&& !occupied(m.board, 58)
            &&& !occupied(m.board, 59)
            &&& !attacked(m.board, 60, 0)
            &&& !attacked(m.board, 59, 0)
        }
    } else {
        false
    }
}

/// The move fits the mover's movement pattern, origin and destination in
/// range, the origin held by the side to move.
pub open spec fn pseudo_legal(m: MatchV, p: Play) -> bool {
    &&& p.org < 64
    &&& p.dst < 64
    &&& occupied(m.board, p.org as int)
    &&& colour_at(m.board, p.org as int) == m.turn
    &&& {
        let org = p.org as int;
        let dst = p.dst as int;
        let k = kind_at(m.board, org);
        if k == 1 {
            pawn_pseudo(m, p)
        } else if k == 2 {
            p.flag == FLAG_QUIET && knight_jump(org, dst) && !friendly(m.board, dst, m.turn)
        } else if k == 3 {
            p.flag == FLAG_QUIET && bishop_path_clear(m.board, org, dst) && !friendly(
                m.board,
                dst,
                m.turn,
            )
        } else if k == 4 {
            p.flag == FLAG_QUIET && rook_path_clear(m.board, org, dst) && !friendly(
                m.board,
                dst,
                m.turn,
            )
        } else if k == 5 {
            p.flag == FLAG_QUIET && (rook_path_clear(m.board, org, dst) || bishop_path_clear(
                m.board,
                org,
                dst,
            )) && !friendly(m.board, dst, m.turn)
        } else if k == 6 {
            king_pseudo(m, p)
        } else {
            false
        }
    }
}

/// No king of the given colour stands on a square the other side attacks.
pub open spec fn own_king_safe(m: MatchV, mover: u8) -> bool {
    forall|k: int|
        0 <= k < 64 && #[trigger] kind_at(m.board, k) == 6 && colour_at(m.board, k) == mover
            ==> !attacked(m.board, k, opposite(mover))
}

/// A legal move: it fits the mover's movement pattern and, once applied,
/// leaves no king of the moving side attacked.
pub open spec fn legal_play(m: MatchV, p: Play) -> bool {
    &&& pseudo_legal(m, p)
    &&& own_king_safe(step(m, p), m.turn)
}

/// The square holds a piece of the side to move (executable).
fn friendly_at(m: &Match, i: usize) -> (r: bool)
    requires
        i < 64,
    ensures
        r == friendly(m@.board, i as int, m@.turn),
{
    let q = m.board[i];
    q.0 & 0x0F != 0 && (q.0 >> 4) & 1 == m.turn
}

/// The square holds a piece of the other side (executable).
fn enemy_at(m: &Match, i: usize) -> (r: bool)
    requires
        i < 64,
    ensures
        r == enemy(m@.board, i as int, m@.turn),
{
    let q = m.board[i];
    q.0 & 0x0F != 0 && (q.0 >> 4) & 1 != m.turn
}

/// The square holds any piece (executable).
fn occ_at(m: &Match, i: usize) -> (r: bool)
    requires
        i < 64,
    ensures
        r == occupied(m@.board, i as int),
{
    m.board[i].0 & 0x0F != 0
}

/// Executable counterpart of `pseudo_legal`.
fn pseudo_check(m: &Match, p: Play) -> (r: bool)
    ensures
        r == pseudo_legal(m@, p),
{
    if !(p.org < 64 && p.dst < 64) {
        return false;
    }
    let org = p.org as usize;
    let dst = p.dst as usize;
    let pc = m.board[org];
    let k = pc.0 & 0x0F;
    if k == 0 {
        return false;
    }
    if (pc.0 >> 4) & 1 != m.turn {
        return false;
    }
    let ro = (org / 8) as i64;
    let fo = (org % 8) as i64;
    let rt = (dst / 8) as i64;
    let ft = (dst % 8) as i64;
    if k == 1 {
        let dir: i64 = if m.turn == 0 {
            1
        } else {
            -1
        };
        let start_rank: i64 = if m.turn == 0 {
            1
        } else {
            6
        };
        let last_rank: i64 = if m.turn == 0 {
            7
        } else {
            0
        };
        let push = rt == ro + dir && ft == fo && !occ_at(m, dst);
        let cap = rt == ro + dir && (ft == fo + 1 || ft == fo - 1) && enemy_at(m, dst);
        if p.flag == FLAG_QUIET {
            (push || cap) && rt != last_rank
        } else if p.flag == FLAG_DOUBLE_PUSH {
            if ro == start_rank && rt == ro + 2 * dir && ft == fo {
                let mid = (org as i64 + 8 * dir) as usize;
                !occ_at(m, mid) && !occ_at(m, dst)
            } else {
                false
            }
        } else if p.flag == FLAG_EN_PASSANT {
            m.en_passant < 64 && dst == m.en_passant as usize && rt == ro + dir && (ft == fo + 1
                || ft == fo - 1)
        } else if 5 <= p.flag && p.flag <= 8 {
            (push || cap) && rt == last_rank
        } else {
            false
        }
    } else if k == 2 {
        let dr = rt - ro;
        let df = ft - fo;
        p.flag == FLAG_QUIET && (((dr == 1 || dr == -1) && (df == 2 || df == -2)) || ((dr == 2
            || dr == -2) && (df == 1 || df == -1))) && !friendly_at(m, dst)
    } else if k == 3 {
        p.flag == FLAG_QUIET && crate::attack::bishop_clear(&m.board, org, dst) && !friendly_at(
            m,
            dst,
        )
    } else if k == 4 {
        p.flag == FLAG_QUIET && crate::attack::rook_clear(&m.board, org, dst) && !friendly_at(
            m,
            dst,
        )
    } else if k == 5 {
        if p.flag == FLAG_QUIET {
            let clear = if crate::attack::rook_clear(&m.board, org, dst) {
                true
            } else {
                crate::attack::bishop_clear(&m.board, org, dst)
            };
            clear && !friendly_at(m, dst)
        } else {
            false
        }
    } else if k == 6 {
        if p.flag == FLAG_QUIET {
            let dr = rt - ro;
            let df = ft - fo;
            (-1 <= dr && dr <= 1) && (-1 <= df && df <= 1) && !(dr == 0 && df == 0)
                && !friendly_at(m, dst)
        } else if p.flag == FLAG_CASTLE_KING {
            if m.turn == 0 {
                p.org == 4 && p.dst == 6 && m.castling_rights & CASTLE_WHITE_KING != 0 && !occ_at(
                    m,
                    5,
                ) && !occ_at(m, 6) && !square_attacked(&m.board, 4, 1) && !square_attacked(
                    &m.board,
                    5,
                    1,
                )
            } else {
                p.org == 60 && p.dst == 62 && m.castling_rights & CASTLE_BLACK_KING != 0
                    && !occ_at(m, 61) && !occ_at(m, 62) && !square_attacked(&m.board, 60, 0)
                    && !square_attacked(&m.board, 61, 0)
            }
        } else if p.flag == FLAG_CASTLE_QUEEN {
            if m.turn == 0 {
                p.org == 4 && p.dst == 2 && m.castling_rights & CASTLE_WHITE_QUEEN != 0 && !occ_at(
                    m,
                    1,
                ) && !occ_at(m, 2) && !occ_at(m, 3) && !square_attacked(&m.board, 4, 1)
                    && !square_attacked(&m.board, 3, 1)
            } else {
                p.org == 60 && p.dst == 58 && m.castling_rights & CASTLE_BLACK_QUEEN != 0
                    && !occ_at(m, 57) && !occ_at(m, 58) && !occ_at(m, 59) && !square_attacked(
                    &m.board,
                    60,
                    0,
                ) && !square_attacked(&m.board, 59, 0)
            }
        } else {
            false
        }
    } else {
        false
    }
}

/// Executable counterpart of `legal_play`: pattern check, trial application
/// on a scratch copy, then the attacked-king test against the result.
pub fn is_legal(m: &Match, p: Play) -> (r: bool)
    ensures
        r == legal_play(m@, p),
{
    if !pseudo_check(m, p) {
        return false;
    }
    let mut scratch = *m;
    scratch.execute(p);
    let opp: u8 = if m.turn == 0 {
        1
    } else {
        0
    };
    let mut k: usize = 0;
    while k < 64
        invariant
            k <= 64,
            scratch@ == step(m@, p),
            opp == opposite(m@.turn),
            forall|g: int|
                0 <= g < k && #[trigger] kind_at(scratch@.board, g) == 6 && colour_at(
                    scratch@.board,
                    g,
                ) == m@.turn ==> !attacked(scratch@.board, g, opposite(m@.turn)),
        decreases 64 - k,
    {
        let q = scratch.board[k];
        if q.0 & 0x0F == 6 && (q.0 >> 4) & 1 == m.turn {
            if square_attacked(&scratch.board, k, opp) {
                proof {
                    assert(kind_at(scratch@.board, k as int) == 6);
                    assert(colour_at(scratch@.board, k as int) == m@.turn);
                    assert(!own_king_safe(step(m@, p), m@.turn));
                }
                return false;
            }
        }
        k = k + 1;
    }
    true
}

impl Match {
    /// Every legal move whose origin is the given square, each exactly once,
    /// in destination order with flags as tie-breaker. An out-of-range
    /// origin, an empty origin or an origin held by the side not to move
    /// yields the empty list.
    pub fn get_moves(&self, idx: u8) -> (r: Vec<Play>)
        ensures
            forall|p: Play| r@.contains(p) <==> (p.org == idx && legal_play(self@, p)),
            forall|i: int, j: int|
                0 <= i < j < r@.len() ==> (r@[i].dst < r@[j].dst || (r@[i].dst == r@[j].dst
                    && r@[i].flag < r@[j].flag)),
            forall|i: int, j: int| 0 <= i < j < r@.len() ==> r@[i] != r@[j],
    {
        let mut out: Vec<Play> = Vec::new();
        let mut dst: usize = 0;
        while dst < 64
            invariant
                dst <= 64,
                forall|p: Play|
                    out@.contains(p) <==> (p.org == idx && legal_play(self@, p) && (p.dst as int)
                        < dst),
                forall|i: int, j: int|
                    0 <= i < j < out@.len() ==> (out@[i].dst < out@[j].dst || (out@[i].dst
                        == out@[j].dst && out@[i].flag < out@[j].flag)),
                forall|i: int| 0 <= i < out@.len() ==> (out@[i].dst as int) < dst,
            decreases 64 - dst,
        {
            let mut flag: u8 = 0;
            while flag <= 8
                invariant
                    flag <= 9,
                    dst < 64,
                    forall|p: Play|
                        out@.contains(p) <==> (p.org == idx && legal_play(self@, p) && ((
                        p.dst as int) < dst || (p.dst as int == dst && p.flag < flag))),
                    forall|i: int, j: int|
                        0 <= i < j < out@.len() ==> (out@[i].dst < out@[j].dst || (out@[i].dst
                            == out@[j].dst && out@[i].flag < out@[j].flag)),
                    forall|i: int|
                        0 <= i < out@.len() ==> ((out@[i].dst as int) < dst || (out@[i].dst as int
                            == dst && out@[i].flag < flag)),
                decreases 9 - flag,
            {
                let cand = Play { org: idx, dst: dst as u8, flag };
                if is_legal(self, cand) {
                    out.push(cand);
                }
                flag = flag + 1;
            }
            dst = dst + 1;
        }
        proof {
            assert(forall|p: Play| legal_play(self@, p) ==> (p.dst as int) < 64);
            assert(forall|i: int, j: int|
                0 <= i < j < out@.len() ==> out@[i] != out@[j]) by {
                assert(forall|i: int, j: int|
                    0 <= i < j < out@.len() ==> (out@[i].dst < out@[j].dst || (out@[i].dst
                        == out@[j].dst && out@[i].flag < out@[j].flag)));
            }
        }
        out
    }
}

} // verus!
