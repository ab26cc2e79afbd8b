//! Attack detection: whether a square is attacked by a side, shared between
//! king-move legality, the self-check filter and castle-through-check tests.

use vstd::prelude::*;

use crate::board::colour_at;
use crate::board::file_of;
use crate::board::kind_at;
use crate::board::occupied;
use crate::board::rank_of;
use crate::piece::Piece;

verus! {

broadcast use vstd::array::group_array_axioms;

/// Sign of an integer: -1, 0 or 1.
pub open spec fn sgn(x: int) -> int {
    if x > 0 {
        1
    } else if x < 0 {
        -1
    } else {
        0
    }
}

/// The two squares lie a knight's jump apart.
pub open spec fn knight_jump(s: int, t: int) -> bool {
    let dr = rank_of(t) - rank_of(s);
    let df = file_of(t) - file_of(s);
    ||| ((dr == 1 || dr == -1) && (df == 2 || df == -2))
    ||| ((dr == 2 || dr == -2) && (df == 1 || df == -1))
}

/// The two squares are distinct and adjacent, diagonals included.
pub open spec fn king_step(s: int, t: int) -> bool {
    let dr = rank_of(t) - rank_of(s);
    let df = file_of(t) - file_of(s);
    &&& -1 <= dr <= 1
    &&& -1 <= df <= 1
    &&& !(dr == 0 && df == 0)
}

/// A pawn of the given colour standing on `s` attacks `t`: one rank forward,
/// one file aside.
pub open spec fn pawn_attack(s: int, t: int, c: u8) -> bool {
    let dr = rank_of(t) - rank_of(s);
    let df = file_of(t) - file_of(s);
    &&& dr == (if c == 0 { 1int } else { -1int })
    &&& (df == 1 || df == -1)
}

/// The squares share a rank or a file and differ.
pub open spec fn rook_aligned(s: int, t: int) -> bool {
    ||| (rank_of(s) == rank_of(t) && file_of(s) != file_of(t))
    ||| (file_of(s) == file_of(t) && rank_of(s) != rank_of(t))
}

/// Square `q` lies strictly between `s` and `t` on their shared rank or
/// file.
pub open spec fn between_rook(s: int, t: int, q: int) -> bool {
    let rs = rank_of(s);
    let fs = file_of(s);
    let rt = rank_of(t);
    let ft = file_of(t);
    if rs == rt && fs != ft {
        let lo = if fs < ft { fs } else { ft };
        let hi = if fs < ft { ft } else { fs };
        rank_of(q) == rs && lo < file_of(q) < hi
    } else if fs == ft && rs != rt {
        let lo = if rs < rt { rs } else { rt };
        let hi = if rs < rt { rt } else { rs };
        file_of(q) == fs && lo < rank_of(q) < hi
    } else {
        false
    }
}

/// The squares share a rank or a file and every square strictly between
/// them is empty.
pub open spec fn rook_path_clear(b: Seq<Piece>, s: int, t: int) -> bool {
    &&& rook_aligned(s, t)
    &&& forall|q: int| 0 <= q < 64 && between_rook(s, t, q) ==> !(#[trigger] occupied(b, q))
}

/// The squares share a diagonal and differ.
pub open spec fn diag_aligned(s: int, t: int) -> bool {
    let dr = rank_of(t) - rank_of(s);
    let df = file_of(t) - file_of(s);
    &&& (dr == df || dr == -df)
    &&& dr != 0
}

/// Square `q` lies strictly between `s` and `t` on their shared diagonal.
pub open spec fn between_diag(s: int, t: int, q: int) -> bool {
    let dr = rank_of(t) - rank_of(s);
    let df = file_of(t) - file_of(s);
    let jj = (rank_of(q) - rank_of(s)) * sgn(dr);
    &&& 1 <= jj < (if dr > 0 { dr } else { -dr })
    &&& rank_of(q) - rank_of(s) == jj * sgn(dr)
    &&& file_of(q) - file_of(s) == jj * sgn(df)
}

/// The squares share a diagonal and every square strictly between them is
/// empty.
pub open spec fn bishop_path_clear(b: Seq<Piece>, s: int, t: int) -> bool {
    &&& diag_aligned(s, t)
    &&& forall|q: int| 0 <= q < 64 && between_diag(s, t, q) ==> !(#[trigger] occupied(b, q))
}

/// The piece on `s` (of colour `c`) attacks square `t` under its movement
/// pattern on the given board.
pub open spec fn attacks(b: Seq<Piece>, s: int, t: int, c: u8) -> bool {
    &&& 0 <= s < 64
    &&& 0 <= t < 64
    &&& s != t
    &&& occupied(b, s)
    &&& colour_at(b, s) == c
    &&& {
        let k = kind_at(b, s);
        if k == 1 {
            pawn_attack(s, t, c)
        } else if k == 2 {
            knight_jump(s, t)
        } else if k == 3 {
            bishop_path_clear(b, s, t)
        } else if k == 4 {
            rook_path_clear(b, s, t)
        } else if k == 5 {
            rook_path_clear(b, s, t) || bishop_path_clear(b, s, t)
        } else if k == 6 {
            king_step(s, t)
        } else {
            false
        }
    }
}

/// Some piece of colour `c` attacks square `t`.
pub open spec fn attacked(b: Seq<Piece>, t: int, c: u8) -> bool {
    exists|s: int| attacks(b, s, t, c)
}

/// The square holds a piece.
fn occ(board: &[Piece; 64], i: usize) -> (r: bool)
    requires
        i < 64,
    ensures
        r == occupied(board@, i as int),
{
    board[i].0 & 0x0F != 0
}

/// Executable rook-line test: shared rank or file with all squares between
/// empty.
pub(crate) fn rook_clear(board: &[Piece; 64], s: usize, t: usize) -> (r: bool)
    requires
        s < 64,
        t < 64,
    ensures
        r == rook_path_clear(board@, s as int, t as int),
{
    let rs = s / 8;
    let fs = s % 8;
    let rt = t / 8;
    let ft = t % 8;
    if rs == rt && fs != ft {
        let lo = if fs < ft { fs } else { ft };
        let hi = if fs < ft { ft } else { fs };
        let mut f = lo + 1;
        while f < hi
            invariant
                lo < f <= hi,
                hi < 8,
                rs < 8,
                rs == rank_of(s as int) && rs == rank_of(t as int),
                fs == file_of(s as int) && ft == file_of(t as int) && fs != ft,
                lo == (if fs < ft { fs } else { ft }),
                hi == (if fs < ft { ft } else { fs }),
                forall|q: int|
                    0 <= q < 64 && between_rook(s as int, t as int, q) && file_of(q) < f
                        ==> !(#[trigger] occupied(board@, q)),
            decreases hi - f,
        {
            let x = rs * 8 + f;
            proof {
                assert(rank_of(x as int) == rs && file_of(x as int) == f);
            }
            if occ(board, x) {
                proof {
                    assert(between_rook(s as int, t as int, x as int));
                }
                return false;
            }
            f = f + 1;
        }
        true
    } else if fs == ft && rs != rt {
        let lo = if rs < rt { rs } else { rt };
        let hi = if rs < rt { rt } else { rs };
        let mut r = lo + 1;
        while r < hi
            invariant
                lo < r <= hi,
                hi < 8,
                fs < 8,
                fs == file_of(s as int) && fs == file_of(t as int),
                rs == rank_of(s as int) && rt == rank_of(t as int) && rs != rt,
                lo == (if rs < rt { rs } else { rt }),
                hi == (if rs < rt { rt } else { rs }),
                forall|q: int|
                    0 <= q < 64 && between_rook(s as int, t as int, q) && rank_of(q) < r
                        ==> !(#[trigger] occupied(board@, q)),
            decreases hi - r,
        {
            let x = r * 8 + fs;
            proof {
                assert(rank_of(x as int) == r && file_of(x as int) == fs);
            }
            if occ(board, x) {
                proof {
                    assert(between_rook(s as int, t as int, x as int));
                }
                return false;
            }
            r = r + 1;
        }
        true
    } else {
        false
    }
}

/// Executable diagonal test: shared diagonal with all squares between empty.
pub(crate) fn bishop_clear(board: &[Piece; 64], s: usize, t: usize) -> (r: bool)
    requires
        s < 64,
        t < 64,
    ensures
        r == bishop_path_clear(board@, s as int, t as int),
{
    let rs = (s / 8) as i64;
    let fs = (s % 8) as i64;
    let rt = (t / 8) as i64;
    let ft = (t % 8) as i64;
    let dr = rt - rs;
    let df = ft - fs;
    if !((dr == df || dr == -df) && dr != 0) {
        return false;
    }
    let n = if dr > 0 {
        dr
    } else {
        -dr
    };
    let sr: i64 = if dr > 0 {
        1
    } else {
        -1
    };
    let sf: i64 = if df > 0 {
        1
    } else {
        -1
    };
    let mut j: i64 = 1;
    while j < n
        invariant
            1 <= j <= n,
            1 <= n <= 7,
            s < 64,
            t < 64,
            rs == rank_of(s as int) && fs == file_of(s as int),
            rt == rank_of(t as int) && ft == file_of(t as int),
            diag_aligned(s as int, t as int),
            n == (if rt - rs > 0 { rt - rs } else { rs - rt }),
            sr == sgn(rt - rs),
            sf == sgn(ft - fs),
            forall|q: int|
                0 <= q < 64 && between_diag(s as int, t as int, q) && (rank_of(q) - rank_of(
                    s as int,
                )) * sgn(rank_of(t as int) - rank_of(s as int)) < j ==> !(#[trigger] occupied(
                    board@,
                    q,
                )),
        decreases n - j,
    {
        let rj = rs + j * sr;
        let fj = fs + j * sf;
        proof {
            assert(0 <= rj <= 7 && 0 <= fj <= 7) by {
                if sr == 1 {
                    assert(rj == rs + j);
                } else {
                    assert(rj == rs - j);
                }
                if sf == 1 {
                    assert(fj == fs + j);
                } else {
                    assert(fj == fs - j);
                }
            }
        }
        let x = (rj * 8 + fj) as usize;
        proof {
            assert(rank_of(x as int) == rj && file_of(x as int) == fj);
            assert((rj - rs) * sgn(rt - rs) == j) by {
                if sr == 1 {
                    assert(rj - rs == j);
                } else {
                    assert(rj - rs == -j);
                }
            }
            assert((fj - fs) == j * sgn(ft - fs)) by {
                if sf == 1 {
                    assert(fj - fs == j);
                } else {
                    assert(fj - fs == -j);
                }
            }
        }
        if occ(board, x) {
            proof {
                assert(between_diag(s as int, t as int, x as int));
            }
            return false;
        }
        j = j + 1;
    }
    true
}

/// The piece on `s` attacks `t` for side `c`: executable counterpart of
/// `attacks`.
fn attacks_from(board: &[Piece; 64], s: usize, t: usize, c: u8) -> (r: bool)
    requires
        s < 64,
        t < 64,
    ensures
        r == attacks(board@, s as int, t as int, c),
{
    if s == t {
        return false;
    }
    let p = board[s];
    let k = p.0 & 0x0F;
    if k == 0 {
        return false;
    }
    if (p.0 >> 4) & 1 != c {
        return false;
    }
    let rs = (s / 8) as i64;
    let fs = (s % 8) as i64;
    let rt = (t / 8) as i64;
    let ft = (t % 8) as i64;
    let dr = rt - rs;
    let df = ft - fs;
    if k == 1 {
        let fwd: i64 = if c == 0 {
            1
        } else {
            -1
        };
        dr == fwd && (df == 1 || df == -1)
    } else if k == 2 {
        ((dr == 1 || dr == -1) && (df == 2 || df == -2)) || ((dr == 2 || dr == -2) && (df == 1
            || df == -1))
    } else if k == 3 {
        bishop_clear(board, s, t)
    } else if k == 4 {
        rook_clear(board, s, t)
    } else if k == 5 {
        if rook_clear(board, s, t) {
            true
        } else {
            bishop_clear(board, s, t)
        }
    } else if k == 6 {
        (-1 <= dr && dr <= 1) && (-1 <= df && df <= 1)
    } else {
        false
    }
}

/// Whether any piece of side `c` attacks square `t`: executable counterpart
/// of `attacked`.
pub fn square_attacked(board: &[Piece; 64], t: usize, c: u8) -> (r: bool)
    requires
        t < 64,
    ensures
        r == attacked(board@, t as int, c),
{
    let mut s: usize = 0;
    while s < 64
        invariant
            s <= 64,
            t < 64,
            forall|g: int| 0 <= g < s ==> !attacks(board@, g, t as int, c),
        decreases 64 - s,
    {
        if attacks_from(board, s, t, c) {
            proof {
                assert(attacks(board@, s as int, t as int, c));
            }
            return true;
        }
        s = s + 1;
    }
    proof {
        assert(forall|g: int| !attacks(board@, g, t as int, c));
    }
    false
}

} // verus!
