//! FEN codec: parsing Forsyth–Edwards Notation into a position and
//! serializing a position back to its canonical FEN text.

use vstd::prelude::*;

use crate::board::CASTLE_BLACK_KING;
use crate::board::CASTLE_BLACK_QUEEN;
use crate::board::CASTLE_WHITE_KING;
use crate::board::CASTLE_WHITE_QUEEN;
use crate::board::Match;
use crate::board::MatchV;
use crate::board::NO_EN_PASSANT;
use crate::board::wf_state;
use crate::piece::Piece;
use crate::piece::wf_piece;

verus! {

broadcast use vstd::array::group_array_axioms;

/// Category of FEN parse failure, one per offending field.
#[derive(Clone, Copy, PartialEq, Eq, Structural, Debug)]
pub enum FenError {
    /// A rank's letters and digits do not cover exactly eight files, or the
    /// placement field has the wrong number of ranks.
    BadRank,
    /// A character in the placement field names no piece.
    BadPiece,
    /// The text ends before the four mandatory fields are complete.
    BadFieldCount,
    /// The side-to-move field is neither `w` nor `b`.
    BadTurn,
    /// The castling field holds a character other than `K`, `Q`, `k`, `q`
    /// or a lone `-`.
    BadCastling,
    /// The en passant field is neither `-` nor a board square.
    BadEnPassant,
}

/// The character names a piece in a FEN placement field.
pub open spec fn piece_char_ok(c: char) -> bool {
    c == 'P' || c == 'N' || c == 'B' || c == 'R' || c == 'Q' || c == 'K' || c == 'p' || c == 'n'
        || c == 'b' || c == 'r' || c == 'q' || c == 'k'
}

/// The piece a FEN placement letter denotes.
pub open spec fn piece_of_char(c: char) -> Piece {
    if c == 'P' {
        Piece(1)
    } else if c == 'N' {
        Piece(2)
    } else if c == 'B' {
        Piece(3)
    } else if c == 'R' {
        Piece(4)
    } else if c == 'Q' {
        Piece(5)
    } else if c == 'K' {
        Piece(6)
    } else if c == 'p' {
        Piece(17)
    } else if c == 'n' {
        Piece(18)
    } else if c == 'b' {
        Piece(19)
    } else if c == 'r' {
        Piece(20)
    } else if c == 'q' {
        Piece(21)
    } else {
        Piece(22)
    }
}

/// An all-empty board model.
pub open spec fn empty_board() -> Seq<Piece> {
    Seq::new(64, |i: int| Piece(0))
}

/// Parses the placement field, consuming text from the front: `r` is the
/// rank being filled, `f` the files of it already covered, `b` the board so
/// far. Ends on the space that closes the field and yields the board and the
/// text that follows.
pub open spec fn parse_placement(s: Seq<char>, r: int, f: int, b: Seq<Piece>) -> Result<
    (Seq<Piece>, Seq<char>),
    FenError,
>
    decreases s.len(),
{
    if s.len() == 0 {
        Err(FenError::BadFieldCount)
    } else {
        let c = s[0];
        let rest = s.subrange(1, s.len() as int);
        if c == ' ' {
            if r == 0 && f == 8 {
                Ok((b, rest))
            } else {
                Err(FenError::BadRank)
            }
        } else if c == '/' {
            if f == 8 && r > 0 {
                parse_placement(rest, r - 1, 0, b)
            } else {
                Err(FenError::BadRank)
            }
        } else if '1' <= c && c <= '8' {
            let d = c as int - '0' as int;
            if f + d <= 8 {
                parse_placement(rest, r, f + d, b)
            } else {
                Err(FenError::BadRank)
            }
        } else if piece_char_ok(c) {
            if f < 8 {
                parse_placement(rest, r, f + 1, b.update(r * 8 + f, piece_of_char(c)))
            } else {
                Err(FenError::BadRank)
            }
        } else {
            Err(FenError::BadPiece)
        }
    }
}

/// Parses the side-to-move field and its closing space.
pub open spec fn parse_turn(s: Seq<char>) -> Result<(u8, Seq<char>), FenError> {
    if s.len() == 0 {
        Err(FenError::BadFieldCount)
    } else if s[0] != 'w' && s[0] != 'b' {
        Err(FenError::BadTurn)
    } else if s.len() < 2 {
        Err(FenError::BadFieldCount)
    } else if s[1] != ' ' {
        Err(FenError::BadTurn)
    } else {
        Ok(((if s[0] == 'w' { 0u8 } else { 1u8 }), s.subrange(2, s.len() as int)))
    }
}

/// Right bit a castling-field character sets, or 255 for no such character.
pub open spec fn castle_bit(c: char) -> u8 {
    if c == 'K' {
        CASTLE_WHITE_KING
    } else if c == 'Q' {
        CASTLE_WHITE_QUEEN
    } else if c == 'k' {
        CASTLE_BLACK_KING
    } else if c == 'q' {
        CASTLE_BLACK_QUEEN
    } else {
        255
    }
}

/// Parses the letters of a castling field up to its closing space, given the
/// rights accumulated so far and how many characters were already taken.
pub open spec fn parse_castle_chars(s: Seq<char>, acc: u8, taken: int) -> Result<
    (u8, Seq<char>),
    FenError,
>
    decreases s.len(),
{
    if s.len() == 0 {
        Err(FenError::BadFieldCount)
    } else if s[0] == ' ' {
        if taken > 0 {
            Ok((acc, s.subrange(1, s.len() as int)))
        } else {
            Err(FenError::BadCastling)
        }
    } else if castle_bit(s[0]) != 255 {
        parse_castle_chars(s.subrange(1, s.len() as int), acc | castle_bit(s[0]), taken + 1)
    } else {
        Err(FenError::BadCastling)
    }
}

/// Parses the castling field and its closing space: a lone `-`, or one or
/// more of `K`, `Q`, `k`, `q`.
pub open spec fn parse_castle(s: Seq<char>) -> Result<(u8, Seq<char>), FenError> {
    if s.len() == 0 {
        Err(FenError::BadFieldCount)
    } else if s[0] == '-' {
        if s.len() < 2 {
            Err(FenError::BadFieldCount)
        } else if s[1] != ' ' {
            Err(FenError::BadCastling)
        } else {
            Ok((0u8, s.subrange(2, s.len() as int)))
        }
    } else {
        parse_castle_chars(s, 0, 0)
    }
}

/// Parses the en passant field: `-` or an algebraic square, which must end
/// the text or be followed by a space (any later fields are ignored).
pub open spec fn parse_ep(s: Seq<char>) -> Result<u8, FenError> {
    if s.len() == 0 {
        Err(FenError::BadFieldCount)
    } else if s[0] == '-' {
        if s.len() == 1 || s[1] == ' ' {
            Ok(NO_EN_PASSANT)
        } else {
            Err(FenError::BadEnPassant)
        }
    } else if 'a' <= s[0] && s[0] <= 'h' {
        if s.len() < 2 {
            Err(FenError::BadFieldCount)
        } else if '1' <= s[1] && s[1] <= '8' {
            if s.len() == 2 || s[2] == ' ' {
                Ok(
                    (((s[1] as int - '1' as int) * 8 + (s[0] as int - 'a' as int)) as u8),
                )
            } else {
                Err(FenError::BadEnPassant)
            }
        } else {
            Err(FenError::BadEnPassant)
        }
    } else {
        Err(FenError::BadEnPassant)
    }
}

/// Full FEN parse: the four mandatory fields in order; halfmove and fullmove
/// counters, if present, are ignored.
pub open spec fn spec_parse(s: Seq<char>) -> Result<MatchV, FenError> {
    match parse_placement(s, 7, 0, empty_board()) {
        Err(e) => Err(e),
        Ok((board, s1)) => match parse_turn(s1) {
            Err(e) => Err(e),
            Ok((turn, s2)) => match parse_castle(s2) {
                Err(e) => Err(e),
                Ok((rights, s3)) => match parse_ep(s3) {
                    Err(e) => Err(e),
                    Ok(ep) => Ok(
                        MatchV { board, turn, castling_rights: rights, en_passant: ep },
                    ),
                },
            },
        },
    }
}

/// Digit character of a run length between 1 and 8.
pub open spec fn digit_char(n: int) -> char {
    if n == 1 {
        '1'
    } else if n == 2 {
        '2'
    } else if n == 3 {
        '3'
    } else if n == 4 {
        '4'
    } else if n == 5 {
        '5'
    } else if n == 6 {
        '6'
    } else if n == 7 {
        '7'
    } else {
        '8'
    }
}

/// Serialization of one rank from file `f` on, with `run` empty squares
/// already pending: empty squares coalesce into one digit, pieces appear as
/// their glyphs.
pub open spec fn ser_rank(b: Seq<Piece>, r: int, f: int, run: int) -> Seq<char>
    decreases 8 - f,
{
    if f < 0 || f >= 8 {
        if run > 0 {
            seq![digit_char(run)]
        } else {
            Seq::empty()
        }
    } else if !crate::board::occupied(b, r * 8 + f) {
        ser_rank(b, r, f + 1, run + 1)
    } else {
        (if run > 0 {
            seq![digit_char(run)]
        } else {
            Seq::empty()
        }) + seq![crate::piece::glyph_of(b[r * 8 + f])] + ser_rank(b, r, f + 1, 0)
    }
}

/// The ranks below `r`, each preceded by its separating slash.
pub open spec fn ser_ranks_below(b: Seq<Piece>, r: int) -> Seq<char>
    decreases r,
{
    if r > 0 {
        seq!['/'] + ser_rank(b, r - 1, 0, 0) + ser_ranks_below(b, r - 1)
    } else {
        Seq::empty()
    }
}

/// The whole placement field: ranks from `r` down to 0, slash-separated.
pub open spec fn ser_ranks(b: Seq<Piece>, r: int) -> Seq<char> {
    ser_rank(b, r, 0, 0) + ser_ranks_below(b, r)
}

/// Side-to-move character.
pub open spec fn turn_char(t: u8) -> char {
    if t == 0 {
        'w'
    } else {
        'b'
    }
}

/// Castling field: the held rights in fixed `KQkq` order, or `-` for none.
pub open spec fn ser_castle(c: u8) -> Seq<char> {
    if c == 0 {
        seq!['-']
    } else {
        (if c & CASTLE_WHITE_KING != 0 {
            seq!['K']
        } else {
            Seq::empty()
        }) + (if c & CASTLE_WHITE_QUEEN != 0 {
            seq!['Q']
        } else {
            Seq::empty()
        }) + (if c & CASTLE_BLACK_KING != 0 {
            seq!['k']
        } else {
            Seq::empty()
        }) + (if c & CASTLE_BLACK_QUEEN != 0 {
            seq!['q']
        } else {
            Seq::empty()
        })
    }
}

/// File letter of a square's file number.
pub open spec fn file_char(f: int) -> char {
    if f == 0 {
        'a'
    } else if f == 1 {
        'b'
    } else if f == 2 {
        'c'
    } else if f == 3 {
        'd'
    } else if f == 4 {
        'e'
    } else if f == 5 {
        'f'
    } else if f == 6 {
        'g'
    } else {
        'h'
    }
}

/// Rank digit of a square's rank number.
pub open spec fn rank_char(r: int) -> char {
    digit_char(r + 1)
}

/// En passant field: the target square in algebraic form, or `-`.
pub open spec fn ser_ep(ep: u8) -> Seq<char> {
    if ep >= 64 {
        seq!['-']
    } else {
        seq![file_char(ep as int % 8), rank_char(ep as int / 8)]
    }
}

/// The three scalar fields with their leading separators.
pub open spec fn fen_tail(m: MatchV) -> Seq<char> {
    seq![' '] + seq![turn_char(m.turn)] + seq![' '] + ser_castle(m.castling_rights) + seq![' ']
        + ser_ep(m.en_passant)
}

/// Canonical FEN text of a position: the placement field, the side to move,
/// the castling rights and the en passant target.
pub open spec fn spec_fen(m: MatchV) -> Seq<char> {
    ser_ranks(m.board, 7) + fen_tail(m)
}

/// Digit character of a run length (executable).
fn digit_char_exec(n: usize) -> (c: char)
    requires
        1 <= n <= 8,
    ensures
        c == digit_char(n as int),
{
    if n == 1 {
        '1'
    } else if n == 2 {
        '2'
    } else if n == 3 {
        '3'
    } else if n == 4 {
        '4'
    } else if n == 5 {
        '5'
    } else if n == 6 {
        '6'
    } else if n == 7 {
        '7'
    } else {
        '8'
    }
}

/// File letter of a square's file number (executable).
fn file_char_exec(f: usize) -> (c: char)
    requires
        f < 8,
    ensures
        c == file_char(f as int),
{
    if f == 0 {
        'a'
    } else if f == 1 {
        'b'
    } else if f == 2 {
        'c'
    } else if f == 3 {
        'd'
    } else if f == 4 {
        'e'
    } else if f == 5 {
        'f'
    } else if f == 6 {
        'g'
    } else {
        'h'
    }
}

/// Relies on `String::from_iter` over `char`: the collected string holds
/// exactly the characters of the vector, in order.
#[verifier::external_body]
fn chars_to_string(v: Vec<char>) -> (s: String)
    ensures
        s@ == v@,
{
    v.into_iter().collect()
}

/// The piece a placement letter denotes, or nothing for any other character.
fn char_piece(c: char) -> (r: Option<Piece>)
    ensures
        piece_char_ok(c) ==> r == Some(piece_of_char(c)),
        !piece_char_ok(c) ==> r is None,
{
    match c {
        'P' => Some(Piece(1)),
        'N' => Some(Piece(2)),
        'B' => Some(Piece(3)),
        'R' => Some(Piece(4)),
        'Q' => Some(Piece(5)),
        'K' => Some(Piece(6)),
        'p' => Some(Piece(17)),
        'n' => Some(Piece(18)),
        'b' => Some(Piece(19)),
        'r' => Some(Piece(20)),
        'q' => Some(Piece(21)),
        'k' => Some(Piece(22)),
        _ => None,
    }
}

/// Executable placement-field parser; yields the board and the index just
/// past the field's closing space.
fn placement_phase(s: &str, n: usize) -> (res: Result<([Piece; 64], usize), FenError>)
    requires
        n == s@.len(),
    ensures
        ({
            let g = parse_placement(s@, 7, 0, empty_board());
            match res {
                Ok(bi) => bi.1 <= n && g == Ok::<(Seq<Piece>, Seq<char>), FenError>(
                    (bi.0@, s@.subrange(bi.1 as int, n as int)),
                ),
                Err(e) => g == Err::<(Seq<Piece>, Seq<char>), FenError>(e),
            }
        }),
{
    let mut board: [Piece; 64] = vstd::array::array_fill_for_copy_types(Piece(0));
    proof {
        assert(board@ =~= empty_board());
        assert(s@.subrange(0, n as int) =~= s@);
    }
    let mut i: usize = 0;
    let mut r: usize = 7;
    let mut f: usize = 0;
    loop
        invariant
            n == s@.len(),
            i <= n,
            r <= 7,
            f <= 8,
            parse_placement(s@, 7, 0, empty_board()) == parse_placement(
                s@.subrange(i as int, n as int),
                r as int,
                f as int,
                board@,
            ),
        decreases n - i,
    {
        let ghost sub = s@.subrange(i as int, n as int);
        if i == n {
            return Err(FenError::BadFieldCount);
        }
        let c = s.get_char(i);
        proof {
            assert(sub[0] == c);
            assert(sub.subrange(1, sub.len() as int) =~= s@.subrange(i as int + 1, n as int));
        }
        if c == ' ' {
            if r == 0 && f == 8 {
                return Ok((board, i + 1));
            } else {
                return Err(FenError::BadRank);
            }
        } else if c == '/' {
            if f == 8 && r > 0 {
                r = r - 1;
                f = 0;
                i = i + 1;
            } else {
                return Err(FenError::BadRank);
            }
        } else {
            let u = c as u32;
            if 49 <= u && u <= 56 {
                let d = (u - 48) as usize;
                if f + d <= 8 {
                    f = f + d;
                    i = i + 1;
                } else {
                    return Err(FenError::BadRank);
                }
            } else {
                match char_piece(c) {
                    Some(p) => {
                        if f < 8 {
                            board[r * 8 + f] = p;
                            f = f + 1;
                            i = i + 1;
                        } else {
                            return Err(FenError::BadRank);
                        }
                    },
                    None => {
                        return Err(FenError::BadPiece);
                    },
                }
            }
        }
    }
}

/// Executable side-to-move parser; yields the colour code and the index just
/// past the field's closing space.
fn turn_phase(s: &str, n: usize, i: usize) -> (res: Result<(u8, usize), FenError>)
    requires
        n == s@.len(),
        i <= n,
    ensures
        ({
            let g = parse_turn(s@.subrange(i as int, n as int));
            match res {
                Ok(ti) => ti.1 <= n && g == Ok::<(u8, Seq<char>), FenError>(
                    (ti.0, s@.subrange(ti.1 as int, n as int)),
                ),
                Err(e) => g == Err::<(u8, Seq<char>), FenError>(e),
            }
        }),
{
    let ghost sub = s@.subrange(i as int, n as int);
    if i == n {
        return Err(FenError::BadFieldCount);
    }
    let c0 = s.get_char(i);
    proof {
        assert(sub[0] == c0);
    }
    if c0 != 'w' && c0 != 'b' {
        return Err(FenError::BadTurn);
    }
    if i + 1 == n {
        return Err(FenError::BadFieldCount);
    }
    let c1 = s.get_char(i + 1);
    proof {
        assert(sub[1] == c1);
    }
    if c1 != ' ' {
        return Err(FenError::BadTurn);
    }
    proof {
        assert(sub.subrange(2, sub.len() as int) =~= s@.subrange(i as int + 2, n as int));
    }
    Ok(
        (
            (if c0 == 'w' {
                0
            } else {
                1
            }),
            i + 2,
        ),
    )
}

/// Right bit a castling-field character sets, or 255 for no such character
/// (executable).
fn castle_bit_exec(c: char) -> (r: u8)
    ensures
        r == castle_bit(c),
{
    match c {
        'K' => CASTLE_WHITE_KING,
        'Q' => CASTLE_WHITE_QUEEN,
        'k' => CASTLE_BLACK_KING,
        'q' => CASTLE_BLACK_QUEEN,
        _ => 255,
    }
}

/// Executable castling-field parser; yields the rights byte and the index
/// just past the field's closing space.
fn castle_phase(s: &str, n: usize, i: usize) -> (res: Result<(u8, usize), FenError>)
    requires
        n == s@.len(),
        i <= n,
    ensures
        ({
            let g = parse_castle(s@.subrange(i as int, n as int));
            match res {
                Ok(ti) => ti.1 <= n && g == Ok::<(u8, Seq<char>), FenError>(
                    (ti.0, s@.subrange(ti.1 as int, n as int)),
                ),
                Err(e) => g == Err::<(u8, Seq<char>), FenError>(e),
            }
        }),
{
    let ghost sub = s@.subrange(i as int, n as int);
    if i == n {
        return Err(FenError::BadFieldCount);
    }
    let c0 = s.get_char(i);
    proof {
        assert(sub[0] == c0);
    }
    if c0 == '-' {
        if i + 1 == n {
            return Err(FenError::BadFieldCount);
        }
        let c1 = s.get_char(i + 1);
        proof {
            assert(sub[1] == c1);
        }
        if c1 != ' ' {
            return Err(FenError::BadCastling);
        }
        proof {
            assert(sub.subrange(2, sub.len() as int) =~= s@.subrange(i as int + 2, n as int));
        }
        return Ok((0, i + 2));
    }
    let mut acc: u8 = 0;
    let mut j: usize = i;
    loop
        invariant
            n == s@.len(),
            i <= j <= n,
            parse_castle(s@.subrange(i as int, n as int)) == parse_castle_chars(
                s@.subrange(j as int, n as int),
                acc,
                j - i,
            ),
        decreases n - j,
    {
        let ghost subj = s@.subrange(j as int, n as int);
        if j == n {
            return Err(FenError::BadFieldCount);
        }
        let c = s.get_char(j);
        proof {
            assert(subj[0] == c);
            assert(subj.subrange(1, subj.len() as int) =~= s@.subrange(j as int + 1, n as int));
        }
        if c == ' ' {
            if j > i {
                return Ok((acc, j + 1));
            } else {
                return Err(FenError::BadCastling);
            }
        }
        let bit = castle_bit_exec(c);
        if bit == 255 {
            return Err(FenError::BadCastling);
        }
        acc = acc | bit;
        j = j + 1;
    }
}

/// Executable en-passant-field parser; yields the target square or its
/// sentinel.
fn ep_phase(s: &str, n: usize, i: usize) -> (res: Result<u8, FenError>)
    requires
        n == s@.len(),
        i <= n,
    ensures
        ({
            let g = parse_ep(s@.subrange(i as int, n as int));
            match res {
                Ok(ep) => g == Ok::<u8, FenError>(ep),
                Err(e) => g == Err::<u8, FenError>(e),
            }
        }),
{
    let ghost sub = s@.subrange(i as int, n as int);
    if i == n {
        return Err(FenError::BadFieldCount);
    }
    let c0 = s.get_char(i);
    proof {
        assert(sub[0] == c0);
    }
    if c0 == '-' {
        if i + 1 == n {
            return Ok(NO_EN_PASSANT);
        }
        let c1 = s.get_char(i + 1);
        proof {
            assert(sub[1] == c1);
        }
        if c1 == ' ' {
            return Ok(NO_EN_PASSANT);
        } else {
            return Err(FenError::BadEnPassant);
        }
    }
    let u0 = c0 as u32;
    if !(97 <= u0 && u0 <= 104) {
        return Err(FenError::BadEnPassant);
    }
    if i + 1 == n {
        return Err(FenError::BadFieldCount);
    }
    let c1 = s.get_char(i + 1);
    proof {
        assert(sub[1] == c1);
    }
    let u1 = c1 as u32;
    if !(49 <= u1 && u1 <= 56) {
        return Err(FenError::BadEnPassant);
    }
    if i + 2 < n {
        let c2 = s.get_char(i + 2);
        proof {
            assert(sub[2] == c2);
        }
        if c2 != ' ' {
            return Err(FenError::BadEnPassant);
        }
    }
    Ok((((u1 - 49) * 8 + (u0 - 97)) as u8))
}

/// Parsed placement boards stay decodable: parsing only writes piece letters'
/// bytes onto a board whose bytes were decodable already.
proof fn lemma_placement_wf(s: Seq<char>, r: int, f: int, b: Seq<Piece>)
    requires
        b.len() == 64,
        forall|i: int| 0 <= i < 64 ==> wf_piece(#[trigger] b[i]),
        0 <= r <= 7,
        0 <= f <= 8,
        parse_placement(s, r, f, b) is Ok,
    ensures
        parse_placement(s, r, f, b)->Ok_0.0.len() == 64,
        forall|i: int| 0 <= i < 64 ==> wf_piece(#[trigger] parse_placement(s, r, f, b)->Ok_0.0[i]),
    decreases s.len(),
{
    let c = s[0];
    let rest = s.subrange(1, s.len() as int);
    if c == ' ' {
    } else if c == '/' {
        lemma_placement_wf(rest, r - 1, 0, b);
    } else if '1' <= c && c <= '8' {
        lemma_placement_wf(rest, r, f + (c as int - '0' as int), b);
    } else {
        let b2 = b.update(r * 8 + f, piece_of_char(c));
        assert((1u8 & 0x0F) == 1 && (2u8 & 0x0F) == 2 && (3u8 & 0x0F) == 3 && (4u8 & 0x0F) == 4
            && (5u8 & 0x0F) == 5 && (6u8 & 0x0F) == 6 && (17u8 & 0x0F) == 1 && (18u8 & 0x0F) == 2
            && (19u8 & 0x0F) == 3 && (20u8 & 0x0F) == 4 && (21u8 & 0x0F) == 5 && (22u8 & 0x0F)
            == 6) by (bit_vector);
        assert(wf_piece(piece_of_char(c)));
        lemma_placement_wf(rest, r, f + 1, b2);
    }
}

/// Parsed castling fields stay within the four right bits.
proof fn lemma_castle_wf(s: Seq<char>, acc: u8, taken: int)
    requires
        acc < 16,
        parse_castle_chars(s, acc, taken) is Ok,
    ensures
        parse_castle_chars(s, acc, taken)->Ok_0.0 < 16,
    decreases s.len(),
{
    if s.len() == 0 {
    } else if s[0] == ' ' {
    } else if castle_bit(s[0]) != 255 {
        let bit = castle_bit(s[0]);
        assert(acc < 16 && (bit == 1 || bit == 2 || bit == 4 || bit == 8) ==> (acc | bit)
            < 16) by (bit_vector);
        lemma_castle_wf(s.subrange(1, s.len() as int), acc | bit, taken + 1);
    }
}

/// Every empty-board byte is decodable.
proof fn lemma_empty_board_wf()
    ensures
        empty_board().len() == 64,
        forall|i: int| 0 <= i < 64 ==> wf_piece(#[trigger] empty_board()[i]),
{
    assert((0u8 & 0x0F) == 0) by (bit_vector);
}

/// The board `cur` with the occupied squares of rank `r`, from file `f` on,
/// overwritten with the pieces `b` holds there.
pub open spec fn write_rank(cur: Seq<Piece>, b: Seq<Piece>, r: int, f: int) -> Seq<Piece>
    decreases 8 - f,
{
    if f < 0 || f >= 8 {
        cur
    } else if crate::board::occupied(b, r * 8 + f) {
        write_rank(cur.update(r * 8 + f, b[r * 8 + f]), b, r, f + 1)
    } else {
        write_rank(cur, b, r, f + 1)
    }
}

/// The board `cur` with the occupied squares of ranks `r` down to 0
/// overwritten with the pieces `b` holds there.
pub open spec fn write_ranks(cur: Seq<Piece>, b: Seq<Piece>, r: int) -> Seq<Piece>
    decreases r,
{
    if r > 0 {
        write_ranks(write_rank(cur, b, r, 0), b, r - 1)
    } else {
        write_rank(cur, b, r, 0)
    }
}

/// A decodable occupied piece byte maps to a placement letter and back to
/// itself, and that letter collides with no structural character.
proof fn lemma_glyph_inverse(p: Piece)
    requires
        wf_piece(p),
        crate::piece::kind_bits(p) != 0,
    ensures
        piece_char_ok(crate::piece::glyph_of(p)),
        piece_of_char(crate::piece::glyph_of(p)) == p,
        crate::piece::glyph_of(p) != ' ',
        crate::piece::glyph_of(p) != '/',
        !('1' <= crate::piece::glyph_of(p) && crate::piece::glyph_of(p) <= '8'),
{
    let v = p.0;
    assert(v < 32 ==> v == (v & 0x0F) + 16 * ((v >> 4u8) & 1)) by (bit_vector);
}

/// Parsing the serialization of one rank writes exactly that rank's pieces
/// and hands the rest of the text on at the rank's end.
proof fn lemma_rank_rt(b: Seq<Piece>, cur: Seq<Piece>, rest: Seq<char>, r: int, f: int, run: int)
    requires
        b.len() == 64,
        forall|i: int| 0 <= i < 64 ==> wf_piece(#[trigger] b[i]),
        0 <= r <= 7,
        0 <= run <= f <= 8,
    ensures
        parse_placement(ser_rank(b, r, f, run) + rest, r, f - run, cur) == parse_placement(
            rest,
            r,
            8,
            write_rank(cur, b, r, f),
        ),
    decreases 8 - f,
{
    if f == 8 {
        if run > 0 {
            let st = ser_rank(b, r, f, run) + rest;
            assert(st =~= seq![digit_char(run)] + rest);
            assert(st[0] == digit_char(run));
            assert('1' <= st[0] && st[0] <= '8' && st[0] as int - '0' as int == run);
            assert(st.subrange(1, st.len() as int) =~= rest);
        } else {
            assert(ser_rank(b, r, f, run) + rest =~= rest);
        }
    } else if !crate::board::occupied(b, r * 8 + f) {
        lemma_rank_rt(b, cur, rest, r, f + 1, run + 1);
    } else {
        let pc = b[r * 8 + f];
        lemma_glyph_inverse(pc);
        let g = crate::piece::glyph_of(pc);
        let tail2 = seq![g] + (ser_rank(b, r, f + 1, 0) + rest);
        let st = ser_rank(b, r, f, run) + rest;
        if run > 0 {
            assert(st =~= seq![digit_char(run)] + tail2);
            assert(st[0] == digit_char(run));
            assert('1' <= st[0] && st[0] <= '8' && st[0] as int - '0' as int == run);
            assert(st.subrange(1, st.len() as int) =~= tail2);
            assert(parse_placement(st, r, f - run, cur) == parse_placement(tail2, r, f, cur));
        } else {
            assert(st =~= tail2);
        }
        assert(tail2[0] == g);
        assert(tail2.subrange(1, tail2.len() as int) =~= ser_rank(b, r, f + 1, 0) + rest);
        assert(parse_placement(tail2, r, f, cur) == parse_placement(
            ser_rank(b, r, f + 1, 0) + rest,
            r,
            f + 1,
            cur.update(r * 8 + f, pc),
        ));
        lemma_rank_rt(b, cur.update(r * 8 + f, pc), rest, r, f + 1, 0);
    }
}

/// `write_rank` touches exactly rank `r`'s occupied squares from file `f`.
proof fn lemma_write_rank_effect(cur: Seq<Piece>, b: Seq<Piece>, r: int, f: int)
    requires
        cur.len() == 64,
        0 <= r <= 7,
        0 <= f <= 8,
    ensures
        write_rank(cur, b, r, f).len() == 64,
        forall|i: int|
            0 <= i < 64 ==> #[trigger] write_rank(cur, b, r, f)[i] == (if r * 8 + f <= i < r * 8
                + 8 && crate::board::occupied(b, i) {
                b[i]
            } else {
                cur[i]
            }),
    decreases 8 - f,
{
    if f < 8 {
        if crate::board::occupied(b, r * 8 + f) {
            let cur2 = cur.update(r * 8 + f, b[r * 8 + f]);
            lemma_write_rank_effect(cur2, b, r, f + 1);
            assert(write_rank(cur, b, r, f) == write_rank(cur2, b, r, f + 1));
            assert forall|i: int| 0 <= i < 64 implies write_rank(cur, b, r, f)[i] == (if r * 8 + f
                <= i < r * 8 + 8 && crate::board::occupied(b, i) {
                b[i]
            } else {
                cur[i]
            }) by {
                assert(write_rank(cur2, b, r, f + 1)[i] == (if r * 8 + f + 1 <= i < r * 8 + 8
                    && crate::board::occupied(b, i) {
                    b[i]
                } else {
                    cur2[i]
                }));
            }
        } else {
            lemma_write_rank_effect(cur, b, r, f + 1);
            assert(write_rank(cur, b, r, f) == write_rank(cur, b, r, f + 1));
            assert forall|i: int| 0 <= i < 64 implies write_rank(cur, b, r, f)[i] == (if r * 8 + f
                <= i < r * 8 + 8 && crate::board::occupied(b, i) {
                b[i]
            } else {
                cur[i]
            }) by {
                assert(write_rank(cur, b, r, f + 1)[i] == (if r * 8 + f + 1 <= i < r * 8 + 8
                    && crate::board::occupied(b, i) {
                    b[i]
                } else {
                    cur[i]
                }));
            }
        }
    }
}

/// `write_ranks` touches exactly the occupied squares of ranks `r` down
/// to 0.
proof fn lemma_write_ranks_effect(cur: Seq<Piece>, b: Seq<Piece>, r: int)
    requires
        cur.len() == 64,
        0 <= r <= 7,
    ensures
        write_ranks(cur, b, r).len() == 64,
        forall|i: int|
            0 <= i < 64 ==> #[trigger] write_ranks(cur, b, r)[i] == (if i < r * 8 + 8
                && crate::board::occupied(b, i) {
                b[i]
            } else {
                cur[i]
            }),
    decreases r,
{
    lemma_write_rank_effect(cur, b, r, 0);
    let cur2 = write_rank(cur, b, r, 0);
    if r > 0 {
        lemma_write_ranks_effect(cur2, b, r - 1);
        assert(write_ranks(cur, b, r) == write_ranks(cur2, b, r - 1));
        assert forall|i: int| 0 <= i < 64 implies write_ranks(cur, b, r)[i] == (if i < r * 8 + 8
            && crate::board::occupied(b, i) {
            b[i]
        } else {
            cur[i]
        }) by {
            assert(write_ranks(cur2, b, r - 1)[i] == (if i < (r - 1) * 8 + 8
                && crate::board::occupied(b, i) {
                b[i]
            } else {
                cur2[i]
            }));
            assert(cur2[i] == (if r * 8 <= i < r * 8 + 8 && crate::board::occupied(b, i) {
                b[i]
            } else {
                cur[i]
            }));
        }
    }
}

/// Parsing the serialization of ranks `r` down to 0 writes exactly their
/// pieces and hands the rest of the text on.
proof fn lemma_ranks_rt(b: Seq<Piece>, cur: Seq<Piece>, rest: Seq<char>, r: int)
    requires
        b.len() == 64,
        forall|i: int| 0 <= i < 64 ==> wf_piece(#[trigger] b[i]),
        0 <= r <= 7,
    ensures
        parse_placement(ser_rank(b, r, 0, 0) + ser_ranks_below(b, r) + rest, r, 0, cur)
            == parse_placement(rest, 0, 8, write_ranks(cur, b, r)),
    decreases r,
{
    let below = ser_ranks_below(b, r);
    assert(ser_rank(b, r, 0, 0) + below + rest =~= ser_rank(b, r, 0, 0) + (below + rest));
    lemma_rank_rt(b, cur, below + rest, r, 0, 0);
    let cur2 = write_rank(cur, b, r, 0);
    if r > 0 {
        let st = below + rest;
        let next = ser_rank(b, r - 1, 0, 0) + ser_ranks_below(b, r - 1) + rest;
        assert(st =~= seq!['/'] + next);
        assert(st[0] == '/');
        assert(st.subrange(1, st.len() as int) =~= next);
        assert(parse_placement(st, r, 8, cur2) == parse_placement(next, r - 1, 0, cur2));
        lemma_ranks_rt(b, cur2, rest, r - 1);
    } else {
        assert(below + rest =~= rest);
    }
}

/// Parsing the serialization of a non-empty castling field recovers exactly
/// the rights byte and hands the rest of the text on.
proof fn lemma_castle_rt(c: u8, rest: Seq<char>)
    requires
        0 < c < 16,
    ensures
        parse_castle(ser_castle(c) + (seq![' '] + rest)) == Ok::<(u8, Seq<char>), FenError>(
            (c, rest),
        ),
{
    let sk_w = if c & 1 != 0 {
        seq!['K']
    } else {
        Seq::<char>::empty()
    };
    let sq_w = if c & 2 != 0 {
        seq!['Q']
    } else {
        Seq::<char>::empty()
    };
    let sk_b = if c & 4 != 0 {
        seq!['k']
    } else {
        Seq::<char>::empty()
    };
    let sq_b = if c & 8 != 0 {
        seq!['q']
    } else {
        Seq::<char>::empty()
    };
    let t4 = seq![' '] + rest;
    let t3 = sq_b + t4;
    let t2 = sk_b + t3;
    let t1 = sq_w + t2;
    let t0 = sk_w + t1;
    let s0 = ser_castle(c) + (seq![' '] + rest);
    assert(s0 =~= t0);
    assert((c & 1) <= 1 && (c & 2) <= 2 && (c & 4) <= 4 && (c & 8) <= 8 && (c & 1 == 0 || c & 1
        == 1) && (c & 2 == 0 || c & 2 == 2) && (c & 4 == 0 || c & 4 == 4) && (c & 8 == 0 || c & 8
        == 8) && ((((c & 1) | (c & 2)) | (c & 4)) | (c & 8)) == c && (c & 1 == 0 && c & 2 == 0 && c
        & 4 == 0 ==> c & 8 == 8) && ((0u8 | 1) == 1) && (((c & 1) | 2) == ((c & 1) | (c & 2)) || c
        & 2 == 0) && ((((c & 1) | (c & 2)) | 4) == (((c & 1) | (c & 2)) | (c & 4)) || c & 4 == 0)
        && (((((c & 1) | (c & 2)) | (c & 4)) | 8) == ((((c & 1) | (c & 2)) | (c & 4)) | (c & 8))
        || c & 8 == 0)) by (bit_vector)
        requires
            0 < c < 16,
    ;
    let a1: u8 = c & 1;
    let a2: u8 = a1 | (c & 2);
    let a3: u8 = a2 | (c & 4);
    let a4: u8 = a3 | (c & 8);
    let k1: int = if c & 1 != 0 {
        1
    } else {
        0
    };
    let k2: int = k1 + (if c & 2 != 0 {
        1int
    } else {
        0int
    });
    let k3: int = k2 + (if c & 4 != 0 {
        1int
    } else {
        0int
    });
    let k4: int = k3 + (if c & 8 != 0 {
        1int
    } else {
        0int
    });
    if c & 1 != 0 {
        assert(t0[0] == 'K');
        assert(t0.subrange(1, t0.len() as int) =~= t1);
        assert(parse_castle_chars(t0, 0, 0) == parse_castle_chars(t1, a1, k1));
    } else {
        assert(t0 =~= t1);
    }
    if c & 2 != 0 {
        assert(t1[0] == 'Q');
        assert(t1.subrange(1, t1.len() as int) =~= t2);
        assert(parse_castle_chars(t1, a1, k1) == parse_castle_chars(t2, a2, k2));
    } else {
        assert(t1 =~= t2);
        assert((a1 | 0u8) == a1) by (bit_vector);
    }
    if c & 4 != 0 {
        assert(t2[0] == 'k');
        assert(t2.subrange(1, t2.len() as int) =~= t3);
        assert(parse_castle_chars(t2, a2, k2) == parse_castle_chars(t3, a3, k3));
    } else {
        assert(t2 =~= t3);
        assert((a2 | 0u8) == a2) by (bit_vector);
    }
    if c & 8 != 0 {
        assert(t3[0] == 'q');
        assert(t3.subrange(1, t3.len() as int) =~= t4);
        assert(parse_castle_chars(t3, a3, k3) == parse_castle_chars(t4, a4, k4));
    } else {
        assert(t3 =~= t4);
        assert((a3 | 0u8) == a3) by (bit_vector);
    }
    assert(k4 > 0);
    assert(a4 == c);
    assert(t4[0] == ' ');
    assert(t4.subrange(1, t4.len() as int) =~= rest);
    assert(parse_castle_chars(t4, a4, k4) == Ok::<(u8, Seq<char>), FenError>((c, rest)));
    assert(parse_castle_chars(t0, 0, 0) == parse_castle_chars(t1, a1, k1));
    assert(parse_castle_chars(t1, a1, k1) == parse_castle_chars(t2, a2, k2));
    assert(parse_castle_chars(t2, a2, k2) == parse_castle_chars(t3, a3, k3));
    assert(parse_castle_chars(t3, a3, k3) == parse_castle_chars(t4, a4, k4));
    assert(s0[0] != '-');
    assert(parse_castle(s0) == parse_castle_chars(s0, 0, 0));
    assert(parse_castle_chars(s0, 0, 0) == parse_castle_chars(t0, 0, 0));
    assert(parse_castle(s0) == Ok::<(u8, Seq<char>), FenError>((c, rest)));
}

/// Serializing a position and parsing the text back yields the position
/// itself: the FEN codec is lossless on every structurally sound position.
pub proof fn lemma_fen_round_trip(m: MatchV)
    requires
        wf_state(m),
    ensures
        spec_parse(spec_fen(m)) == Ok::<MatchV, FenError>(m),
{
    let b = m.board;
    let tail = fen_tail(m);
    assert(spec_fen(m) =~= ser_rank(b, 7, 0, 0) + ser_ranks_below(b, 7) + tail);
    lemma_ranks_rt(b, empty_board(), tail, 7);
    let w = write_ranks(empty_board(), b, 7);
    lemma_write_ranks_effect(empty_board(), b, 7);
    assert(w =~= b) by {
        assert forall|i: int| 0 <= i < 64 implies w[i] == b[i] by {
            assert(wf_piece(b[i]));
            if !crate::board::occupied(b, i) {
                assert(b[i].0 & 0x0F == 0);
                assert(b[i] == Piece(0));
            }
        }
    }
    let t1 = seq![turn_char(m.turn)] + (seq![' '] + (ser_castle(m.castling_rights) + (seq![' ']
        + ser_ep(m.en_passant))));
    assert(tail =~= seq![' '] + t1);
    assert(tail[0] == ' ');
    assert(tail.subrange(1, tail.len() as int) =~= t1);
    assert(parse_placement(tail, 0, 8, w) == Ok::<(Seq<Piece>, Seq<char>), FenError>((w, t1)));
    assert(parse_placement(spec_fen(m), 7, 0, empty_board()) == Ok::<
        (Seq<Piece>, Seq<char>),
        FenError,
    >((w, t1)));
    let t2 = ser_castle(m.castling_rights) + (seq![' '] + ser_ep(m.en_passant));
    assert(t1[0] == turn_char(m.turn));
    assert(t1[1] == ' ');
    assert(t1.subrange(2, t1.len() as int) =~= t2);
    assert(parse_turn(t1) == Ok::<(u8, Seq<char>), FenError>((m.turn, t2)));
    let t3 = ser_ep(m.en_passant);
    if m.castling_rights == 0 {
        assert(t2 =~= seq!['-'] + (seq![' '] + t3));
        assert(t2[0] == '-');
        assert(t2[1] == ' ');
        assert(t2.subrange(2, t2.len() as int) =~= t3);
        assert(parse_castle(t2) == Ok::<(u8, Seq<char>), FenError>((0u8, t3)));
    } else {
        lemma_castle_rt(m.castling_rights, t3);
    }
    if m.en_passant == NO_EN_PASSANT {
        assert(t3 =~= seq!['-']);
        assert(parse_ep(t3) == Ok::<u8, FenError>(NO_EN_PASSANT));
    } else {
        let ep = m.en_passant as int;
        assert(t3 =~= seq![file_char(ep % 8), rank_char(ep / 8)]);
        assert(t3[0] == file_char(ep % 8) && t3[1] == rank_char(ep / 8));
        assert('a' <= t3[0] && t3[0] <= 'h' && t3[0] as int - 'a' as int == ep % 8);
        assert('1' <= t3[1] && t3[1] <= '8' && t3[1] as int - '1' as int == ep / 8);
        assert(parse_ep(t3) == Ok::<u8, FenError>(m.en_passant));
    }
    assert(spec_parse(spec_fen(m)) == Ok::<MatchV, FenError>(
        MatchV {
            board: w,
            turn: m.turn,
            castling_rights: m.castling_rights,
            en_passant: m.en_passant,
        },
    ));
    assert(MatchV {
        board: w,
        turn: m.turn,
        castling_rights: m.castling_rights,
        en_passant: m.en_passant,
    } =~= m);
}

impl Match {
    /// Parses a FEN string; on success the position is exactly the one the
    /// parse model describes, and it is structurally sound. Each error names
    /// the first offending field.
    pub fn try_from_fen(fen: &str) -> (res: Result<Match, FenError>)
        ensures
            ({
                let g = spec_parse(fen@);
                match res {
                    Ok(m) => g == Ok::<MatchV, FenError>(m@) && wf_state(m@),
                    Err(e) => g == Err::<MatchV, FenError>(e),
                }
            }),
    {
        let n = fen.unicode_len();
        let (board, i1) = match placement_phase(fen, n) {
            Ok(x) => x,
            Err(e) => {
                return Err(e);
            },
        };
        let (turn, i2) = match turn_phase(fen, n, i1) {
            Ok(x) => x,
            Err(e) => {
                return Err(e);
            },
        };
        let (rights, i3) = match castle_phase(fen, n, i2) {
            Ok(x) => x,
            Err(e) => {
                return Err(e);
            },
        };
        let ep = match ep_phase(fen, n, i3) {
            Ok(x) => x,
            Err(e) => {
                return Err(e);
            },
        };
        let m = Match { board, turn, castling_rights: rights, en_passant: ep };
        proof {
            lemma_empty_board_wf();
            lemma_placement_wf(fen@, 7, 0, empty_board());
            if fen@.subrange(i2 as int, n as int)[0] != '-' {
                lemma_castle_wf(fen@.subrange(i2 as int, n as int), 0, 0);
            }
        }
        Ok(m)
    }

    /// Parses a FEN string known to be well formed.
    pub fn from_fen(fen: &str) -> (m: Match)
        requires
            spec_parse(fen@) is Ok,
        ensures
            m@ == spec_parse(fen@)->Ok_0,
            wf_state(m@),
    {
        match Self::try_from_fen(fen) {
            Ok(m) => m,
            Err(_) => vstd::pervasive::unreached(),
        }
    }

    /// Serializes the position to its canonical FEN text.
    #[verifier::rlimit(100)]
    pub fn to_fen(&self) -> (s: String)
        requires
            wf_state(self@),
        ensures
            s@ == spec_fen(self@),
    {
        let ghost m = self@;
        let ghost bb = self@.board;
        let mut out: Vec<char> = Vec::new();
        let mut rank: usize = 7;
        proof {
            assert(out@ + ser_ranks(bb, 7) + fen_tail(m) =~= spec_fen(m));
        }
        loop
            invariant_except_break
                wf_state(m),
                m == self@,
                bb == self@.board,
                rank <= 7,
                out@ + ser_rank(bb, rank as int, 0, 0) + ser_ranks_below(bb, rank as int)
                    + fen_tail(m) == spec_fen(m),
            ensures
                out@ + fen_tail(m) == spec_fen(m),
            decreases rank,
        {
            let mut f: usize = 0;
            let mut run: usize = 0;
            while f < 8
                invariant
                    wf_state(m),
                    m == self@,
                    bb == self@.board,
                    rank <= 7,
                    f <= 8,
                    run <= f,
                    out@ + ser_rank(bb, rank as int, f as int, run as int) + ser_ranks_below(
                        bb,
                        rank as int,
                    ) + fen_tail(m) == spec_fen(m),
                decreases 8 - f,
            {
                let sq = rank * 8 + f;
                let p = self.board[sq];
                if p.0 & 0x0F != 0 {
                    if run > 0 {
                        let d = digit_char_exec(run);
                        out.push(d);
                        proof {
                            assert(out@ =~= out@.subrange(0, out@.len() - 1) + seq![
                                digit_char(run as int),
                            ]);
                        }
                    }
                    out.push(p.to_glyph());
                    run = 0;
                    proof {
                        assert(out@ + ser_rank(bb, rank as int, f as int + 1, 0)
                            + ser_ranks_below(bb, rank as int) + fen_tail(m) =~= spec_fen(m));
                    }
                } else {
                    run = run + 1;
                }
                f = f + 1;
            }
            if run > 0 {
                let d = digit_char_exec(run);
                out.push(d);
            }
            proof {
                assert(out@ + ser_ranks_below(bb, rank as int) + fen_tail(m) =~= spec_fen(m));
            }
            if rank == 0 {
                break ;
            }
            out.push('/');
            rank = rank - 1;
            proof {
                assert(out@ + ser_rank(bb, rank as int, 0, 0) + ser_ranks_below(bb, rank as int)
                    + fen_tail(m) =~= spec_fen(m));
            }
        }
        out.push(' ');
        if self.turn == 0 {
            out.push('w');
        } else {
            out.push('b');
        }
        out.push(' ');
        let c = self.castling_rights;
        if c == 0 {
            out.push('-');
        } else {
            if c & CASTLE_WHITE_KING != 0 {
                out.push('K');
            }
            if c & CASTLE_WHITE_QUEEN != 0 {
                out.push('Q');
            }
            if c & CASTLE_BLACK_KING != 0 {
                out.push('k');
            }
            if c & CASTLE_BLACK_QUEEN != 0 {
                out.push('q');
            }
        }
        out.push(' ');
        let ep = self.en_passant;
        if ep >= 64 {
            out.push('-');
        } else {
            let fc = file_char_exec((ep % 8) as usize);
            out.push(fc);
            let rc = digit_char_exec((ep / 8) as usize + 1);
            out.push(rc);
        }
        proof {
            assert(out@ =~= spec_fen(m));
        }
        chars_to_string(out)
    }
}

} // verus!
