//! Piece codec: a piece's kind and colour packed into one byte.

use vstd::prelude::*;

verus! {

/// Kind of a chess piece, stored in the low four bits of a `Piece` byte.
#[derive(Clone, Copy, PartialEq, Eq, Structural, Debug)]
pub enum PieceType {
    Empty,
    Pawn,
    Knight,
    Bishop,
    Rook,
    Queen,
    King,
}

/// Side a piece belongs to, stored in one bit of a `Piece` byte.
#[derive(Clone, Copy, PartialEq, Eq, Structural, Debug)]
pub enum Colour {
    White,
    Black,
}

/// One board square's content: kind in the low four bits, colour in bit four.
/// An empty square is the byte zero.
#[derive(Clone, Copy, PartialEq, Eq, Structural, Debug)]
pub struct Piece(pub u8);

pub const TYPE_MASK: u8 = 0x0F;
pub const COLOUR_SHIFT: u8 = 4;

/// Numeric code of a piece kind, as stored in the low bits of the byte.
pub open spec fn type_code(t: PieceType) -> u8 {
    match t {
        PieceType::Empty => 0,
        PieceType::Pawn => 1,
        PieceType::Knight => 2,
        PieceType::Bishop => 3,
        PieceType::Rook => 4,
        PieceType::Queen => 5,
        PieceType::King => 6,
    }
}

/// Piece kind encoded by a code at most 6.
pub open spec fn type_from_code(code: u8) -> PieceType {
    if code == 0 {
        PieceType::Empty
    } else if code == 1 {
        PieceType::Pawn
    } else if code == 2 {
        PieceType::Knight
    } else if code == 3 {
        PieceType::Bishop
    } else if code == 4 {
        PieceType::Rook
    } else if code == 5 {
        PieceType::Queen
    } else {
        PieceType::King
    }
}

/// Numeric code of a colour: white is 0, black is 1.
pub open spec fn colour_code(c: Colour) -> u8 {
    match c {
        Colour::White => 0,
        Colour::Black => 1,
    }
}

/// The kind bits of a piece byte.
pub open spec fn kind_bits(p: Piece) -> u8 {
    p.0 & TYPE_MASK
}

/// The colour bit of a piece byte: 0 for white, 1 for black.
pub open spec fn colour_bit(p: Piece) -> u8 {
    (p.0 >> COLOUR_SHIFT) & 1
}

/// A byte that decodes to a defined piece kind, with no stray high bits,
/// and an empty square stored as the byte zero.
pub open spec fn wf_piece(p: Piece) -> bool {
    &&& kind_bits(p) <= 6
    &&& p.0 < 32
    &&& (kind_bits(p) == 0 ==> p.0 == 0)
}

/// Display letter of a piece: lower case for black, upper case for white,
/// a space for an empty square.
pub open spec fn glyph_of(p: Piece) -> char {
    let k = kind_bits(p);
    let white = colour_bit(p) == 0;
    if k == 1 {
        if white { 'P' } else { 'p' }
    } else if k == 2 {
        if white { 'N' } else { 'n' }
    } else if k == 3 {
        if white { 'B' } else { 'b' }
    } else if k == 4 {
        if white { 'R' } else { 'r' }
    } else if k == 5 {
        if white { 'Q' } else { 'q' }
    } else if k == 6 {
        if white { 'K' } else { 'k' }
    } else {
        ' '
    }
}

impl PieceType {
    /// Decodes a kind code; codes above 6 name no kind.
    pub fn from_code(code: u8) -> (r: Option<PieceType>)
        ensures
            code <= 6 ==> r == Some(type_from_code(code)),
            code > 6 ==> r is None,
    {
        if code == 0 {
            Some(PieceType::Empty)
        } else if code == 1 {
            Some(PieceType::Pawn)
        } else if code == 2 {
            Some(PieceType::Knight)
        } else if code == 3 {
            Some(PieceType::Bishop)
        } else if code == 4 {
            Some(PieceType::Rook)
        } else if code == 5 {
            Some(PieceType::Queen)
        } else if code == 6 {
            Some(PieceType::King)
        } else {
            None
        }
    }
}

impl Colour {
    /// Decodes a colour code; only 0 and 1 name a colour.
    pub fn from_code(code: u8) -> (r: Option<Colour>)
        ensures
            code == 0 ==> r == Some(Colour::White),
            code == 1 ==> r == Some(Colour::Black),
            code > 1 ==> r is None,
    {
        if code == 0 {
            Some(Colour::White)
        } else if code == 1 {
            Some(Colour::Black)
        } else {
            None
        }
    }
}

impl Piece {
    /// Packs a kind code and a colour code into one byte.
    pub fn new(piece_type: u8, colour: u8) -> (r: Piece)
        requires
            piece_type <= 6,
            colour <= 1,
        ensures
            r.0 == piece_type | (colour << COLOUR_SHIFT),
            kind_bits(r) == piece_type,
            colour_bit(r) == colour,
            piece_type == 0 && colour == 0 ==> r.0 == 0,
            r.0 < 32,
    {
        let r = Piece((piece_type & TYPE_MASK) | (colour << COLOUR_SHIFT));
        proof {
            let pt = piece_type;
            let cl = colour;
            assert(((pt & 0x0F) | (cl << 4u8)) == (pt | (cl << 4u8))
                && (((pt & 0x0F) | (cl << 4u8)) & 0x0F) == pt
                && ((((pt & 0x0F) | (cl << 4u8)) >> 4u8) & 1) == cl
                && ((pt & 0x0F) | (cl << 4u8)) < 32
                && (pt == 0 && cl == 0 ==> ((pt & 0x0F) | (cl << 4u8)) == 0)) by (bit_vector)
                requires
                    pt <= 6,
                    cl <= 1,
            ;
        }
        r
    }

    /// Unpacks the kind bits; the byte must hold a defined kind code.
    pub fn get_type(&self) -> (r: PieceType)
        requires
            kind_bits(*self) <= 6,
        ensures
            r == type_from_code(kind_bits(*self)),
    {
        let code = self.0 & TYPE_MASK;
        if code == 0 {
            PieceType::Empty
        } else if code == 1 {
            PieceType::Pawn
        } else if code == 2 {
            PieceType::Knight
        } else if code == 3 {
            PieceType::Bishop
        } else if code == 4 {
            PieceType::Rook
        } else if code == 5 {
            PieceType::Queen
        } else {
            PieceType::King
        }
    }

    /// Unpacks the colour bit.
    pub fn get_colour(&self) -> (r: Colour)
        ensures
            r == (if colour_bit(*self) == 1 { Colour::Black } else { Colour::White }),
            colour_code(r) == colour_bit(*self),
    {
        proof {
            let b = self.0;
            assert(((b >> 4u8) & 1) == 0 || ((b >> 4u8) & 1) == 1) by (bit_vector);
        }
        if (self.0 >> COLOUR_SHIFT) & 1 == 1 {
            Colour::Black
        } else {
            Colour::White
        }
    }

    /// Display letter of the piece: upper case for white, lower case for
    /// black, a space for an empty square.
    pub fn to_glyph(&self) -> (c: char)
        requires
            kind_bits(*self) <= 6,
        ensures
            c == glyph_of(*self),
    {
        let code = self.0 & TYPE_MASK;
        let white = (self.0 >> COLOUR_SHIFT) & 1 == 0;
        if code == 1 {
            if white { 'P' } else { 'p' }
        } else if code == 2 {
            if white { 'N' } else { 'n' }
        } else if code == 3 {
            if white { 'B' } else { 'b' }
        } else if code == 4 {
            if white { 'R' } else { 'r' }
        } else if code == 5 {
            if white { 'Q' } else { 'q' }
        } else if code == 6 {
            if white { 'K' } else { 'k' }
        } else {
            ' '
        }
    }
}

} // verus!
