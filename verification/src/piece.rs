//! Pieces: the two sides, the fourteen piece kinds, promotion and
//! demotion, and the per-kind movement direction vectors.

use vstd::prelude::*;

verus! {

/// The two sides.  `Black` opens the game and advances toward higher row
/// numbers; `White` advances toward lower row numbers.
#[derive(Clone, Copy, Debug, PartialEq, Eq, Structural)]
pub enum Color {
    Black,
    White,
}

/// The side opposing `c`.
pub open spec fn spec_opponent(c: Color) -> Color {
    match c {
        Color::Black => Color::White,
        Color::White => Color::Black,
    }
}

impl Color {
    /// The side opposing `self`.
    pub fn opponent(&self) -> (r: Color)
        ensures
            r == spec_opponent(*self),
    {
        match self {
            Color::Black => Color::White,
            Color::White => Color::Black,
        }
    }
}

/// The piece kinds: eight base forms followed by the promoted forms.
#[derive(Clone, Copy, Debug, PartialEq, Eq, Structural)]
pub enum PieceType {
    King,
    Rook,
    Bishop,
    Gold,
    Silver,
    Knight,
    Lance,
    Pawn,
    Dragon,
    Horse,
    PromotedSilver,
    PromotedKnight,
    PromotedLance,
    PromotedPawn,
}

/// The 1-based rank of a piece kind in declaration order; the feature
/// encoding and the numeric piece codes are built from it.
pub open spec fn spec_piece_ord(pt: PieceType) -> int {
    match pt {
        PieceType::King => 1,
        PieceType::Rook => 2,
        PieceType::Bishop => 3,
        PieceType::Gold => 4,
        PieceType::Silver => 5,
        PieceType::Knight => 6,
        PieceType::Lance => 7,
        PieceType::Pawn => 8,
        PieceType::Dragon => 9,
        PieceType::Horse => 10,
        PieceType::PromotedSilver => 11,
        PieceType::PromotedKnight => 12,
        PieceType::PromotedLance => 13,
        PieceType::PromotedPawn => 14,
    }
}

/// A piece: a kind together with the side that owns it.
#[derive(Clone, Copy, Debug, PartialEq, Eq, Structural)]
pub struct Piece {
    pub piece_type: PieceType,
    pub color: Color,
}

/// Whether a piece of this kind may promote when it moves through the
/// promotion zone.
pub open spec fn spec_can_revolte(pt: PieceType) -> bool {
    match pt {
        PieceType::Rook => true,
        PieceType::Bishop => true,
        PieceType::Silver => true,
        PieceType::Knight => true,
        PieceType::Lance => true,
        PieceType::Pawn => true,
        _ => false,
    }
}

/// The promoted form of a piece; kinds without one (king, gold, the
/// already promoted forms) are unchanged.
pub open spec fn spec_revolute(p: Piece) -> Piece {
    match p.piece_type {
        PieceType::Rook => Piece { piece_type: PieceType::Dragon, color: p.color },
        PieceType::Bishop => Piece { piece_type: PieceType::Horse, color: p.color },
        PieceType::Silver => Piece { piece_type: PieceType::PromotedSilver, color: p.color },
        PieceType::Knight => Piece { piece_type: PieceType::PromotedKnight, color: p.color },
        PieceType::Lance => Piece { piece_type: PieceType::PromotedLance, color: p.color },
        PieceType::Pawn => Piece { piece_type: PieceType::PromotedPawn, color: p.color },
        _ => p,
    }
}

/// The base form of a promoted piece; unpromoted kinds are unchanged.
/// A captured piece reverts through this before joining the pool.
pub open spec fn spec_revolute_back(p: Piece) -> Piece {
    match p.piece_type {
        PieceType::Dragon => Piece { piece_type: PieceType::Rook, color: p.color },
        PieceType::Horse => Piece { piece_type: PieceType::Bishop, color: p.color },
        PieceType::PromotedSilver => Piece { piece_type: PieceType::Silver, color: p.color },
        PieceType::PromotedKnight => Piece { piece_type: PieceType::Knight, color: p.color },
        PieceType::PromotedLance => Piece { piece_type: PieceType::Lance, color: p.color },
        PieceType::PromotedPawn => Piece { piece_type: PieceType::Pawn, color: p.color },
        _ => p,
    }
}

/// The numeric code of a piece: Black pieces count up from 1, White
/// pieces count down from `u8::MAX - 1`.
pub open spec fn spec_get_u8(p: Piece) -> int {
    match p.color {
        Color::Black => spec_piece_ord(p.piece_type),
        Color::White => 255 - spec_piece_ord(p.piece_type),
    }
}

impl Piece {
    /// A piece of the given kind owned by the given side.
    pub fn new(piece_type: PieceType, color: Color) -> (r: Piece)
        ensures
            r == (Piece { piece_type, color }),
    {
        Piece { piece_type, color }
    }

    /// The 1-based rank of this piece's kind in declaration order.
    pub fn piece_ord(&self) -> (r: u8)
        ensures
            r as int == spec_piece_ord(self.piece_type),
            1 <= r <= 14,
    {
        match self.piece_type {
            PieceType::King => 1,
            PieceType::Rook => 2,
            PieceType::Bishop => 3,
            PieceType::Gold => 4,
            PieceType::Silver => 5,
            PieceType::Knight => 6,
            PieceType::Lance => 7,
            PieceType::Pawn => 8,
            PieceType::Dragon => 9,
            PieceType::Horse => 10,
            PieceType::PromotedSilver => 11,
            PieceType::PromotedKnight => 12,
            PieceType::PromotedLance => 13,
            PieceType::PromotedPawn => 14,
        }
    }

    /// The numeric code of this piece.
    pub fn get_u8(&self) -> (r: u8)
        ensures
            r as int == spec_get_u8(*self),
    {
        match self.color {
            Color::Black => self.piece_ord(),
            Color::White => 255 - self.piece_ord(),
        }
    }

    /// Whether this piece may promote.
    pub fn can_revolte(&self) -> (r: bool)
        ensures
            r == spec_can_revolte(self.piece_type),
    {
        match self.piece_type {
            PieceType::Rook => true,
            PieceType::Bishop => true,
            PieceType::Silver => true,
            PieceType::Knight => true,
            PieceType::Lance => true,
            PieceType::Pawn => true,
            _ => false,
        }
    }

    /// This piece's promoted form, or the piece itself if it has none.
    pub fn revolute(&self) -> (r: Piece)
        ensures
            r == spec_revolute(*self),
    {
        match self.piece_type {
            PieceType::Rook => Piece::new(PieceType::Dragon, self.color),
            PieceType::Bishop => Piece::new(PieceType::Horse, self.color),
            PieceType::Silver => Piece::new(PieceType::PromotedSilver, self.color),
            PieceType::Knight => Piece::new(PieceType::PromotedKnight, self.color),
            PieceType::Lance => Piece::new(PieceType::PromotedLance, self.color),
            PieceType::Pawn => Piece::new(PieceType::PromotedPawn, self.color),
            _ => *self,
        }
    }

    /// This piece's base form, or the piece itself if it is not promoted.
    pub fn revolute_back(&self) -> (r: Piece)
        ensures
            r == spec_revolute_back(*self),
    {
        match self.piece_type {
            PieceType::Dragon => Piece::new(PieceType::Rook, self.color),
            PieceType::Horse => Piece::new(PieceType::Bishop, self.color),
            PieceType::PromotedSilver => Piece::new(PieceType::Silver, self.color),
            PieceType::PromotedKnight => Piece::new(PieceType::Knight, self.color),
            PieceType::PromotedLance => Piece::new(PieceType::Lance, self.color),
            PieceType::PromotedPawn => Piece::new(PieceType::Pawn, self.color),
            _ => *self,
        }
    }
}

/// The direction vectors `(dx, dy)` of a piece kind for a side.  A
/// component of magnitude 9 marks a sliding direction: the piece steps one
/// square at a time along the unit direction, up to nine times.  All other
/// vectors are taken in a single step, so a knight's `(1, 2)` jumps over
/// the intervening square.
pub open spec fn spec_move_vec(pt: PieceType, c: Color) -> Seq<(i32, i32)> {
    match (pt, c) {
        (PieceType::King, _) => seq![
            (-1i32, -1i32),
            (-1i32, 0i32),
            (-1i32, 1i32),
            (0i32, -1i32),
            (0i32, 1i32),
            (1i32, -1i32),
            (1i32, 0i32),
            (1i32, 1i32),
        ],
        (PieceType::Rook, _) => seq![(-9i32, 0i32), (0i32, -9i32), (0i32, 9i32), (9i32, 0i32)],
        (PieceType::Bishop, _) => seq![(-9i32, -9i32), (-9i32, 9i32), (9i32, -9i32), (9i32, 9i32)],
        (PieceType::Gold, Color::Black)
        | (PieceType::PromotedKnight, Color::Black)
        | (PieceType::PromotedLance, Color::Black)
        | (PieceType::PromotedSilver, Color::Black)
        | (PieceType::PromotedPawn, Color::Black) => seq![
            (-1i32, 0i32),
            (-1i32, 1i32),
            (0i32, -1i32),
            (0i32, 1i32),
            (1i32, 0i32),
            (1i32, 1i32),
        ],
        (PieceType::Gold, Color::White)
        | (PieceType::PromotedKnight, Color::White)
        | (PieceType::PromotedLance, Color::White)
        | (PieceType::PromotedSilver, Color::White)
        | (PieceType::PromotedPawn, Color::White) => seq![
            (-1i32, -1i32),
            (-1i32, 0i32),
            (0i32, -1i32),
            (0i32, 1i32),
            (1i32, -1i32),
            (1i32, 0i32),
        ],
        (PieceType::Silver, Color::Black) => seq![(-1i32, -1i32), (-1i32, 1i32), (0i32, 1i32), (1i32, -1i32), (1i32, 1i32)],
        (PieceType::Silver, Color::White) => seq![(-1i32, -1i32), (-1i32, 1i32), (0i32, -1i32), (1i32, -1i32), (1i32, 1i32)],
        (PieceType::Knight, Color::Black) => seq![(-1i32, 2i32), (1i32, 2i32)],
        (PieceType::Knight, Color::White) => seq![(-1i32, -2i32), (1i32, -2i32)],
        (PieceType::Lance, Color::Black) => seq![(0i32, 9i32)],
        (PieceType::Lance, Color::White) => seq![(0i32, -9i32)],
        (PieceType::Pawn, Color::Black) => seq![(0i32, 1i32)],
        (PieceType::Pawn, Color::White) => seq![(0i32, -1i32)],
        (PieceType::Dragon, _) => seq![
            (-9i32, 0i32),
            (-1i32, -1i32),
            (-1i32, 1i32),
            (0i32, -9i32),
            (0i32, 9i32),
            (1i32, -1i32),
            (1i32, 1i32),
            (9i32, 0i32),
        ],
        (PieceType::Horse, _) => seq![
            (-9i32, -9i32),
            (-9i32, 9i32),
            (-1i32, 0i32),
            (0i32, -1i32),
            (0i32, 1i32),
            (1i32, 0i32),
            (9i32, -9i32),
            (9i32, 9i32),
        ],
    }
}

/// Every direction component lies in `[-9, 9]`.
pub proof fn lemma_move_vec_bounds(pt: PieceType, c: Color)
    ensures
        forall|i: int|
            0 <= i < spec_move_vec(pt, c).len() ==> {
                let v = #[trigger] spec_move_vec(pt, c)[i];
                -9 <= v.0 <= 9 && -9 <= v.1 <= 9
            },
{
}

impl Piece {
    /// The direction vectors of this piece.
    pub fn move_vec(&self) -> (r: Vec<(i32, i32)>)
        ensures
            r@ == spec_move_vec(self.piece_type, self.color),
    {
        let mut v: Vec<(i32, i32)> = Vec::new();
        match (self.piece_type, self.color) {
            (PieceType::King, _) => {
                v.push((-1, -1));
                v.push((-1, 0));
                v.push((-1, 1));
                v.push((0, -1));
                v.push((0, 1));
                v.push((1, -1));
                v.push((1, 0));
                v.push((1, 1));
            }
            (PieceType::Rook, _) => {
                v.push((-9, 0));
                v.push((0, -9));
                v.push((0, 9));
                v.push((9, 0));
            }
            (PieceType::Bishop, _) => {
                v.push((-9, -9));
                v.push((-9, 9));
                v.push((9, -9));
                v.push((9, 9));
            }
            (PieceType::Gold, Color::Black)
            | (PieceType::PromotedKnight, Color::Black)
            | (PieceType::PromotedLance, Color::Black)
            | (PieceType::PromotedSilver, Color::Black)
            | (PieceType::PromotedPawn, Color::Black) => {
                v.push((-1, 0));
                v.push((-1, 1));
                v.push((0, -1));
                v.push((0, 1));
                v.push((1, 0));
                v.push((1, 1));
            }
            (PieceType::Gold, Color::White)
            | (PieceType::PromotedKnight, Color::White)
            | (PieceType::PromotedLance, Color::White)
            | (PieceType::PromotedSilver, Color::White)
            | (PieceType::PromotedPawn, Color::White) => {
                v.push((-1, -1));
                v.push((-1, 0));
                v.push((0, -1));
                v.push((0, 1));
                v.push((1, -1));
                v.push((1, 0));
            }
            (PieceType::Silver, Color::Black) => {
                v.push((-1, -1));
                v.push((-1, 1));
                v.push((0, 1));
                v.push((1, -1));
                v.push((1, 1));
            }
            (PieceType::Silver, Color::White) => {
                v.push((-1, -1));
                v.push((-1, 1));
                v.push((0, -1));
                v.push((1, -1));
                v.push((1, 1));
            }
            (PieceType::Knight, Color::Black) => {
                v.push((-1, 2));
                v.push((1, 2));
            }
            (PieceType::Knight, Color::White) => {
                v.push((-1, -2));
                v.push((1, -2));
            }
            (PieceType::Lance, Color::Black) => {
                v.push((0, 9));
            }
            (PieceType::Lance, Color::White) => {
                v.push((0, -9));
            }
            (PieceType::Pawn, Color::Black) => {
                v.push((0, 1));
            }
            (PieceType::Pawn, Color::White) => {
                v.push((0, -1));
            }
            (PieceType::Dragon, _) => {
                v.push((-9, 0));
                v.push((-1, -1));
                v.push((-1, 1));
                v.push((0, -9));
                v.push((0, 9));
                v.push((1, -1));
                v.push((1, 1));
                v.push((9, 0));
            }
            (PieceType::Horse, _) => {
                v.push((-9, -9));
                v.push((-9, 9));
                v.push((-1, 0));
                v.push((0, -1));
                v.push((0, 1));
                v.push((1, 0));
                v.push((9, -9));
                v.push((9, 9));
            }
        }
        proof {
            assert(v@ =~= spec_move_vec(self.piece_type, self.color));
        }
        v
    }
}

} // verus!
