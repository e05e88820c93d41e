use vstd::prelude::*;

verus! {

pub const PAWN_HEALTH: i32 = 50;
pub const KNIGHT_HEALTH: i32 = 100;
pub const BISHOP_HEALTH: i32 = 100;
pub const ROOK_HEALTH: i32 = 200;
pub const QUEEN_HEALTH: i32 = 150;
pub const KING_HEALTH: i32 = 300;

/// Movement class of a piece.
#[derive(Clone, Copy, Debug, PartialEq, Eq, Structural)]
pub enum PieceKind {
    Pawn,
    Knight,
    Bishop,
    Rook,
    Queen,
    King,
}

/// The two sides. White is played by the user, Black by the automated policy.
#[derive(Clone, Copy, Debug, PartialEq, Eq, Structural)]
pub enum PieceColor {
    White,
    Black,
}

/// A piece on the board. Health is counted in whole points.
#[derive(Clone, Copy, Debug, PartialEq, Eq, Structural)]
pub struct Piece {
    pub color: PieceColor,
    pub kind: PieceKind,
    pub health: i32,
}

/// Health a piece of each kind starts the match with.
pub open spec fn initial_health_spec(kind: PieceKind) -> i32 {
    match kind {
        PieceKind::Pawn => 50,
        PieceKind::Knight => 100,
        PieceKind::Bishop => 100,
        PieceKind::Rook => 200,
        PieceKind::Queen => 150,
        PieceKind::King => 300,
    }
}

pub fn initial_health(kind: PieceKind) -> (r: i32)
    ensures
        r == initial_health_spec(kind),
{
    match kind {
        PieceKind::Pawn => PAWN_HEALTH,
        PieceKind::Knight => KNIGHT_HEALTH,
        PieceKind::Bishop => BISHOP_HEALTH,
        PieceKind::Rook => ROOK_HEALTH,
        PieceKind::Queen => QUEEN_HEALTH,
        PieceKind::King => KING_HEALTH,
    }
}

impl Piece {
    /// A fresh piece with the starting health of its kind.
    pub fn new(color: PieceColor, kind: PieceKind) -> (r: Piece)
        ensures
            r == (Piece { color, kind, health: initial_health_spec(kind) }),
    {
        Piece { color, kind, health: initial_health(kind) }
    }
}

} // verus!
