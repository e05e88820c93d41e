use vstd::prelude::*;
use crate::coords::{GridCoords, in_bounds_spec};
use crate::piece::{Piece, PieceColor, PieceKind};

verus! {

/// The 8×8 board: for each square, the piece standing on it, if any.
/// Square `(x, y)` is stored at `pieces[x][y]`.
#[derive(Clone, Copy, Debug)]
pub struct ChessGrid {
    pub pieces: [[Option<Piece>; 8]; 8],
}

/// Piece kind on the back ranks, by column: rook, knight, bishop, queen, king,
/// bishop, knight, rook.
pub open spec fn back_rank_kind(x: int) -> PieceKind {
    if x == 0 || x == 7 {
        PieceKind::Rook
    } else if x == 1 || x == 6 {
        PieceKind::Knight
    } else if x == 2 || x == 5 {
        PieceKind::Bishop
    } else if x == 3 {
        PieceKind::Queen
    } else {
        PieceKind::King
    }
}

/// Side and kind of the piece that stands on `(x, y)` at the start of a match:
/// Black on rows 0 and 1, White on rows 6 and 7, pawns on rows 1 and 6.
pub open spec fn starting_piece_spec(x: int, y: int) -> Option<(PieceColor, PieceKind)> {
    if y == 1 {
        Some((PieceColor::Black, PieceKind::Pawn))
    } else if y == 6 {
        Some((PieceColor::White, PieceKind::Pawn))
    } else if y == 0 {
        Some((PieceColor::Black, back_rank_kind(x)))
    } else if y == 7 {
        Some((PieceColor::White, back_rank_kind(x)))
    } else {
        None
    }
}

/// The piece on `(x, y)` when a match starts, with its kind's starting health.
pub open spec fn starting_square(x: int, y: int) -> Option<Piece> {
    match starting_piece_spec(x, y) {
        Some((c, k)) => Some(Piece { color: c, kind: k, health: crate::piece::initial_health_spec(k) }),
        None => None,
    }
}

/// Side and kind of the piece on `(x, y)` in the starting layout.
pub fn starting_piece(x: i32, y: i32) -> (r: Option<(PieceColor, PieceKind)>)
    requires
        0 <= x < 8,
    ensures
        r == starting_piece_spec(x as int, y as int),
{
    if y == 1 {
        return Some((PieceColor::Black, PieceKind::Pawn));
    }
    if y == 6 {
        return Some((PieceColor::White, PieceKind::Pawn));
    }
    let kind = match x {
        0 | 7 => PieceKind::Rook,
        1 | 6 => PieceKind::Knight,
        2 | 5 => PieceKind::Bishop,
        3 => PieceKind::Queen,
        _ => PieceKind::King,
    };
    if y == 0 {
        return Some((PieceColor::Black, kind));
    }
    if y == 7 {
        return Some((PieceColor::White, kind));
    }
    None
}

impl ChessGrid {
    /// The piece on `(x, y)`; none off the board.
    pub open spec fn piece_at_spec(&self, x: int, y: int) -> Option<Piece> {
        if in_bounds_spec(x, y) {
            self.pieces@[x]@[y]
        } else {
            None
        }
    }

    /// Some piece stands on `(x, y)`.
    pub open spec fn occupied(&self, x: int, y: int) -> bool {
        self.piece_at_spec(x, y) is Some
    }

    /// `other` differs from this board at most on the square `(x, y)`, which holds `p`.
    pub open spec fn updated_to(&self, other: ChessGrid, x: int, y: int, p: Option<Piece>) -> bool {
        &&& other.piece_at_spec(x, y) == p
        &&& forall|i: int, j: int|
            (i, j) != (x, y) ==> #[trigger] other.piece_at_spec(i, j) == self.piece_at_spec(i, j)
    }

    /// `other` is this board with the piece on `from` carried to `to`.
    pub open spec fn relocated(&self, other: ChessGrid, from: GridCoords, to: GridCoords) -> bool {
        forall|x: int, y: int|
            #[trigger] other.piece_at_spec(x, y) == if x == to.x && y == to.y {
                self.piece_at_spec(from.x as int, from.y as int)
            } else if x == from.x && y == from.y {
                None
            } else {
                self.piece_at_spec(x, y)
            }
    }

    /// The piece on `pos`, or none when `pos` is off the board.
    pub fn get_piece(&self, pos: GridCoords) -> (r: Option<Piece>)
        ensures
            r == self.piece_at_spec(pos.x as int, pos.y as int),
    {
        if pos.in_bounds() {
            self.pieces[pos.x as usize][pos.y as usize]
        } else {
            None
        }
    }

    /// Overwrites the square `pos`. Nothing changes when `pos` is off the board.
    pub fn set_piece(&mut self, pos: GridCoords, piece: Option<Piece>)
        ensures
            pos.spec_in_bounds() ==> old(self).updated_to(*final(self), pos.x as int, pos.y as int, piece),
            !pos.spec_in_bounds() ==> *final(self) == *old(self),
    {
        if pos.in_bounds() {
            let mut column = self.pieces[pos.x as usize];
            column[pos.y as usize] = piece;
            self.pieces[pos.x as usize] = column;
        }
    }

    /// Carries the piece on `from` to `to`, leaving `from` empty. Whatever stood
    /// on `to` is overwritten.
    pub fn move_piece(&mut self, from: GridCoords, to: GridCoords)
        requires
            from.spec_in_bounds(),
            to.spec_in_bounds(),
        ensures
            old(self).relocated(*final(self), from, to),
    {
        let piece = self.get_piece(from);
        self.set_piece(from, None);
        self.set_piece(to, piece);
    }

    /// The starting layout of a match.
    pub fn starting_position() -> (r: ChessGrid)
        ensures
            forall|x: int, y: int|
                in_bounds_spec(x, y) ==> #[trigger] r.piece_at_spec(x, y) == starting_square(x, y),
    {
        let mut grid = ChessGrid { pieces: [[None; 8]; 8] };
        let mut x: i32 = 0;
        while x < 8
            invariant
                0 <= x <= 8,
                forall|i: int, j: int| 0 <= i < x && 0 <= j < 8 ==> #[trigger] grid.piece_at_spec(i, j) == match starting_piece_spec(i, j) {
                    Some((c, k)) => Some(Piece { color: c, kind: k, health: crate::piece::initial_health_spec(k) }),
                    None => None,
                },
                forall|i: int, j: int| x <= i < 8 && 0 <= j < 8 ==> #[trigger] grid.piece_at_spec(i, j) is None,
            decreases 8 - x,
        {
            let mut y: i32 = 0;
            while y < 8
                invariant
                    0 <= x < 8,
                    0 <= y <= 8,
                    forall|i: int, j: int| 0 <= i < x && 0 <= j < 8 ==> #[trigger] grid.piece_at_spec(i, j) == match starting_piece_spec(i, j) {
                        Some((c, k)) => Some(Piece { color: c, kind: k, health: crate::piece::initial_health_spec(k) }),
                        None => None,
                    },
                    forall|j: int| 0 <= j < y ==> #[trigger] grid.piece_at_spec(x as int, j) == match starting_piece_spec(x as int, j) {
                        Some((c, k)) => Some(Piece { color: c, kind: k, health: crate::piece::initial_health_spec(k) }),
                        None => None,
                    },
                    forall|i: int, j: int| x < i < 8 && 0 <= j < 8 ==> #[trigger] grid.piece_at_spec(i, j) is None,
                    forall|j: int| y <= j < 8 ==> #[trigger] grid.piece_at_spec(x as int, j) is None,
                decreases 8 - y,
            {
                let p = match starting_piece(x, y) {
                    Some((c, k)) => Some(Piece::new(c, k)),
                    None => None,
                };
                grid.set_piece(GridCoords::new(x, y), p);
                y = y + 1;
            }
            x = x + 1;
        }
        grid
    }
}

impl Default for ChessGrid {
    /// An empty board.
    fn default() -> (r: ChessGrid)
        ensures
            forall|x: int, y: int| #[trigger] r.piece_at_spec(x, y) is None,
    {
        ChessGrid { pieces: [[None; 8]; 8] }
    }
}

} // verus!
