use chess_combat::behaviour::{
    attacks_for, legal_moves_for, BishopBehaviour, BlackPawnBehaviour, KingBehaviour, KnightBehaviour,
    PieceBehaviour, QueenBehaviour, RookBehaviour, WhitePawnBehaviour,
};
use chess_combat::board::ChessGrid;
use chess_combat::coord_set::CoordSet;
use chess_combat::coords::GridCoords;
use chess_combat::piece::{Piece, PieceColor, PieceKind};

fn at(x: i32, y: i32) -> GridCoords {
    GridCoords::new(x, y)
}

fn place(grid: &mut ChessGrid, x: i32, y: i32, color: PieceColor, kind: PieceKind) {
    grid.set_piece(at(x, y), Some(Piece::new(color, kind)));
}

fn squares(set: &CoordSet) -> Vec<(i32, i32)> {
    let mut out = Vec::new();
    let mut i = 0;
    while let Some(c) = set.nth(i) {
        out.push((c.x, c.y));
        i += 1;
    }
    out.sort();
    out
}

#[test]
fn rook_attack_stops_at_first_piece() {
    let mut grid = ChessGrid::default();
    place(&mut grid, 0, 4, PieceColor::White, PieceKind::Rook);
    place(&mut grid, 0, 1, PieceColor::Black, PieceKind::Pawn);
    let attacks = RookBehaviour::get_attacks(at(0, 4), grid);
    assert!(attacks.contains(at(0, 3)));
    assert!(attacks.contains(at(0, 2)));
    assert!(attacks.contains(at(0, 1)));
    assert!(!attacks.contains(at(0, 0)));
    let moves = RookBehaviour::get_legal_moves(at(0, 4), grid);
    assert!(moves.contains(at(0, 3)));
    assert!(moves.contains(at(0, 2)));
    assert!(!moves.contains(at(0, 1)));
    assert!(!moves.contains(at(0, 0)));
    // the other three rays run to the edge of the empty board
    assert_eq!(moves.len(), 2 + 3 + 7);
    assert_eq!(attacks.len(), 3 + 3 + 7);
}

#[test]
fn bishop_ray_blocked_at_distance_two() {
    let mut grid = ChessGrid::default();
    place(&mut grid, 3, 3, PieceColor::White, PieceKind::Bishop);
    place(&mut grid, 5, 5, PieceColor::White, PieceKind::Pawn);
    let moves = BishopBehaviour::get_legal_moves(at(3, 3), grid);
    let attacks = BishopBehaviour::get_attacks(at(3, 3), grid);
    assert!(moves.contains(at(4, 4)));
    assert!(!moves.contains(at(5, 5)));
    assert!(!moves.contains(at(6, 6)));
    assert!(attacks.contains(at(4, 4)));
    assert!(attacks.contains(at(5, 5)));
    assert!(!attacks.contains(at(6, 6)));
    assert!(!attacks.contains(at(7, 7)));
    // (4,4) | (2,2) (1,1) (0,0) | (4,2) (5,1) (6,0) | (2,4) (1,5) (0,6)
    assert_eq!(moves.len(), 10);
    assert_eq!(attacks.len(), 11);
}

#[test]
fn queen_covers_both_families() {
    let grid = ChessGrid::default();
    let moves = QueenBehaviour::get_legal_moves(at(0, 0), grid);
    assert_eq!(moves.len(), 21);
    let attacks = QueenBehaviour::get_attacks(at(0, 0), grid);
    assert_eq!(squares(&attacks), squares(&moves));
}

#[test]
fn knight_partition_in_corner() {
    let mut grid = ChessGrid::default();
    place(&mut grid, 0, 0, PieceColor::White, PieceKind::Knight);
    place(&mut grid, 1, 2, PieceColor::White, PieceKind::Pawn);
    let moves = KnightBehaviour::get_legal_moves(at(0, 0), grid);
    let attacks = KnightBehaviour::get_attacks(at(0, 0), grid);
    assert_eq!(squares(&moves), vec![(2, 1)]);
    assert_eq!(squares(&attacks), vec![(1, 2)]);
}

#[test]
fn knight_in_centre_reaches_eight_squares() {
    let mut grid = ChessGrid::default();
    place(&mut grid, 4, 4, PieceColor::Black, PieceKind::Knight);
    place(&mut grid, 5, 6, PieceColor::Black, PieceKind::Rook);
    place(&mut grid, 2, 3, PieceColor::White, PieceKind::Rook);
    let moves = KnightBehaviour::get_legal_moves(at(4, 4), grid);
    let attacks = KnightBehaviour::get_attacks(at(4, 4), grid);
    assert_eq!(moves.len() + attacks.len(), 8);
    assert_eq!(squares(&attacks), vec![(2, 3), (5, 6)]);
    for c in squares(&moves) {
        assert!(!attacks.contains(at(c.0, c.1)));
    }
}

#[test]
fn pawn_diagonals_count_only_when_occupied() {
    let mut grid = ChessGrid::default();
    place(&mut grid, 4, 4, PieceColor::White, PieceKind::Pawn);
    place(&mut grid, 3, 3, PieceColor::White, PieceKind::Knight);
    let attacks = WhitePawnBehaviour::get_attacks(at(4, 4), grid);
    // a friendly piece on a diagonal is attacked, an empty diagonal is not
    assert_eq!(squares(&attacks), vec![(3, 3)]);
    place(&mut grid, 5, 3, PieceColor::Black, PieceKind::Knight);
    let attacks = WhitePawnBehaviour::get_attacks(at(4, 4), grid);
    assert_eq!(squares(&attacks), vec![(3, 3), (5, 3)]);
    let moves = WhitePawnBehaviour::get_legal_moves(at(4, 4), grid);
    assert_eq!(squares(&moves), vec![(4, 3)]);
}

#[test]
fn black_pawn_moves_down_the_board() {
    let mut grid = ChessGrid::default();
    place(&mut grid, 2, 1, PieceColor::Black, PieceKind::Pawn);
    place(&mut grid, 3, 2, PieceColor::White, PieceKind::Pawn);
    assert_eq!(squares(&BlackPawnBehaviour::get_legal_moves(at(2, 1), grid)), vec![(2, 2)]);
    assert_eq!(squares(&BlackPawnBehaviour::get_attacks(at(2, 1), grid)), vec![(3, 2)]);
    place(&mut grid, 2, 2, PieceColor::White, PieceKind::Pawn);
    assert!(BlackPawnBehaviour::get_legal_moves(at(2, 1), grid).is_empty());
}

#[test]
fn pawn_on_last_row_has_no_move() {
    let grid = ChessGrid::default();
    assert!(WhitePawnBehaviour::get_legal_moves(at(3, 0), grid).is_empty());
    assert!(BlackPawnBehaviour::get_legal_moves(at(3, 7), grid).is_empty());
}

#[test]
fn king_steps_once() {
    let mut grid = ChessGrid::default();
    place(&mut grid, 7, 7, PieceColor::White, PieceKind::King);
    place(&mut grid, 6, 6, PieceColor::Black, PieceKind::Queen);
    assert_eq!(squares(&KingBehaviour::get_legal_moves(at(7, 7), grid)), vec![(6, 7), (7, 6)]);
    assert_eq!(squares(&KingBehaviour::get_attacks(at(7, 7), grid)), vec![(6, 6)]);
}

#[test]
fn all_targets_stay_on_board() {
    let grid = ChessGrid::starting_position();
    let kinds = [
        PieceKind::Pawn,
        PieceKind::Knight,
        PieceKind::Bishop,
        PieceKind::Rook,
        PieceKind::Queen,
        PieceKind::King,
    ];
    for color in [PieceColor::White, PieceColor::Black] {
        for kind in kinds {
            for x in 0..8 {
                for y in 0..8 {
                    let piece = Piece::new(color, kind);
                    let both = [legal_moves_for(piece, at(x, y), grid), attacks_for(piece, at(x, y), grid)];
                    for set in both.iter() {
                        for (cx, cy) in squares(set) {
                            assert!(at(cx, cy).in_bounds());
                        }
                    }
                }
            }
        }
    }
}

#[test]
fn coord_set_basics() {
    let mut set = CoordSet::new();
    assert!(set.is_empty());
    assert_eq!(set.nth(0), None);
    set.insert(at(1, 2));
    set.insert(at(1, 2));
    set.insert(at(3, 4));
    assert_eq!(set.len(), 2);
    assert!(set.contains(at(3, 4)));
    assert!(!set.contains(at(4, 3)));
    assert!(!set.is_empty());
    assert_eq!(squares(&set), vec![(1, 2), (3, 4)]);
    assert_eq!(set.nth(2), None);
}
