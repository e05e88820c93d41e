use chess_combat::board::{starting_piece, ChessGrid};
use chess_combat::combat::apply_damage_for_color;
use chess_combat::coords::GridCoords;
use chess_combat::game::{EngineError, GameState, ACTIONS_PER_TURN};
use chess_combat::opponent::{move_opponent_piece, movable_opponent_piece, opponent_move, opponent_turn};
use chess_combat::piece::{initial_health, Piece, PieceColor, PieceKind};

fn at(x: i32, y: i32) -> GridCoords {
    GridCoords::new(x, y)
}

fn piece(color: PieceColor, kind: PieceKind, health: i32) -> Option<Piece> {
    Some(Piece { color, kind, health })
}

fn count(grid: &ChessGrid, color: PieceColor) -> usize {
    let mut n = 0;
    for x in 0..8 {
        for y in 0..8 {
            if let Some(p) = grid.get_piece(at(x, y)) {
                if p.color == color {
                    n += 1;
                }
            }
        }
    }
    n
}

#[test]
fn starting_layout() {
    let grid = ChessGrid::starting_position();
    assert_eq!(grid.get_piece(at(4, 7)), piece(PieceColor::White, PieceKind::King, 300));
    assert_eq!(grid.get_piece(at(3, 0)), piece(PieceColor::Black, PieceKind::Queen, 150));
    assert_eq!(grid.get_piece(at(0, 7)), piece(PieceColor::White, PieceKind::Rook, 200));
    assert_eq!(grid.get_piece(at(6, 0)), piece(PieceColor::Black, PieceKind::Knight, 100));
    assert_eq!(grid.get_piece(at(5, 7)), piece(PieceColor::White, PieceKind::Bishop, 100));
    assert_eq!(grid.get_piece(at(2, 1)), piece(PieceColor::Black, PieceKind::Pawn, 50));
    assert_eq!(grid.get_piece(at(2, 6)), piece(PieceColor::White, PieceKind::Pawn, 50));
    assert_eq!(grid.get_piece(at(2, 4)), None);
    assert_eq!(count(&grid, PieceColor::White), 16);
    assert_eq!(count(&grid, PieceColor::Black), 16);
    assert_eq!(starting_piece(7, 0), Some((PieceColor::Black, PieceKind::Rook)));
    assert_eq!(starting_piece(3, 3), None);
    assert_eq!(initial_health(PieceKind::Queen), 150);
}

#[test]
fn lookup_off_board_is_empty() {
    let mut grid = ChessGrid::starting_position();
    assert_eq!(grid.get_piece(at(-1, 0)), None);
    assert_eq!(grid.get_piece(at(0, 8)), None);
    let before = grid.pieces;
    grid.set_piece(at(8, 8), piece(PieceColor::White, PieceKind::King, 1));
    assert_eq!(grid.pieces, before);
}

#[test]
fn start_position_pawn_advance() {
    let mut game = GameState::new();
    assert_eq!(game.actions_remaining(), 3);
    let pawn = game.board().get_piece(at(4, 6));
    assert_eq!(game.commit_move(at(4, 6), at(4, 5)), Ok(()));
    assert_eq!(game.board().get_piece(at(4, 6)), None);
    assert_eq!(game.board().get_piece(at(4, 5)), pawn);
    assert_eq!(pawn, piece(PieceColor::White, PieceKind::Pawn, 50));
    assert_eq!(game.actions_remaining(), 2);
    assert_eq!(game.selected(), None);
}

#[test]
fn illegal_move_changes_nothing() {
    let mut game = GameState::new();
    let before = game.board().pieces;
    // two squares ahead, onto a friendly piece, an empty origin, an enemy piece
    assert_eq!(game.commit_move(at(4, 6), at(4, 4)), Err(EngineError::IllegalMove));
    assert_eq!(game.commit_move(at(4, 7), at(4, 6)), Err(EngineError::IllegalMove));
    assert_eq!(game.commit_move(at(4, 4), at(4, 3)), Err(EngineError::IllegalMove));
    assert_eq!(game.commit_move(at(4, 1), at(4, 2)), Err(EngineError::IllegalMove));
    assert_eq!(game.commit_move(at(9, 6), at(9, 5)), Err(EngineError::IllegalMove));
    assert_eq!(game.board().pieces, before);
    assert_eq!(game.actions_remaining(), 3);
}

#[test]
fn budget_runs_out_after_three_moves() {
    let mut game = GameState::new();
    assert_eq!(game.commit_move(at(0, 6), at(0, 5)), Ok(()));
    assert_eq!(game.commit_move(at(1, 6), at(1, 5)), Ok(()));
    assert_eq!(game.commit_move(at(2, 6), at(2, 5)), Ok(()));
    assert_eq!(game.actions_remaining(), 0);
    assert_eq!(game.commit_move(at(3, 6), at(3, 5)), Err(EngineError::IllegalMove));
    assert_eq!(game.select(at(3, 6)), Ok(()));
    assert!(game.legal_moves().is_empty());
    assert!(game.threatened().is_empty());
}

#[test]
fn pass_turn_restores_budget() {
    let mut game = GameState::new();
    assert_eq!(game.commit_move(at(0, 6), at(0, 5)), Ok(()));
    game.pass_turn();
    assert_eq!(game.actions_remaining(), ACTIONS_PER_TURN);
    game.pass_turn();
    assert_eq!(game.actions_remaining(), 3);
    // nothing attacks an enemy at the start, so every piece survives
    assert_eq!(count(game.board(), PieceColor::Black), 16);
}

#[test]
fn selection_shows_moves_and_enemy_threats() {
    let mut grid = ChessGrid::default();
    grid.set_piece(at(3, 3), piece(PieceColor::White, PieceKind::Rook, 200));
    grid.set_piece(at(3, 1), piece(PieceColor::Black, PieceKind::Pawn, 50));
    grid.set_piece(at(5, 3), piece(PieceColor::White, PieceKind::Pawn, 50));
    let mut game = GameState::from_board(grid);
    assert_eq!(game.select(at(3, 3)), Ok(()));
    assert_eq!(game.selected(), Some(at(3, 3)));
    assert!(game.legal_moves().contains(at(3, 2)));
    assert!(!game.legal_moves().contains(at(3, 1)));
    assert!(game.threatened().contains(at(3, 1)));
    assert!(!game.threatened().contains(at(5, 3)));
    assert!(!game.threatened().contains(at(3, 2)));
    assert_eq!(game.threatened().len(), 1);
    // an enemy piece is selectable but offers nothing
    assert_eq!(game.select(at(3, 1)), Ok(()));
    assert!(game.legal_moves().is_empty());
    assert!(game.threatened().is_empty());
    // so is an empty square
    assert_eq!(game.select(at(0, 0)), Ok(()));
    assert!(game.legal_moves().is_empty());
    game.deselect();
    assert_eq!(game.selected(), None);
}

#[test]
fn select_off_board_is_refused() {
    let mut game = GameState::new();
    assert_eq!(game.select(at(4, 6)), Ok(()));
    assert_eq!(game.select(at(8, 0)), Err(EngineError::OutOfBounds));
    assert_eq!(game.selected(), Some(at(4, 6)));
    assert_eq!(game.legal_moves().len(), 1);
}

#[test]
fn confirm_move_uses_the_selection() {
    let mut game = GameState::new();
    assert_eq!(game.confirm_move(at(4, 5)), Err(EngineError::EmptySelection));
    assert_eq!(game.select(at(4, 4)), Ok(()));
    assert_eq!(game.confirm_move(at(4, 3)), Err(EngineError::EmptySelection));
    assert_eq!(game.select(at(6, 7)), Ok(()));
    assert_eq!(game.confirm_move(at(6, 4)), Err(EngineError::IllegalMove));
    assert_eq!(game.confirm_move(at(5, 5)), Ok(()));
    assert_eq!(game.board().get_piece(at(5, 5)), piece(PieceColor::White, PieceKind::Knight, 100));
    assert_eq!(game.actions_remaining(), 2);
}

#[test]
fn lethal_and_survivable_hits() {
    let mut grid = ChessGrid::default();
    grid.set_piece(at(0, 0), piece(PieceColor::White, PieceKind::Rook, 200));
    grid.set_piece(at(0, 3), piece(PieceColor::Black, PieceKind::Pawn, 10));
    grid.set_piece(at(7, 7), piece(PieceColor::White, PieceKind::Rook, 200));
    grid.set_piece(at(7, 4), piece(PieceColor::Black, PieceKind::Pawn, 20));
    apply_damage_for_color(&mut grid, PieceColor::White);
    assert_eq!(grid.get_piece(at(0, 3)), None);
    assert_eq!(grid.get_piece(at(7, 4)), piece(PieceColor::Black, PieceKind::Pawn, 10));
    assert_eq!(grid.get_piece(at(0, 0)), piece(PieceColor::White, PieceKind::Rook, 200));
}

#[test]
fn damage_adds_up_per_attacker() {
    let mut grid = ChessGrid::default();
    grid.set_piece(at(4, 4), piece(PieceColor::Black, PieceKind::King, 300));
    grid.set_piece(at(4, 0), piece(PieceColor::White, PieceKind::Rook, 200));
    grid.set_piece(at(0, 4), piece(PieceColor::White, PieceKind::Queen, 150));
    grid.set_piece(at(2, 3), piece(PieceColor::White, PieceKind::Knight, 100));
    // the king strikes back at the knight only once Black resolves
    apply_damage_for_color(&mut grid, PieceColor::White);
    assert_eq!(grid.get_piece(at(4, 4)), piece(PieceColor::Black, PieceKind::King, 270));
    apply_damage_for_color(&mut grid, PieceColor::White);
    assert_eq!(grid.get_piece(at(4, 4)), piece(PieceColor::Black, PieceKind::King, 240));
    apply_damage_for_color(&mut grid, PieceColor::Black);
    assert_eq!(grid.get_piece(at(2, 3)), piece(PieceColor::White, PieceKind::Knight, 100));
}

#[test]
fn friendly_fire_deals_no_damage() {
    let mut grid = ChessGrid::default();
    grid.set_piece(at(3, 3), piece(PieceColor::Black, PieceKind::Queen, 150));
    grid.set_piece(at(3, 4), piece(PieceColor::Black, PieceKind::Pawn, 10));
    apply_damage_for_color(&mut grid, PieceColor::Black);
    assert_eq!(grid.get_piece(at(3, 4)), piece(PieceColor::Black, PieceKind::Pawn, 10));
}

#[test]
fn dying_pieces_still_strike() {
    let mut grid = ChessGrid::default();
    grid.set_piece(at(0, 0), piece(PieceColor::White, PieceKind::Rook, 10));
    grid.set_piece(at(0, 5), piece(PieceColor::Black, PieceKind::Rook, 10));
    grid.set_piece(at(1, 0), piece(PieceColor::Black, PieceKind::Knight, 30));
    // the knight does not attack (0,0); the black rook does, and the white rook hits it back
    apply_damage_for_color(&mut grid, PieceColor::Black);
    assert_eq!(grid.get_piece(at(0, 0)), None);
    apply_damage_for_color(&mut grid, PieceColor::White);
    assert_eq!(grid.get_piece(at(0, 5)), piece(PieceColor::Black, PieceKind::Rook, 10));
}

#[test]
fn opponent_moves_one_black_piece() {
    let mut grid = ChessGrid::starting_position();
    let before = grid;
    assert!(opponent_move(&mut grid));
    let mut changed = 0;
    for x in 0..8 {
        for y in 0..8 {
            let old = before.get_piece(at(x, y));
            let new = grid.get_piece(at(x, y));
            if old != new {
                changed += 1;
                for p in [old, new].iter().flatten() {
                    assert_eq!(p.color, PieceColor::Black);
                }
            }
        }
    }
    assert_eq!(changed, 2);
    assert_eq!(count(&grid, PieceColor::Black), 16);
}

#[test]
fn opponent_without_movable_pieces_stays_put() {
    let mut grid = ChessGrid::default();
    grid.set_piece(at(0, 0), piece(PieceColor::White, PieceKind::King, 300));
    let before = grid.pieces;
    assert!(!opponent_move(&mut grid));
    opponent_turn(&mut grid);
    assert_eq!(grid.pieces, before);
}

#[test]
fn movable_opponent_piece_filters() {
    let grid = ChessGrid::starting_position();
    assert!(movable_opponent_piece(&grid, at(0, 0)).is_none());
    assert!(movable_opponent_piece(&grid, at(0, 6)).is_none());
    assert!(movable_opponent_piece(&grid, at(0, 3)).is_none());
    assert!(movable_opponent_piece(&grid, at(-1, 3)).is_none());
    let moves = movable_opponent_piece(&grid, at(1, 0)).unwrap();
    assert_eq!(moves.len(), 2);
    assert!(moves.contains(at(0, 2)));
    assert!(moves.contains(at(2, 2)));
}

#[test]
fn chosen_opponent_move_is_applied() {
    let mut grid = ChessGrid::starting_position();
    let moves = movable_opponent_piece(&grid, at(6, 0)).unwrap();
    let before = grid;
    assert!(!move_opponent_piece(&mut grid, at(6, 0), &moves, 2));
    assert_eq!(grid.pieces, before.pieces);
    assert!(move_opponent_piece(&mut grid, at(6, 0), &moves, 1));
    assert_eq!(grid.get_piece(at(6, 0)), None);
    let landed = [at(5, 2), at(7, 2)].iter().filter(|c| grid.get_piece(**c).is_some()).count();
    assert_eq!(landed, 1);
}
