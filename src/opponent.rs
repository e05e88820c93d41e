use vstd::prelude::*;
use crate::behaviour::{legal_moves_for, moves_of};
use crate::board::ChessGrid;
use crate::coord_set::CoordSet;
use crate::coords::GridCoords;
use crate::piece::PieceColor;

verus! {

/// Moves the automated side makes in each turn-pass.
pub const OPPONENT_MOVES: u32 = 3;

/// Random squares sampled, at most, in search of each of those moves.
pub const SAMPLE_TRIES: u32 = 64;

/// Relies on rand's thread-local generator and `Rng::random_range`, which
/// panics only on an empty range: a number drawn from `0..bound`.
#[verifier::external_body]
fn random_below(bound: usize) -> (r: usize)
    requires
        bound > 0,
    ensures
        r < bound,
{
    rand::Rng::random_range(&mut rand::rng(), 0..bound)
}

/// The squares a Black piece on `from` may move to, when there is a Black
/// piece there; empty otherwise.
pub open spec fn opponent_moves_spec(g: ChessGrid, from: GridCoords) -> Set<(i32, i32)> {
    match g.piece_at_spec(from.x as int, from.y as int) {
        Some(p) => if p.color == PieceColor::Black {
            moves_of(p.color, p.kind, g, from.x as int, from.y as int)
        } else {
            Set::empty()
        },
        None => Set::empty(),
    }
}

/// `after` is `before` with one Black piece moved to one of its legal squares.
pub open spec fn opponent_step(before: ChessGrid, after: ChessGrid) -> bool {
    exists|from: GridCoords, to: GridCoords|
        #![trigger opponent_moves_spec(before, from), before.relocated(after, from, to)]
        from.spec_in_bounds() && opponent_moves_spec(before, from).contains(to.pair()) && before.relocated(
            after,
            from,
            to,
        )
}

/// `after` follows from `before` by at most `n` moves of the automated side.
pub open spec fn opponent_reachable(before: ChessGrid, after: ChessGrid, n: nat) -> bool
    decreases n,
{
    before == after || (n > 0 && (opponent_reachable(before, after, (n - 1) as nat) || exists|mid: ChessGrid|
        opponent_reachable(before, mid, (n - 1) as nat) && #[trigger] opponent_step(mid, after)))
}

/// The moves of the Black piece on `from`, when there is one and it can move.
pub fn movable_opponent_piece(grid: &ChessGrid, from: GridCoords) -> (r: Option<CoordSet>)
    ensures
        r is Some <==> from.spec_in_bounds() && !opponent_moves_spec(*grid, from).is_empty(),
        r matches Some(s) ==> s@ == opponent_moves_spec(*grid, from),
{
    if !from.in_bounds() {
        return None;
    }
    match grid.get_piece(from) {
        Some(p) => {
            if p.color != PieceColor::Black {
                return None;
            }
            let moves = legal_moves_for(p, from, *grid);
            if moves.is_empty() {
                None
            } else {
                Some(moves)
            }
        },
        None => None,
    }
}

/// Moves the Black piece on `from` to the square at position `pick` of the
/// enumeration order of `moves`, its legal squares. Nothing moves when `pick`
/// is past the end.
pub fn move_opponent_piece(grid: &mut ChessGrid, from: GridCoords, moves: &CoordSet, pick: usize) -> (moved: bool)
    requires
        from.spec_in_bounds(),
        moves@ == opponent_moves_spec(*old(grid), from),
    ensures
        moves@.finite(),
        moved <==> pick < moves@.len(),
        moved ==> opponent_step(*old(grid), *final(grid)),
        !moved ==> *final(grid) == *old(grid),
{
    match moves.nth(pick) {
        Some(to) => {
            let ghost before = *grid;
            grid.move_piece(from, to);
            proof {
                assert(before.relocated(*grid, from, to));
            }
            true
        },
        None => false,
    }
}

/// One move of the automated side: samples up to `SAMPLE_TRIES` random squares
/// until one holds a Black piece that can move, then moves it to a random one
/// of its legal squares. Returns whether a piece moved.
pub fn opponent_move(grid: &mut ChessGrid) -> (moved: bool)
    ensures
        moved ==> opponent_step(*old(grid), *final(grid)),
        !moved ==> *final(grid) == *old(grid),
{
    let mut tries: u32 = 0;
    while tries < SAMPLE_TRIES
        invariant
            *grid == *old(grid),
        decreases SAMPLE_TRIES - tries,
    {
        let from = GridCoords::new(random_below(8) as i32, random_below(8) as i32);
        match movable_opponent_piece(grid, from) {
            Some(moves) => {
                let pick = random_below(moves.len());
                return move_opponent_piece(grid, from, &moves, pick);
            },
            None => {},
        }
        tries = tries + 1;
    }
    false
}

/// The automated side's part of a turn-pass: `OPPONENT_MOVES` attempts of
/// `opponent_move`.
pub fn opponent_turn(grid: &mut ChessGrid)
    ensures
        opponent_reachable(*old(grid), *final(grid), OPPONENT_MOVES as nat),
{
    let ghost start = *grid;
    let mut round: u32 = 0;
    while round < OPPONENT_MOVES
        invariant
            round <= OPPONENT_MOVES,
            start == *old(grid),
            opponent_reachable(start, *grid, round as nat),
        decreases OPPONENT_MOVES - round,
    {
        let ghost before = *grid;
        let moved = opponent_move(grid);
        proof {
            if moved {
                assert(opponent_reachable(start, before, round as nat) && opponent_step(before, *grid));
            }
            assert(opponent_reachable(start, *grid, (round + 1) as nat));
        }
        round = round + 1;
    }
}

} // verus!
