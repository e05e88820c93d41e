use vstd::prelude::*;
use crate::behaviour::{attacks_for, attacks_of};
use crate::board::ChessGrid;
use crate::coord_set::CoordSet;
use crate::coords::{GridCoords, in_bounds_spec};
use crate::piece::{Piece, PieceColor};

verus! {

/// Health a piece loses for each attack that lands on it.
pub const DAMAGE: i32 = 10;

/// A piece of side `color` stands on `(x, y)` and attacks the square `t`.
pub open spec fn attacker_hits(g: ChessGrid, color: PieceColor, t: (i32, i32), x: int, y: int) -> bool {
    match g.piece_at_spec(x, y) {
        Some(p) => p.color == color && attacks_of(p.color, p.kind, g, x, y).contains(t),
        None => false,
    }
}

/// How many of the squares `(x, 0)` to `(x, rows - 1)` hold a `color` piece that attacks `t`.
pub open spec fn column_hits(g: ChessGrid, color: PieceColor, t: (i32, i32), x: int, rows: int) -> nat
    decreases rows,
{
    if rows <= 0 {
        0
    } else {
        column_hits(g, color, t, x, rows - 1) + if attacker_hits(g, color, t, x, rows - 1) {
            1nat
        } else {
            0nat
        }
    }
}

/// How many `color` pieces in columns `0` to `cols - 1` attack `t`.
pub open spec fn board_hits(g: ChessGrid, color: PieceColor, t: (i32, i32), cols: int) -> nat
    decreases cols,
{
    if cols <= 0 {
        0
    } else {
        board_hits(g, color, t, cols - 1) + column_hits(g, color, t, cols - 1, 8)
    }
}

/// How many pieces of side `color` attack `t`.
pub open spec fn hit_count(g: ChessGrid, color: PieceColor, t: (i32, i32)) -> nat {
    board_hits(g, color, t, 8)
}

/// `p` after `hits` attacks: unchanged when none landed, gone when its health
/// falls to zero or below, otherwise lowered by the damage of each attack.
pub open spec fn damaged(p: Piece, hits: nat) -> Option<Piece> {
    if hits == 0 {
        Some(p)
    } else if p.health - 10 * hits <= 0 {
        None
    } else {
        Some(Piece { health: (p.health - 10 * hits) as i32, ..p })
    }
}

/// What stands on `(x, y)` once the pieces of side `color` have dealt their
/// damage on board `g`.
pub open spec fn combat_result(g: ChessGrid, color: PieceColor, x: int, y: int) -> Option<Piece> {
    match g.piece_at_spec(x, y) {
        Some(p) => if p.color != color {
            damaged(p, hit_count(g, color, (x as i32, y as i32)))
        } else {
            Some(p)
        },
        None => None,
    }
}

proof fn lemma_column_hits_bound(g: ChessGrid, color: PieceColor, t: (i32, i32), x: int, rows: int)
    requires
        rows >= 0,
    ensures
        column_hits(g, color, t, x, rows) <= rows,
    decreases rows,
{
    if rows > 0 {
        lemma_column_hits_bound(g, color, t, x, rows - 1);
    }
}

proof fn lemma_board_hits_bound(g: ChessGrid, color: PieceColor, t: (i32, i32), cols: int)
    requires
        cols >= 0,
    ensures
        board_hits(g, color, t, cols) <= 8 * cols,
    decreases cols,
{
    if cols > 0 {
        lemma_board_hits_bound(g, color, t, cols - 1);
        lemma_column_hits_bound(g, color, t, cols - 1, 8);
    }
}

/// Adds one to the count of every square in `attacked`.
fn add_hits(hits: &mut [[u32; 8]; 8], attacked: &CoordSet)
    requires
        forall|x: int, y: int| 0 <= x < 8 && 0 <= y < 8 ==> #[trigger] old(hits)@[x]@[y] < 64,
    ensures
        forall|x: int, y: int|
            0 <= x < 8 && 0 <= y < 8 ==> #[trigger] final(hits)@[x]@[y] == old(hits)@[x]@[y] + if attacked@.contains(
                (x as i32, y as i32),
            ) {
                1int
            } else {
                0int
            },
{
    let ghost start = *hits;
    let mut x: usize = 0;
    while x < 8
        invariant
            0 <= x <= 8,
            forall|i: int, j: int| 0 <= i < 8 && 0 <= j < 8 ==> #[trigger] start@[i]@[j] < 64,
            forall|i: int, j: int|
                0 <= i < x && 0 <= j < 8 ==> #[trigger] hits@[i]@[j] == start@[i]@[j] + if attacked@.contains(
                    (i as i32, j as i32),
                ) {
                    1int
                } else {
                    0int
                },
            forall|i: int, j: int| x <= i < 8 && 0 <= j < 8 ==> #[trigger] hits@[i]@[j] == start@[i]@[j],
        decreases 8 - x,
    {
        let mut column = hits[x];
        let mut y: usize = 0;
        while y < 8
            invariant
                0 <= x < 8,
                0 <= y <= 8,
                forall|j: int| 0 <= j < 8 ==> #[trigger] start@[x as int]@[j] < 64,
                forall|j: int|
                    0 <= j < y ==> #[trigger] column@[j] == start@[x as int]@[j] + if attacked@.contains(
                        (x as i32, j as i32),
                    ) {
                        1int
                    } else {
                        0int
                    },
                forall|j: int| y <= j < 8 ==> #[trigger] column@[j] == start@[x as int]@[j],
            decreases 8 - y,
        {
            if attacked.contains(GridCoords::new(x as i32, y as i32)) {
                column[y] = column[y] + 1;
            }
            y = y + 1;
        }
        hits[x] = column;
        x = x + 1;
    }
}

/// For every square, how many pieces of side `color` attack it on `grid`.
fn count_hits(grid: &ChessGrid, color: PieceColor) -> (hits: [[u32; 8]; 8])
    ensures
        forall|x: int, y: int|
            0 <= x < 8 && 0 <= y < 8 ==> #[trigger] hits@[x]@[y] == hit_count(*grid, color, (x as i32, y as i32)),
{
    let mut hits: [[u32; 8]; 8] = [[0; 8]; 8];
    let mut ax: i32 = 0;
    while ax < 8
        invariant
            0 <= ax <= 8,
            forall|x: int, y: int|
                0 <= x < 8 && 0 <= y < 8 ==> #[trigger] hits@[x]@[y] == board_hits(
                    *grid,
                    color,
                    (x as i32, y as i32),
                    ax as int,
                ),
        decreases 8 - ax,
    {
        let mut ay: i32 = 0;
        while ay < 8
            invariant
                0 <= ax < 8,
                0 <= ay <= 8,
                forall|x: int, y: int|
                    0 <= x < 8 && 0 <= y < 8 ==> #[trigger] hits@[x]@[y] == board_hits(
                        *grid,
                        color,
                        (x as i32, y as i32),
                        ax as int,
                    ) + column_hits(*grid, color, (x as i32, y as i32), ax as int, ay as int),
            decreases 8 - ay,
        {
            let pos = GridCoords::new(ax, ay);
            proof {
                assert forall|x: int, y: int| 0 <= x < 8 && 0 <= y < 8 implies #[trigger] hits@[x]@[y] < 64 by {
                    lemma_board_hits_bound(*grid, color, (x as i32, y as i32), ax as int);
                    lemma_column_hits_bound(*grid, color, (x as i32, y as i32), ax as int, ay as int);
                }
            }
            match grid.get_piece(pos) {
                Some(p) => {
                    if p.color == color {
                        let attacked = attacks_for(p, pos, *grid);
                        add_hits(&mut hits, &attacked);
                    }
                },
                None => {},
            }
            ay = ay + 1;
        }
        ax = ax + 1;
    }
    hits
}

/// End-of-turn combat for side `attacker_color`: every enemy piece loses
/// `DAMAGE` health for each piece of that side that attacks it, and leaves the
/// board when its health reaches zero or below. All attacks are counted on the
/// board as it stood before any damage, so a piece that dies in this pass still
/// deals its own damage in it. A king is removed like any other piece: nothing
/// here ends the match.
pub fn apply_damage_for_color(grid: &mut ChessGrid, attacker_color: PieceColor)
    ensures
        forall|x: int, y: int|
            #[trigger] final(grid).piece_at_spec(x, y) == combat_result(*old(grid), attacker_color, x, y),
{
    let snapshot = *grid;
    let hits = count_hits(&snapshot, attacker_color);
    let mut x: i32 = 0;
    while x < 8
        invariant
            0 <= x <= 8,
            forall|i: int, j: int|
                0 <= i < 8 && 0 <= j < 8 ==> #[trigger] hits@[i]@[j] == hit_count(snapshot, attacker_color, (i as i32, j as i32)),
            forall|i: int, j: int|
                0 <= i < x && 0 <= j < 8 ==> #[trigger] grid.piece_at_spec(i, j) == combat_result(snapshot, attacker_color, i, j),
            forall|i: int, j: int|
                !(0 <= i < x && 0 <= j < 8) ==> #[trigger] grid.piece_at_spec(i, j) == snapshot.piece_at_spec(i, j),
        decreases 8 - x,
    {
        let mut y: i32 = 0;
        while y < 8
            invariant
                0 <= x < 8,
                0 <= y <= 8,
                forall|i: int, j: int|
                    0 <= i < 8 && 0 <= j < 8 ==> #[trigger] hits@[i]@[j] == hit_count(snapshot, attacker_color, (i as i32, j as i32)),
                forall|i: int, j: int|
                    (0 <= i < x && 0 <= j < 8) || (i == x && 0 <= j < y) ==> #[trigger] grid.piece_at_spec(i, j)
                        == combat_result(snapshot, attacker_color, i, j),
                forall|i: int, j: int|
                    !((0 <= i < x && 0 <= j < 8) || (i == x && 0 <= j < y)) ==> #[trigger] grid.piece_at_spec(i, j)
                        == snapshot.piece_at_spec(i, j),
            decreases 8 - y,
        {
            let pos = GridCoords::new(x, y);
            let n = hits[x as usize][y as usize];
            match grid.get_piece(pos) {
                Some(p) => {
                    if p.color != attacker_color && n > 0 {
                        let health = p.health as i64 - (DAMAGE as i64) * (n as i64);
                        if health <= 0 {
                            grid.set_piece(pos, None);
                        } else {
                            grid.set_piece(pos, Some(Piece { health: health as i32, ..p }));
                        }
                    }
                },
                None => {},
            }
            y = y + 1;
        }
        x = x + 1;
    }
}

} // verus!
