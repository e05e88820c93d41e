use vstd::prelude::*;
use crate::behaviour::{
    attacks_of, bishop_dirs, knight_offsets, lemma_tables_well_formed, moves_of, offset_targets, pawn_diagonals,
    queen_dirs, ray_at, ray_clear, ray_reaches, rook_dirs, slide_targets, step, unit_directions,
};
use crate::board::ChessGrid;
use crate::combat::{attacker_hits, board_hits, column_hits, combat_result, damaged, hit_count};
use crate::piece::Piece;
use crate::coords::{GridCoords, in_bounds_spec};
use crate::piece::{PieceColor, PieceKind};

verus! {

/// Every square that a piece on the board may move to or attacks lies on the
/// board, whatever its kind and side.
pub proof fn lemma_targets_in_bounds(color: PieceColor, kind: PieceKind, g: ChessGrid, pos: GridCoords)
    requires
        pos.spec_in_bounds(),
    ensures
        forall|c: (i32, i32)|
            #[trigger] moves_of(color, kind, g, pos.x as int, pos.y as int).contains(c) ==> in_bounds_spec(
                c.0 as int,
                c.1 as int,
            ),
        forall|c: (i32, i32)|
            #[trigger] attacks_of(color, kind, g, pos.x as int, pos.y as int).contains(c) ==> in_bounds_spec(
                c.0 as int,
                c.1 as int,
            ),
{
}

/// A piece only ever moves to an empty square, so its own square is never
/// among its moves.
pub proof fn lemma_moves_land_on_empty_squares(
    color: PieceColor,
    kind: PieceKind,
    g: ChessGrid,
    pos: GridCoords,
    to: GridCoords,
)
    requires
        moves_of(color, kind, g, pos.x as int, pos.y as int).contains(to.pair()),
    ensures
        !g.occupied(to.x as int, to.y as int),
        g.occupied(pos.x as int, pos.y as int) ==> to != pos,
{
    let c = to.pair();
    match kind {
        PieceKind::Bishop | PieceKind::Rook | PieceKind::Queen => {
            let dirs = if kind == PieceKind::Bishop {
                bishop_dirs()
            } else if kind == PieceKind::Rook {
                rook_dirs()
            } else {
                queen_dirs()
            };
            let (i, k) = choose|i: int, k: int|
                0 <= i < dirs.len() && #[trigger] ray_reaches(g, pos.x as int, pos.y as int, dirs[i], k, c, false);
        },
        _ => {},
    }
}

/// The on-board squares one knight jump away from `(x, y)`.
pub open spec fn knight_squares(x: int, y: int) -> Set<(i32, i32)> {
    Set::new(
        |c: (i32, i32)|
            in_bounds_spec(c.0 as int, c.1 as int) && exists|i: int|
                0 <= i < 8 && c.0 == x + knight_offsets()[i].0 && c.1 == y + knight_offsets()[i].1,
    )
}

/// A knight's moves and attacks together are exactly the on-board squares one
/// jump away; its moves are the empty ones, its attacks the occupied ones, and
/// no square is both.
pub proof fn lemma_knight_partition(color: PieceColor, g: ChessGrid, pos: GridCoords)
    requires
        pos.spec_in_bounds(),
    ensures
        ({
            let moves = moves_of(color, PieceKind::Knight, g, pos.x as int, pos.y as int);
            let attacks = attacks_of(color, PieceKind::Knight, g, pos.x as int, pos.y as int);
            &&& moves.union(attacks) == knight_squares(pos.x as int, pos.y as int)
            &&& moves.disjoint(attacks)
            &&& forall|c: (i32, i32)| #[trigger] moves.contains(c) ==> !g.occupied(c.0 as int, c.1 as int)
            &&& forall|c: (i32, i32)| #[trigger] attacks.contains(c) ==> g.occupied(c.0 as int, c.1 as int)
        }),
{
    let moves = moves_of(color, PieceKind::Knight, g, pos.x as int, pos.y as int);
    let attacks = attacks_of(color, PieceKind::Knight, g, pos.x as int, pos.y as int);
    assert(moves.union(attacks) =~= knight_squares(pos.x as int, pos.y as int));
}

/// One piece kind's sliding directions.
pub open spec fn sliding_dirs(kind: PieceKind) -> Seq<(i32, i32)> {
    match kind {
        PieceKind::Bishop => bishop_dirs(),
        PieceKind::Rook => rook_dirs(),
        _ => queen_dirs(),
    }
}

/// Two rays in unit directions from one square meet only when they are the
/// same ray, at the same distance.
proof fn lemma_rays_meet_once(x: int, y: int, d: (i32, i32), e: (i32, i32), j: int, k: int, c: (i32, i32))
    requires
        unit_directions(seq![d]),
        unit_directions(seq![e]),
        j >= 1,
        k >= 1,
        ray_at(x, y, d, j, c),
        ray_at(x, y, e, k, c),
    ensures
        d == e,
        j == k,
{
    assert(seq![d][0] == d);
    assert(seq![e][0] == e);
}

/// Along a ray whose first piece stands `k` squares away, a sliding piece (over
/// any list of unit directions) may move to exactly the `k - 1` squares before
/// that piece, and attacks exactly those squares and the piece's own square;
/// nothing beyond it.
pub proof fn lemma_blocked_ray(
    g: ChessGrid,
    pos: GridCoords,
    dirs: Seq<(i32, i32)>,
    i: int,
    k: int,
)
    requires
        pos.spec_in_bounds(),
        unit_directions(dirs),
        0 <= i < dirs.len(),
        k >= 1,
        ray_clear(g, pos.x as int, pos.y as int, dirs[i], k),
        in_bounds_spec(pos.x + step(dirs[i].0, k), pos.y + step(dirs[i].1, k)),
        g.occupied(pos.x + step(dirs[i].0, k), pos.y + step(dirs[i].1, k)),
    ensures
        forall|j: int, c: (i32, i32)|
            j >= 1 && #[trigger] ray_at(pos.x as int, pos.y as int, dirs[i], j, c) ==> {
                &&& (slide_targets(g, pos.x as int, pos.y as int, dirs, false).contains(c) <==> j < k)
                &&& (slide_targets(g, pos.x as int, pos.y as int, dirs, true).contains(c) <==> j <= k)
            },
{
    let x = pos.x as int;
    let y = pos.y as int;
    let d = dirs[i];
    assert forall|j: int, c: (i32, i32)| j >= 1 && #[trigger] ray_at(x, y, d, j, c) implies {
        &&& (slide_targets(g, x, y, dirs, false).contains(c) <==> j < k)
        &&& (slide_targets(g, x, y, dirs, true).contains(c) <==> j <= k)
    } by {
        assert(unit_directions(seq![d])) by {
            assert(seq![d][0] == d);
        }
        if j < k {
            assert(ray_reaches(g, x, y, dirs[i], j, c, false));
        }
        if j <= k {
            assert(ray_reaches(g, x, y, dirs[i], j, c, true));
        }
        assert forall|blocker: bool| slide_targets(g, x, y, dirs, blocker).contains(c) implies (j < k || (blocker
            && j == k)) by {
            let (a, m) = choose|a: int, m: int|
                0 <= a < dirs.len() && #[trigger] ray_reaches(g, x, y, dirs[a], m, c, blocker);
            assert(unit_directions(seq![dirs[a]])) by {
                assert(seq![dirs[a]][0] == dirs[a]);
            }
            lemma_rays_meet_once(x, y, d, dirs[a], j, m, c);
            if j > k {
                assert(!g.occupied(x + step(d.0, k), y + step(d.1, k)));
            }
        }
    }
}

/// The same for the sliding kinds: bishop, rook and queen, along any of their
/// directions.
pub proof fn lemma_blocked_ray_of_kind(
    color: PieceColor,
    kind: PieceKind,
    g: ChessGrid,
    pos: GridCoords,
    i: int,
    k: int,
)
    requires
        kind == PieceKind::Bishop || kind == PieceKind::Rook || kind == PieceKind::Queen,
        pos.spec_in_bounds(),
        0 <= i < sliding_dirs(kind).len(),
        k >= 1,
        ray_clear(g, pos.x as int, pos.y as int, sliding_dirs(kind)[i], k),
        in_bounds_spec(pos.x + step(sliding_dirs(kind)[i].0, k), pos.y + step(sliding_dirs(kind)[i].1, k)),
        g.occupied(pos.x + step(sliding_dirs(kind)[i].0, k), pos.y + step(sliding_dirs(kind)[i].1, k)),
    ensures
        forall|j: int, c: (i32, i32)|
            j >= 1 && #[trigger] ray_at(pos.x as int, pos.y as int, sliding_dirs(kind)[i], j, c) ==> {
                &&& (moves_of(color, kind, g, pos.x as int, pos.y as int).contains(c) <==> j < k)
                &&& (attacks_of(color, kind, g, pos.x as int, pos.y as int).contains(c) <==> j <= k)
            },
{
    lemma_tables_well_formed();
    lemma_blocked_ray(g, pos, sliding_dirs(kind), i, k);
}

/// A pawn attacks each of its forward diagonals on the board exactly when a
/// piece, of either side, stands there.
pub proof fn lemma_pawn_diagonals(color: PieceColor, g: ChessGrid, pos: GridCoords, i: int)
    requires
        pos.spec_in_bounds(),
        0 <= i < 2,
    ensures
        ({
            let c = (
                (pos.x + pawn_diagonals(color)[i].0) as i32,
                (pos.y + pawn_diagonals(color)[i].1) as i32,
            );
            in_bounds_spec(c.0 as int, c.1 as int) ==> (attacks_of(
                color,
                PieceKind::Pawn,
                g,
                pos.x as int,
                pos.y as int,
            ).contains(c) <==> g.occupied(c.0 as int, c.1 as int))
        }),
{
}

/// The squares holding a piece of side `color` that attacks `t`.
pub open spec fn attackers(g: ChessGrid, color: PieceColor, t: (i32, i32)) -> Set<(int, int)> {
    Set::new(|a: (int, int)| in_bounds_spec(a.0, a.1) && attacker_hits(g, color, t, a.0, a.1))
}

spec fn column_attackers(g: ChessGrid, color: PieceColor, t: (i32, i32), x: int, rows: int) -> Set<(int, int)> {
    Set::new(|a: (int, int)| a.0 == x && 0 <= a.1 < rows && attacker_hits(g, color, t, a.0, a.1))
}

spec fn board_attackers(g: ChessGrid, color: PieceColor, t: (i32, i32), cols: int) -> Set<(int, int)> {
    Set::new(|a: (int, int)| 0 <= a.0 < cols && 0 <= a.1 < 8 && attacker_hits(g, color, t, a.0, a.1))
}

proof fn lemma_column_attackers(g: ChessGrid, color: PieceColor, t: (i32, i32), x: int, rows: int)
    requires
        rows >= 0,
    ensures
        column_attackers(g, color, t, x, rows).finite(),
        column_attackers(g, color, t, x, rows).len() == column_hits(g, color, t, x, rows),
    decreases rows,
{
    if rows == 0 {
        assert(column_attackers(g, color, t, x, rows) =~= Set::<(int, int)>::empty());
    } else {
        lemma_column_attackers(g, color, t, x, rows - 1);
        let prev = column_attackers(g, color, t, x, rows - 1);
        if attacker_hits(g, color, t, x, rows - 1) {
            assert(column_attackers(g, color, t, x, rows) =~= prev.insert((x, rows - 1)));
        } else {
            assert(column_attackers(g, color, t, x, rows) =~= prev);
        }
    }
}

proof fn lemma_board_attackers(g: ChessGrid, color: PieceColor, t: (i32, i32), cols: int)
    requires
        cols >= 0,
    ensures
        board_attackers(g, color, t, cols).finite(),
        board_attackers(g, color, t, cols).len() == board_hits(g, color, t, cols),
    decreases cols,
{
    if cols == 0 {
        assert(board_attackers(g, color, t, cols) =~= Set::<(int, int)>::empty());
    } else {
        lemma_board_attackers(g, color, t, cols - 1);
        lemma_column_attackers(g, color, t, cols - 1, 8);
        let prev = board_attackers(g, color, t, cols - 1);
        let col = column_attackers(g, color, t, cols - 1, 8);
        assert(board_attackers(g, color, t, cols) =~= prev.union(col));
        assert(prev.disjoint(col));
        vstd::set_lib::lemma_set_disjoint_lens(prev, col);
    }
}

/// Combat counts each attacker once: a piece attacked by exactly `n` pieces
/// of side `color` loses `10 * n` health in that side's pass, and leaves the
/// board when that brings it to zero or below.
pub proof fn lemma_damage_counts_attackers(g: ChessGrid, color: PieceColor, x: int, y: int, p: Piece)
    requires
        in_bounds_spec(x, y),
        g.piece_at_spec(x, y) == Some(p),
        p.color != color,
    ensures
        attackers(g, color, (x as i32, y as i32)).finite(),
        combat_result(g, color, x, y) == damaged(p, attackers(g, color, (x as i32, y as i32)).len()),
{
    let t = (x as i32, y as i32);
    lemma_board_attackers(g, color, t, 8);
    assert(attackers(g, color, t) =~= board_attackers(g, color, t, 8));
    assert(hit_count(g, color, t) == board_hits(g, color, t, 8));
}

} // verus!
