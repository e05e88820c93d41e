use vstd::prelude::*;
use crate::board::ChessGrid;
use crate::coord_set::CoordSet;
use crate::coords::{GridCoords, in_bounds_spec};
use crate::piece::{Piece, PieceColor, PieceKind};

verus! {

/// The squares `(x, y) + o`, for `o` among `offsets`, that lie on the board and
/// are occupied (when `occupied` holds) or empty (when it does not).
pub open spec fn offset_targets(
    g: ChessGrid,
    x: int,
    y: int,
    offsets: Seq<(i32, i32)>,
    occupied: bool,
) -> Set<(i32, i32)> {
    Set::new(
        |c: (i32, i32)|
            in_bounds_spec(c.0 as int, c.1 as int) && g.occupied(c.0 as int, c.1 as int) == occupied
                && exists|i: int|
                0 <= i < offsets.len() && c.0 == x + offsets[i].0 && c.1 == y + offsets[i].1,
    )
}

/// Every offset moves at most two squares along each axis.
pub open spec fn short_offsets(offsets: Seq<(i32, i32)>) -> bool {
    forall|i: int|
        0 <= i < offsets.len() ==> -2 <= #[trigger] offsets[i].0 <= 2 && -2 <= offsets[i].1 <= 2
}

/// The on-board squares at the given offsets from `pos` that are occupied, or
/// empty, as `occupied` asks.
pub fn offset_squares(
    pos: GridCoords,
    grid: &ChessGrid,
    offsets: &Vec<(i32, i32)>,
    occupied: bool,
) -> (r: CoordSet)
    requires
        pos.spec_in_bounds(),
        short_offsets(offsets@),
    ensures
        r@ == offset_targets(*grid, pos.x as int, pos.y as int, offsets@, occupied),
{
    let mut r = CoordSet::new();
    let mut i: usize = 0;
    proof {
        assert(r@ =~= offset_targets(*grid, pos.x as int, pos.y as int, offsets@.take(0), occupied));
    }
    while i < offsets.len()
        invariant
            0 <= i <= offsets.len(),
            pos.spec_in_bounds(),
            short_offsets(offsets@),
            r@ == offset_targets(*grid, pos.x as int, pos.y as int, offsets@.take(i as int), occupied),
        decreases offsets.len() - i,
    {
        let (dx, dy) = offsets[i];
        let c = GridCoords::new(pos.x + dx, pos.y + dy);
        let ghost before = r@;
        if c.in_bounds() && grid.get_piece(c).is_some() == occupied {
            r.insert(c);
        }
        proof {
            let taken = offsets@.take(i as int);
            let next = offsets@.take(i as int + 1);
            assert forall|q: (i32, i32)|
                r@.contains(q) == offset_targets(*grid, pos.x as int, pos.y as int, next, occupied).contains(q) by {
                if offset_targets(*grid, pos.x as int, pos.y as int, next, occupied).contains(q) {
                    let j = choose|j: int|
                        0 <= j < next.len() && q.0 == pos.x + next[j].0 && q.1 == pos.y + next[j].1;
                    if j < i {
                        assert(taken[j] == next[j]);
                        assert(before.contains(q));
                    }
                }
                if before.contains(q) {
                    let j = choose|j: int|
                        0 <= j < taken.len() && q.0 == pos.x + taken[j].0 && q.1 == pos.y + taken[j].1;
                    assert(taken[j] == next[j]);
                }
                if q == c.pair() && c.spec_in_bounds() && grid.occupied(c.x as int, c.y as int) == occupied {
                    assert(next[i as int] == offsets@[i as int]);
                }
            }
            assert(r@ =~= offset_targets(*grid, pos.x as int, pos.y as int, next, occupied));
        }
        i = i + 1;
    }
    proof {
        assert(offsets@.take(offsets.len() as int) =~= offsets@);
    }
    r
}

/// `j` steps of size `d`, where `d` is one of -1, 0 and 1.
pub open spec fn step(d: i32, j: int) -> int {
    if d > 0 {
        j
    } else if d < 0 {
        -j
    } else {
        0
    }
}

/// Each direction moves one square along each axis at most, and moves.
pub open spec fn unit_directions(dirs: Seq<(i32, i32)>) -> bool {
    forall|i: int|
        0 <= i < dirs.len() ==> -1 <= #[trigger] dirs[i].0 <= 1 && -1 <= dirs[i].1 <= 1 && (
        dirs[i].0 != 0 || dirs[i].1 != 0)
}

/// `c` is the square `k` steps from `(x, y)` in direction `d`.
pub open spec fn ray_at(x: int, y: int, d: (i32, i32), k: int, c: (i32, i32)) -> bool {
    c.0 == x + step(d.0, k) && c.1 == y + step(d.1, k)
}

/// The squares 1 to `k - 1` steps from `(x, y)` in direction `d` are on the
/// board and empty.
pub open spec fn ray_clear(g: ChessGrid, x: int, y: int, d: (i32, i32), k: int) -> bool {
    forall|j: int|
        1 <= j < k ==> in_bounds_spec(x + step(d.0, j), y + step(d.1, j)) && !#[trigger] g.occupied(
            x + step(d.0, j),
            y + step(d.1, j),
        )
}

/// `c`, `k >= 1` steps from `(x, y)` in direction `d`, is reached by a sliding
/// piece: it lies on the board and nothing stands between. An occupied square
/// counts only when `blocker` holds.
pub open spec fn ray_reaches(
    g: ChessGrid,
    x: int,
    y: int,
    d: (i32, i32),
    k: int,
    c: (i32, i32),
    blocker: bool,
) -> bool {
    &&& k >= 1
    &&& ray_at(x, y, d, k, c)
    &&& in_bounds_spec(c.0 as int, c.1 as int)
    &&& ray_clear(g, x, y, d, k)
    &&& (blocker || !g.occupied(c.0 as int, c.1 as int))
}

/// The squares a sliding piece on `(x, y)` reaches along `dirs`: the empty
/// squares up to the first piece on each ray, and also that piece's square
/// when `blocker` holds.
pub open spec fn slide_targets(
    g: ChessGrid,
    x: int,
    y: int,
    dirs: Seq<(i32, i32)>,
    blocker: bool,
) -> Set<(i32, i32)> {
    Set::new(
        |c: (i32, i32)|
            exists|i: int, k: int| 0 <= i < dirs.len() && #[trigger] ray_reaches(g, x, y, dirs[i], k, c, blocker),
    )
}

/// The squares one sliding ray from `(x, y)` reaches.
pub open spec fn ray_targets(g: ChessGrid, x: int, y: int, d: (i32, i32), blocker: bool) -> Set<(i32, i32)> {
    Set::new(|c: (i32, i32)| exists|k: int| #[trigger] ray_reaches(g, x, y, d, k, c, blocker))
}

/// The squares fewer than `k` steps out that one sliding ray from `(x, y)` reaches.
pub open spec fn ray_prefix(g: ChessGrid, x: int, y: int, d: (i32, i32), k: int, blocker: bool) -> Set<(i32, i32)> {
    Set::new(|c: (i32, i32)| exists|j: int| j < k && #[trigger] ray_reaches(g, x, y, d, j, c, blocker))
}

proof fn lemma_ray_prefix_step(
    g: ChessGrid,
    x: int,
    y: int,
    d: (i32, i32),
    k: int,
    blocker: bool,
    cur: (i32, i32),
)
    requires
        ray_at(x, y, d, k, cur),
    ensures
        ray_reaches(g, x, y, d, k, cur, blocker) ==> ray_prefix(g, x, y, d, k + 1, blocker) == ray_prefix(
            g,
            x,
            y,
            d,
            k,
            blocker,
        ).insert(cur),
        !ray_reaches(g, x, y, d, k, cur, blocker) ==> ray_prefix(g, x, y, d, k + 1, blocker)
            == ray_prefix(g, x, y, d, k, blocker),
{
    let next = ray_prefix(g, x, y, d, k + 1, blocker);
    let prev = ray_prefix(g, x, y, d, k, blocker);
    assert forall|c: (i32, i32)| next.contains(c) implies prev.contains(c) || c == cur by {
        if next.contains(c) {
            let j = choose|j: int| j < k + 1 && #[trigger] ray_reaches(g, x, y, d, j, c, blocker);
            if j == k {
                assert(c == cur);
            } else {
                assert(prev.contains(c));
            }
        }
    }
    if ray_reaches(g, x, y, d, k, cur, blocker) {
        assert(next =~= prev.insert(cur));
    } else {
        assert(next =~= prev);
    }
}

proof fn lemma_ray_cut(g: ChessGrid, x: int, y: int, d: (i32, i32), k: int, blocker: bool)
    requires
        k >= 1,
        !in_bounds_spec(x + step(d.0, k), y + step(d.1, k)) || g.occupied(x + step(d.0, k), y + step(d.1, k)),
    ensures
        ray_targets(g, x, y, d, blocker) == ray_prefix(g, x, y, d, k + 1, blocker),
{
    let all = ray_targets(g, x, y, d, blocker);
    let pre = ray_prefix(g, x, y, d, k + 1, blocker);
    assert forall|c: (i32, i32)| all.contains(c) implies pre.contains(c) by {
        let j = choose|j: int| #[trigger] ray_reaches(g, x, y, d, j, c, blocker);
        if j > k {
            assert(g.occupied(x + step(d.0, k), y + step(d.1, k)));
        }
    }
    assert(all =~= pre);
}

/// Adds to `r` the squares that one ray from `pos` reaches.
fn slide_ray(pos: GridCoords, grid: &ChessGrid, d: (i32, i32), blocker: bool, r: &mut CoordSet)
    requires
        pos.spec_in_bounds(),
        unit_directions(seq![d]),
    ensures
        final(r)@ == old(r)@.union(ray_targets(*grid, pos.x as int, pos.y as int, d, blocker)),
{
    let (dx, dy) = d;
    proof {
        assert(unit_directions(seq![d]) ==> -1 <= seq![d][0].0 <= 1);
        assert(seq![d][0] == d);
    }
    let ghost x = pos.x as int;
    let ghost y = pos.y as int;
    let mut cur = GridCoords::new(pos.x + dx, pos.y + dy);
    let ghost mut k: int = 1;
    let mut open = true;
    let ghost start = r@;
    proof {
        assert(r@ =~= start.union(ray_prefix(*grid, x, y, d, 1, blocker)));
    }
    while open && cur.in_bounds()
        invariant
            pos.spec_in_bounds(),
            x == pos.x,
            y == pos.y,
            -1 <= dx <= 1,
            -1 <= dy <= 1,
            dx != 0 || dy != 0,
            d == (dx, dy),
            1 <= k <= 8,
            ray_at(x, y, d, k, cur.pair()),
            open ==> ray_clear(*grid, x, y, d, k),
            open ==> r@ == start.union(ray_prefix(*grid, x, y, d, k, blocker)),
            !open ==> r@ == start.union(ray_targets(*grid, x, y, d, blocker)),
        decreases 8 - k + (if open { 1int } else { 0int }),
    {
        let taken = grid.get_piece(cur).is_some();
        proof {
            lemma_ray_prefix_step(*grid, x, y, d, k, blocker, cur.pair());
        }
        if !taken || blocker {
            r.insert(cur);
        }
        if taken {
            open = false;
            proof {
                lemma_ray_cut(*grid, x, y, d, k, blocker);
                assert(r@ =~= start.union(ray_targets(*grid, x, y, d, blocker)));
            }
        } else {
            proof {
                assert(r@ =~= start.union(ray_prefix(*grid, x, y, d, k + 1, blocker)));
                assert forall|j: int| 1 <= j < k + 1 implies in_bounds_spec(x + step(d.0, j), y + step(d.1, j))
                    && !#[trigger] grid.occupied(x + step(d.0, j), y + step(d.1, j)) by {
                    if j < k {
                        assert(ray_clear(*grid, x, y, d, k));
                    }
                }
            }
            cur = GridCoords::new(cur.x + dx, cur.y + dy);
            proof {
                k = k + 1;
            }
        }
    }
    proof {
        if open {
            lemma_ray_prefix_step(*grid, x, y, d, k, blocker, cur.pair());
            lemma_ray_cut(*grid, x, y, d, k, blocker);
            assert(r@ =~= start.union(ray_targets(*grid, x, y, d, blocker)));
        }
    }
}

fn slide_squares(pos: GridCoords, grid: &ChessGrid, dirs: &Vec<(i32, i32)>, blocker: bool) -> (r: CoordSet)
    requires
        pos.spec_in_bounds(),
        unit_directions(dirs@),
    ensures
        r@ == slide_targets(*grid, pos.x as int, pos.y as int, dirs@, blocker),
{
    let ghost x = pos.x as int;
    let ghost y = pos.y as int;
    let mut r = CoordSet::new();
    proof {
        assert(r@ =~= slide_targets(*grid, x, y, dirs@.take(0), blocker));
    }
    let mut i: usize = 0;
    while i < dirs.len()
        invariant
            0 <= i <= dirs.len(),
            pos.spec_in_bounds(),
            x == pos.x,
            y == pos.y,
            unit_directions(dirs@),
            r@ == slide_targets(*grid, x, y, dirs@.take(i as int), blocker),
        decreases dirs.len() - i,
    {
        let d = dirs[i];
        proof {
            assert(seq![d][0] == d);
        }
        let ghost before = r@;
        slide_ray(pos, grid, d, blocker, &mut r);
        proof {
            let taken = dirs@.take(i as int);
            let next = dirs@.take(i as int + 1);
            let target = slide_targets(*grid, x, y, next, blocker);
            assert forall|c: (i32, i32)| #[trigger] r@.contains(c) == target.contains(c) by {
                if target.contains(c) {
                    let (a, k) = choose|a: int, k: int|
                        0 <= a < next.len() && #[trigger] ray_reaches(*grid, x, y, next[a], k, c, blocker);
                    if a < i {
                        assert(taken[a] == next[a]);
                        assert(before.contains(c));
                    } else {
                        assert(ray_targets(*grid, x, y, d, blocker).contains(c));
                    }
                }
                if before.contains(c) {
                    let (a, k) = choose|a: int, k: int|
                        0 <= a < taken.len() && #[trigger] ray_reaches(*grid, x, y, taken[a], k, c, blocker);
                    assert(taken[a] == next[a]);
                }
                if ray_targets(*grid, x, y, d, blocker).contains(c) {
                    let k = choose|k: int| #[trigger] ray_reaches(*grid, x, y, d, k, c, blocker);
                    assert(next[i as int] == d);
                    assert(ray_reaches(*grid, x, y, next[i as int], k, c, blocker));
                }
            }
            assert(r@ =~= target);
        }
        i = i + 1;
    }
    proof {
        assert(dirs@.take(dirs.len() as int) =~= dirs@);
    }
    r
}

/// The empty squares a sliding piece on `pos` can move to along `directions`.
pub fn sliding_moves(pos: GridCoords, grid: ChessGrid, directions: &Vec<(i32, i32)>) -> (r: CoordSet)
    requires
        pos.spec_in_bounds(),
        unit_directions(directions@),
    ensures
        r@ == slide_targets(grid, pos.x as int, pos.y as int, directions@, false),
{
    slide_squares(pos, &grid, directions, false)
}

/// The squares a sliding piece on `pos` attacks along `directions`: each ray up
/// to and including its first occupied square.
pub fn sliding_attacks(pos: GridCoords, grid: ChessGrid, directions: &Vec<(i32, i32)>) -> (r: CoordSet)
    requires
        pos.spec_in_bounds(),
        unit_directions(directions@),
    ensures
        r@ == slide_targets(grid, pos.x as int, pos.y as int, directions@, true),
{
    slide_squares(pos, &grid, directions, true)
}

/// Orthogonal directions, along which a rook slides.
pub open spec fn rook_dirs() -> Seq<(i32, i32)> {
    seq![(1i32, 0i32), (-1i32, 0i32), (0i32, 1i32), (0i32, -1i32)]
}

/// Diagonal directions, along which a bishop slides.
pub open spec fn bishop_dirs() -> Seq<(i32, i32)> {
    seq![(1i32, 1i32), (-1i32, -1i32), (1i32, -1i32), (-1i32, 1i32)]
}

/// All eight directions: a queen slides along them, a king steps once.
pub open spec fn queen_dirs() -> Seq<(i32, i32)> {
    rook_dirs() + bishop_dirs()
}

/// The eight L-shaped knight jumps.
pub open spec fn knight_offsets() -> Seq<(i32, i32)> {
    seq![(1i32, 2i32), (2i32, 1i32), (2i32, -1i32), (1i32, -2i32), (-1i32, -2i32), (-2i32, -1i32), (-2i32, 1i32), (-1i32, 2i32)]
}

/// A pawn's single step forward: White toward row 0, Black toward row 7.
pub open spec fn pawn_advance(color: PieceColor) -> Seq<(i32, i32)> {
    match color {
        PieceColor::White => seq![(0i32, -1i32)],
        PieceColor::Black => seq![(0i32, 1i32)],
    }
}

/// A pawn's two forward diagonals.
pub open spec fn pawn_diagonals(color: PieceColor) -> Seq<(i32, i32)> {
    match color {
        PieceColor::White => seq![(-1i32, -1i32), (1i32, -1i32)],
        PieceColor::Black => seq![(1i32, 1i32), (-1i32, 1i32)],
    }
}

pub fn rook_directions() -> (r: Vec<(i32, i32)>)
    ensures
        r@ == rook_dirs(),
{
    let r = vec![(1, 0), (-1, 0), (0, 1), (0, -1)];
    proof {
        assert(r@ =~= rook_dirs());
    }
    r
}

pub fn bishop_directions() -> (r: Vec<(i32, i32)>)
    ensures
        r@ == bishop_dirs(),
{
    let r = vec![(1, 1), (-1, -1), (1, -1), (-1, 1)];
    proof {
        assert(r@ =~= bishop_dirs());
    }
    r
}

pub fn queen_directions() -> (r: Vec<(i32, i32)>)
    ensures
        r@ == queen_dirs(),
{
    let r = vec![(1, 0), (-1, 0), (0, 1), (0, -1), (1, 1), (-1, -1), (1, -1), (-1, 1)];
    proof {
        assert(r@ =~= queen_dirs());
    }
    r
}

pub fn knight_jumps() -> (r: Vec<(i32, i32)>)
    ensures
        r@ == knight_offsets(),
{
    let r = vec![(1, 2), (2, 1), (2, -1), (1, -2), (-1, -2), (-2, -1), (-2, 1), (-1, 2)];
    proof {
        assert(r@ =~= knight_offsets());
    }
    r
}

pub fn pawn_advance_offsets(color: PieceColor) -> (r: Vec<(i32, i32)>)
    ensures
        r@ == pawn_advance(color),
{
    let r = match color {
        PieceColor::White => vec![(0, -1)],
        PieceColor::Black => vec![(0, 1)],
    };
    proof {
        assert(r@ =~= pawn_advance(color));
    }
    r
}

pub fn pawn_diagonal_offsets(color: PieceColor) -> (r: Vec<(i32, i32)>)
    ensures
        r@ == pawn_diagonals(color),
{
    let r = match color {
        PieceColor::White => vec![(-1, -1), (1, -1)],
        PieceColor::Black => vec![(1, 1), (-1, 1)],
    };
    proof {
        assert(r@ =~= pawn_diagonals(color));
    }
    r
}

/// Where a piece on `(x, y)` may move: its empty destination squares.
pub open spec fn moves_of(color: PieceColor, kind: PieceKind, g: ChessGrid, x: int, y: int) -> Set<(i32, i32)> {
    match kind {
        PieceKind::Pawn => offset_targets(g, x, y, pawn_advance(color), false),
        PieceKind::Knight => offset_targets(g, x, y, knight_offsets(), false),
        PieceKind::Bishop => slide_targets(g, x, y, bishop_dirs(), false),
        PieceKind::Rook => slide_targets(g, x, y, rook_dirs(), false),
        PieceKind::Queen => slide_targets(g, x, y, queen_dirs(), false),
        PieceKind::King => offset_targets(g, x, y, queen_dirs(), false),
    }
}

/// What a piece on `(x, y)` attacks: occupied squares it reaches, whichever
/// side stands there, and for sliding pieces also the empty squares before the
/// first piece on each ray.
pub open spec fn attacks_of(color: PieceColor, kind: PieceKind, g: ChessGrid, x: int, y: int) -> Set<(i32, i32)> {
    match kind {
        PieceKind::Pawn => offset_targets(g, x, y, pawn_diagonals(color), true),
        PieceKind::Knight => offset_targets(g, x, y, knight_offsets(), true),
        PieceKind::Bishop => slide_targets(g, x, y, bishop_dirs(), true),
        PieceKind::Rook => slide_targets(g, x, y, rook_dirs(), true),
        PieceKind::Queen => slide_targets(g, x, y, queen_dirs(), true),
        PieceKind::King => offset_targets(g, x, y, queen_dirs(), true),
    }
}

pub(crate) proof fn lemma_tables_well_formed()
    ensures
        short_offsets(knight_offsets()),
        short_offsets(queen_dirs()),
        short_offsets(pawn_advance(PieceColor::White)),
        short_offsets(pawn_advance(PieceColor::Black)),
        short_offsets(pawn_diagonals(PieceColor::White)),
        short_offsets(pawn_diagonals(PieceColor::Black)),
        unit_directions(rook_dirs()),
        unit_directions(bishop_dirs()),
        unit_directions(queen_dirs()),
{
    assert(queen_dirs() =~= seq![
        (1i32, 0i32), (-1i32, 0i32), (0i32, 1i32), (0i32, -1i32), (1i32, 1i32), (-1i32, -1i32), (1i32, -1i32), (-1i32, 1i32)
    ]);
}

/// Move and attack generation for one kind of piece.
pub trait PieceBehaviour {
    /// The squares a piece of this kind on `pos` may move to.
    spec fn legal_moves_spec(pos: GridCoords, grid: ChessGrid) -> Set<(i32, i32)>;

    /// The squares a piece of this kind on `pos` attacks.
    spec fn attacks_spec(pos: GridCoords, grid: ChessGrid) -> Set<(i32, i32)>;

    fn get_legal_moves(pos: GridCoords, grid: ChessGrid) -> (r: CoordSet)
        requires
            pos.spec_in_bounds(),
        ensures
            r@ == Self::legal_moves_spec(pos, grid),
    ;

    fn get_attacks(pos: GridCoords, grid: ChessGrid) -> (r: CoordSet)
        requires
            pos.spec_in_bounds(),
        ensures
            r@ == Self::attacks_spec(pos, grid),
    ;
}

pub struct WhitePawnBehaviour;

pub struct BlackPawnBehaviour;

pub struct KnightBehaviour;

pub struct BishopBehaviour;

pub struct RookBehaviour;

pub struct QueenBehaviour;

pub struct KingBehaviour;

impl PieceBehaviour for WhitePawnBehaviour {
    open spec fn legal_moves_spec(pos: GridCoords, grid: ChessGrid) -> Set<(i32, i32)> {
        moves_of(PieceColor::White, PieceKind::Pawn, grid, pos.x as int, pos.y as int)
    }

    open spec fn attacks_spec(pos: GridCoords, grid: ChessGrid) -> Set<(i32, i32)> {
        attacks_of(PieceColor::White, PieceKind::Pawn, grid, pos.x as int, pos.y as int)
    }

    fn get_legal_moves(pos: GridCoords, grid: ChessGrid) -> (r: CoordSet) {
        proof {
            lemma_tables_well_formed();
        }
        offset_squares(pos, &grid, &pawn_advance_offsets(PieceColor::White), false)
    }

    fn get_attacks(pos: GridCoords, grid: ChessGrid) -> (r: CoordSet) {
        proof {
            lemma_tables_well_formed();
        }
        offset_squares(pos, &grid, &pawn_diagonal_offsets(PieceColor::White), true)
    }
}

impl PieceBehaviour for BlackPawnBehaviour {
    open spec fn legal_moves_spec(pos: GridCoords, grid: ChessGrid) -> Set<(i32, i32)> {
        moves_of(PieceColor::Black, PieceKind::Pawn, grid, pos.x as int, pos.y as int)
    }

    open spec fn attacks_spec(pos: GridCoords, grid: ChessGrid) -> Set<(i32, i32)> {
        attacks_of(PieceColor::Black, PieceKind::Pawn, grid, pos.x as int, pos.y as int)
    }

    fn get_legal_moves(pos: GridCoords, grid: ChessGrid) -> (r: CoordSet) {
        proof {
            lemma_tables_well_formed();
        }
        offset_squares(pos, &grid, &pawn_advance_offsets(PieceColor::Black), false)
    }

    fn get_attacks(pos: GridCoords, grid: ChessGrid) -> (r: CoordSet) {
        proof {
            lemma_tables_well_formed();
        }
        offset_squares(pos, &grid, &pawn_diagonal_offsets(PieceColor::Black), true)
    }
}

impl PieceBehaviour for KnightBehaviour {
    open spec fn legal_moves_spec(pos: GridCoords, grid: ChessGrid) -> Set<(i32, i32)> {
        offset_targets(grid, pos.x as int, pos.y as int, knight_offsets(), false)
    }

    open spec fn attacks_spec(pos: GridCoords, grid: ChessGrid) -> Set<(i32, i32)> {
        offset_targets(grid, pos.x as int, pos.y as int, knight_offsets(), true)
    }

    fn get_legal_moves(pos: GridCoords, grid: ChessGrid) -> (r: CoordSet) {
        proof {
            lemma_tables_well_formed();
        }
        offset_squares(pos, &grid, &knight_jumps(), false)
    }

    fn get_attacks(pos: GridCoords, grid: ChessGrid) -> (r: CoordSet) {
        proof {
            lemma_tables_well_formed();
        }
        offset_squares(pos, &grid, &knight_jumps(), true)
    }
}

impl PieceBehaviour for BishopBehaviour {
    open spec fn legal_moves_spec(pos: GridCoords, grid: ChessGrid) -> Set<(i32, i32)> {
        slide_targets(grid, pos.x as int, pos.y as int, bishop_dirs(), false)
    }

    open spec fn attacks_spec(pos: GridCoords, grid: ChessGrid) -> Set<(i32, i32)> {
        slide_targets(grid, pos.x as int, pos.y as int, bishop_dirs(), true)
    }

    fn get_legal_moves(pos: GridCoords, grid: ChessGrid) -> (r: CoordSet) {
        proof {
            lemma_tables_well_formed();
        }
        sliding_moves(pos, grid, &bishop_directions())
    }

    fn get_attacks(pos: GridCoords, grid: ChessGrid) -> (r: CoordSet) {
        proof {
            lemma_tables_well_formed();
        }
        sliding_attacks(pos, grid, &bishop_directions())
    }
}

impl PieceBehaviour for RookBehaviour {
    open spec fn legal_moves_spec(pos: GridCoords, grid: ChessGrid) -> Set<(i32, i32)> {
        slide_targets(grid, pos.x as int, pos.y as int, rook_dirs(), false)
    }

    open spec fn attacks_spec(pos: GridCoords, grid: ChessGrid) -> Set<(i32, i32)> {
        slide_targets(grid, pos.x as int, pos.y as int, rook_dirs(), true)
    }

    fn get_legal_moves(pos: GridCoords, grid: ChessGrid) -> (r: CoordSet) {
        proof {
            lemma_tables_well_formed();
        }
        sliding_moves(pos, grid, &rook_directions())
    }

    fn get_attacks(pos: GridCoords, grid: ChessGrid) -> (r: CoordSet) {
        proof {
            lemma_tables_well_formed();
        }
        sliding_attacks(pos, grid, &rook_directions())
    }
}

impl PieceBehaviour for QueenBehaviour {
    open spec fn legal_moves_spec(pos: GridCoords, grid: ChessGrid) -> Set<(i32, i32)> {
        slide_targets(grid, pos.x as int, pos.y as int, queen_dirs(), false)
    }

    open spec fn attacks_spec(pos: GridCoords, grid: ChessGrid) -> Set<(i32, i32)> {
        slide_targets(grid, pos.x as int, pos.y as int, queen_dirs(), true)
    }

    fn get_legal_moves(pos: GridCoords, grid: ChessGrid) -> (r: CoordSet) {
        proof {
            lemma_tables_well_formed();
        }
        sliding_moves(pos, grid, &queen_directions())
    }

    fn get_attacks(pos: GridCoords, grid: ChessGrid) -> (r: CoordSet) {
        proof {
            lemma_tables_well_formed();
        }
        sliding_attacks(pos, grid, &queen_directions())
    }
}

impl PieceBehaviour for KingBehaviour {
    open spec fn legal_moves_spec(pos: GridCoords, grid: ChessGrid) -> Set<(i32, i32)> {
        offset_targets(grid, pos.x as int, pos.y as int, queen_dirs(), false)
    }

    open spec fn attacks_spec(pos: GridCoords, grid: ChessGrid) -> Set<(i32, i32)> {
        offset_targets(grid, pos.x as int, pos.y as int, queen_dirs(), true)
    }

    fn get_legal_moves(pos: GridCoords, grid: ChessGrid) -> (r: CoordSet) {
        proof {
            lemma_tables_well_formed();
        }
        offset_squares(pos, &grid, &queen_directions(), false)
    }

    fn get_attacks(pos: GridCoords, grid: ChessGrid) -> (r: CoordSet) {
        proof {
            lemma_tables_well_formed();
        }
        offset_squares(pos, &grid, &queen_directions(), true)
    }
}

/// The squares `piece` may move to from `pos`.
pub fn legal_moves_for(piece: Piece, pos: GridCoords, grid: ChessGrid) -> (r: CoordSet)
    requires
        pos.spec_in_bounds(),
    ensures
        r@ == moves_of(piece.color, piece.kind, grid, pos.x as int, pos.y as int),
{
    match piece.kind {
        PieceKind::Pawn => match piece.color {
            PieceColor::White => WhitePawnBehaviour::get_legal_moves(pos, grid),
            PieceColor::Black => BlackPawnBehaviour::get_legal_moves(pos, grid),
        },
        PieceKind::Knight => KnightBehaviour::get_legal_moves(pos, grid),
        PieceKind::Bishop => BishopBehaviour::get_legal_moves(pos, grid),
        PieceKind::Rook => RookBehaviour::get_legal_moves(pos, grid),
        PieceKind::Queen => QueenBehaviour::get_legal_moves(pos, grid),
        PieceKind::King => KingBehaviour::get_legal_moves(pos, grid),
    }
}

/// The squares `piece` attacks from `pos`.
pub fn attacks_for(piece: Piece, pos: GridCoords, grid: ChessGrid) -> (r: CoordSet)
    requires
        pos.spec_in_bounds(),
    ensures
        r@ == attacks_of(piece.color, piece.kind, grid, pos.x as int, pos.y as int),
{
    match piece.kind {
        PieceKind::Pawn => match piece.color {
            PieceColor::White => WhitePawnBehaviour::get_attacks(pos, grid),
            PieceColor::Black => BlackPawnBehaviour::get_attacks(pos, grid),
        },
        PieceKind::Knight => KnightBehaviour::get_attacks(pos, grid),
        PieceKind::Bishop => BishopBehaviour::get_attacks(pos, grid),
        PieceKind::Rook => RookBehaviour::get_attacks(pos, grid),
        PieceKind::Queen => QueenBehaviour::get_attacks(pos, grid),
        PieceKind::King => KingBehaviour::get_attacks(pos, grid),
    }
}

} // verus!
