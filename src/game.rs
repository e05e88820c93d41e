use vstd::prelude::*;
use crate::behaviour::{attacks_for, attacks_of, legal_moves_for, moves_of};
use crate::laws::lemma_moves_land_on_empty_squares;
use crate::board::{ChessGrid, starting_square};
use crate::combat::{apply_damage_for_color, combat_result};
use crate::coord_set::CoordSet;
use crate::coords::{GridCoords, in_bounds_spec};
use crate::opponent::{OPPONENT_MOVES, opponent_reachable, opponent_turn};
use crate::piece::{Piece, PieceColor};

verus! {

/// Moves the player may make before passing the turn.
pub const ACTIONS_PER_TURN: u32 = 3;

/// Why an engine operation was refused. A refused operation changes nothing.
#[derive(Clone, Copy, Debug, PartialEq, Eq, Structural)]
pub enum EngineError {
    /// The destination is not a legal move of the piece on the origin square.
    IllegalMove,
    /// The operation needs a selected square holding a piece.
    EmptySelection,
    /// A coordinate off the board.
    OutOfBounds,
}

/// The squares the piece on `sel` may move to, as offered to the player: none
/// unless a White piece stands there and moves remain this turn.
pub open spec fn offered_moves(g: ChessGrid, sel: Option<GridCoords>, actions: u32) -> Set<(i32, i32)> {
    match sel {
        Some(c) => match g.piece_at_spec(c.x as int, c.y as int) {
            Some(p) => if p.color == PieceColor::White && actions > 0 {
                moves_of(p.color, p.kind, g, c.x as int, c.y as int)
            } else {
                Set::empty()
            },
            None => Set::empty(),
        },
        None => Set::empty(),
    }
}

/// The squares among `s` that hold a piece of the side other than `color`.
pub open spec fn enemies_among(g: ChessGrid, s: Set<(i32, i32)>, color: PieceColor) -> Set<(i32, i32)> {
    Set::new(
        |t: (i32, i32)|
            s.contains(t) && match g.piece_at_spec(t.0 as int, t.1 as int) {
                Some(q) => q.color != color,
                None => false,
            },
    )
}

/// The enemy squares that the piece on `sel` threatens, shown under the same
/// condition as its moves.
pub open spec fn offered_threats(g: ChessGrid, sel: Option<GridCoords>, actions: u32) -> Set<(i32, i32)> {
    match sel {
        Some(c) => match g.piece_at_spec(c.x as int, c.y as int) {
            Some(p) => if p.color == PieceColor::White && actions > 0 {
                enemies_among(g, attacks_of(p.color, p.kind, g, c.x as int, c.y as int), p.color)
            } else {
                Set::empty()
            },
            None => Set::empty(),
        },
        None => Set::empty(),
    }
}

/// `after` holds, on every square, what combat by side `color` leaves of `before`.
pub open spec fn combat_outcome(before: ChessGrid, color: PieceColor, after: ChessGrid) -> bool {
    forall|x: int, y: int| #[trigger] after.piece_at_spec(x, y) == combat_result(before, color, x, y)
}

/// What a match's state amounts to.
pub struct GameView {
    pub board: ChessGrid,
    pub selected: Option<GridCoords>,
    pub legal_moves: Set<(i32, i32)>,
    pub threatened: Set<(i32, i32)>,
    pub actions_remaining: u32,
}

/// The state of a match: the board, the selected square with the moves and
/// threats shown for it, and the player's remaining moves this turn.
#[derive(Debug)]
pub struct GameState {
    board: ChessGrid,
    selected: Option<GridCoords>,
    legal_moves: CoordSet,
    threatened: CoordSet,
    actions_remaining: u32,
}

impl View for GameState {
    type V = GameView;

    closed spec fn view(&self) -> GameView {
        GameView {
            board: self.board,
            selected: self.selected,
            legal_moves: self.legal_moves@,
            threatened: self.threatened@,
            actions_remaining: self.actions_remaining,
        }
    }
}

impl GameState {
    /// The selection lies on the board, the shown moves and threats are those
    /// of the current selection and board, and the budget is at most a full turn.
    pub open spec fn wf(&self) -> bool {
        &&& match self@.selected {
            Some(c) => c.spec_in_bounds(),
            None => true,
        }
        &&& self@.legal_moves == offered_moves(self@.board, self@.selected, self@.actions_remaining)
        &&& self@.threatened == offered_threats(self@.board, self@.selected, self@.actions_remaining)
        &&& self@.actions_remaining <= ACTIONS_PER_TURN
    }

    /// A match on `board`, nothing selected, with a full turn ahead.
    pub fn from_board(board: ChessGrid) -> (r: GameState)
        ensures
            r.wf(),
            r@.board == board,
            r@.selected is None,
            r@.actions_remaining == ACTIONS_PER_TURN,
    {
        GameState {
            board,
            selected: None,
            legal_moves: CoordSet::new(),
            threatened: CoordSet::new(),
            actions_remaining: ACTIONS_PER_TURN,
        }
    }

    /// A match from the starting layout.
    pub fn new() -> (r: GameState)
        ensures
            r.wf(),
            forall|x: int, y: int| in_bounds_spec(x, y) ==> #[trigger] r@.board.piece_at_spec(x, y) == starting_square(x, y),
            r@.selected is None,
            r@.actions_remaining == ACTIONS_PER_TURN,
    {
        GameState::from_board(ChessGrid::starting_position())
    }

    pub fn board(&self) -> (r: &ChessGrid)
        ensures
            *r == self@.board,
    {
        &self.board
    }

    pub fn selected(&self) -> (r: Option<GridCoords>)
        ensures
            r == self@.selected,
    {
        self.selected
    }

    pub fn legal_moves(&self) -> (r: &CoordSet)
        ensures
            r@ == self@.legal_moves,
    {
        &self.legal_moves
    }

    pub fn threatened(&self) -> (r: &CoordSet)
        ensures
            r@ == self@.threatened,
    {
        &self.threatened
    }

    pub fn actions_remaining(&self) -> (r: u32)
        ensures
            r == self@.actions_remaining,
    {
        self.actions_remaining
    }
}

/// The squares of `attacked` that hold a piece of the side other than `color`.
fn enemy_squares(grid: &ChessGrid, attacked: &CoordSet, color: PieceColor) -> (r: CoordSet)
    ensures
        r@ == enemies_among(*grid, attacked@, color),
{
    let mut r = CoordSet::new();
    let mut x: i32 = 0;
    while x < 8
        invariant
            0 <= x <= 8,
            forall|t: (i32, i32)|
                #[trigger] r@.contains(t) == (enemies_among(*grid, attacked@, color).contains(t) && t.0 < x),
        decreases 8 - x,
    {
        let mut y: i32 = 0;
        while y < 8
            invariant
                0 <= x < 8,
                0 <= y <= 8,
                forall|t: (i32, i32)|
                    #[trigger] r@.contains(t) == (enemies_among(*grid, attacked@, color).contains(t) && (t.0 < x
                        || (t.0 == x && t.1 < y))),
            decreases 8 - y,
        {
            let c = GridCoords::new(x, y);
            if attacked.contains(c) {
                match grid.get_piece(c) {
                    Some(q) => {
                        if q.color != color {
                            r.insert(c);
                        }
                    },
                    None => {},
                }
            }
            y = y + 1;
        }
        x = x + 1;
    }
    proof {
        assert(r@ =~= enemies_among(*grid, attacked@, color));
    }
    r
}

impl GameState {
    /// Recomputes the shown moves and threats from the selection and the board.
    fn find_legal_moves(&mut self)
        requires
            match old(self)@.selected {
                Some(c) => c.spec_in_bounds(),
                None => true,
            },
            old(self)@.actions_remaining <= ACTIONS_PER_TURN,
        ensures
            final(self).wf(),
            final(self)@.board == old(self)@.board,
            final(self)@.selected == old(self)@.selected,
            final(self)@.actions_remaining == old(self)@.actions_remaining,
    {
        let mut moves = CoordSet::new();
        let mut threats = CoordSet::new();
        match self.selected {
            Some(c) => match self.board.get_piece(c) {
                Some(p) => {
                    if p.color == PieceColor::White && self.actions_remaining > 0 {
                        moves = legal_moves_for(p, c, self.board);
                        let attacked = attacks_for(p, c, self.board);
                        threats = enemy_squares(&self.board, &attacked, p.color);
                    }
                },
                None => {},
            },
            None => {},
        }
        self.legal_moves = moves;
        self.threatened = threats;
    }

    /// Selects `coord`, dropping any earlier selection. Any square on the board
    /// can be selected; moves and threats are shown only for a White piece
    /// while moves remain.
    pub fn select(&mut self, coord: GridCoords) -> (r: Result<(), EngineError>)
        requires
            old(self).wf(),
        ensures
            final(self).wf(),
            final(self)@.board == old(self)@.board,
            final(self)@.actions_remaining == old(self)@.actions_remaining,
            coord.spec_in_bounds() ==> r is Ok && final(self)@.selected == Some(coord),
            !coord.spec_in_bounds() ==> r == Err::<(), EngineError>(EngineError::OutOfBounds) && final(self)@
                == old(self)@,
    {
        if !coord.in_bounds() {
            return Err(EngineError::OutOfBounds);
        }
        self.deselect();
        self.selected = Some(coord);
        self.find_legal_moves();
        Ok(())
    }

    /// Clears the selection, and with it the shown moves and threats.
    pub fn deselect(&mut self)
        requires
            old(self).wf(),
        ensures
            final(self).wf(),
            final(self)@.board == old(self)@.board,
            final(self)@.actions_remaining == old(self)@.actions_remaining,
            final(self)@.selected is None,
            final(self)@.legal_moves == Set::<(i32, i32)>::empty(),
            final(self)@.threatened == Set::<(i32, i32)>::empty(),
    {
        self.selected = None;
        self.legal_moves = CoordSet::new();
        self.threatened = CoordSet::new();
    }

    /// Moves the piece on `from` to `to`, which must be one of the moves shown
    /// for it: the piece on `from` is White, a move remains this turn, and `to`
    /// is among its legal moves. A move spends one action and clears the
    /// selection. Otherwise nothing changes and the move is refused.
    pub fn commit_move(&mut self, from: GridCoords, to: GridCoords) -> (r: Result<(), EngineError>)
        requires
            old(self).wf(),
        ensures
            final(self).wf(),
            r is Ok <==> offered_moves(old(self)@.board, Some(from), old(self)@.actions_remaining).contains(
                to.pair(),
            ),
            r is Err ==> r == Err::<(), EngineError>(EngineError::IllegalMove) && final(self)@ == old(self)@,
            r is Ok ==> old(self)@.board.relocated(final(self)@.board, from, to),
            r is Ok ==> final(self)@.board.piece_at_spec(from.x as int, from.y as int) is None,
            r is Ok ==> final(self)@.board.piece_at_spec(to.x as int, to.y as int) == old(self)@.board.piece_at_spec(
                from.x as int,
                from.y as int,
            ),
            r is Ok ==> final(self)@.actions_remaining == old(self)@.actions_remaining - 1,
            r is Ok ==> final(self)@.selected is None,
    {
        if !from.in_bounds() || self.actions_remaining == 0 {
            return Err(EngineError::IllegalMove);
        }
        let piece = match self.board.get_piece(from) {
            Some(p) => p,
            None => {
                return Err(EngineError::IllegalMove);
            },
        };
        if piece.color != PieceColor::White {
            return Err(EngineError::IllegalMove);
        }
        let moves = legal_moves_for(piece, from, self.board);
        if !moves.contains(to) {
            return Err(EngineError::IllegalMove);
        }
        proof {
            lemma_moves_land_on_empty_squares(piece.color, piece.kind, self.board, from, to);
        }
        self.board.move_piece(from, to);
        self.actions_remaining = self.actions_remaining - 1;
        self.deselect_after_move();
        Ok(())
    }

    fn deselect_after_move(&mut self)
        requires
            old(self)@.actions_remaining <= ACTIONS_PER_TURN,
        ensures
            final(self).wf(),
            final(self)@.board == old(self)@.board,
            final(self)@.actions_remaining == old(self)@.actions_remaining,
            final(self)@.selected is None,
    {
        self.selected = None;
        self.legal_moves = CoordSet::new();
        self.threatened = CoordSet::new();
    }

    /// Moves the selected piece to `to`, as `commit_move` does; refused with
    /// `EmptySelection` when no square holding a piece is selected.
    pub fn confirm_move(&mut self, to: GridCoords) -> (r: Result<(), EngineError>)
        requires
            old(self).wf(),
        ensures
            final(self).wf(),
            old(self)@.selected is Some && old(self)@.board.occupied(
                old(self)@.selected->0.x as int,
                old(self)@.selected->0.y as int,
            ) ==> {
                &&& (r is Ok <==> old(self)@.legal_moves.contains(to.pair()))
                &&& (r is Err ==> r == Err::<(), EngineError>(EngineError::IllegalMove))
                &&& (r is Ok ==> old(self)@.board.relocated(final(self)@.board, old(self)@.selected->0, to))
                &&& (r is Ok ==> final(self)@.actions_remaining == old(self)@.actions_remaining - 1)
                &&& (r is Ok ==> final(self)@.selected is None)
            },
            !(old(self)@.selected is Some && old(self)@.board.occupied(
                old(self)@.selected->0.x as int,
                old(self)@.selected->0.y as int,
            )) ==> r == Err::<(), EngineError>(EngineError::EmptySelection),
            r is Err ==> final(self)@ == old(self)@,
    {
        match self.selected {
            Some(from) => {
                if self.board.get_piece(from).is_none() {
                    return Err(EngineError::EmptySelection);
                }
                self.commit_move(from, to)
            },
            None => Err(EngineError::EmptySelection),
        }
    }

    /// Ends the player's turn: White's pieces deal their damage, the automated
    /// side makes its moves, Black's pieces deal their damage, and the player
    /// gets a full turn of moves again. The selection stays; what is shown for
    /// it follows the new board.
    pub fn pass_turn(&mut self)
        requires
            old(self).wf(),
        ensures
            final(self).wf(),
            final(self)@.actions_remaining == ACTIONS_PER_TURN,
            final(self)@.selected == old(self)@.selected,
            exists|after_white: ChessGrid, after_moves: ChessGrid|
                combat_outcome(old(self)@.board, PieceColor::White, after_white) && opponent_reachable(
                    after_white,
                    after_moves,
                    OPPONENT_MOVES as nat,
                ) && combat_outcome(after_moves, PieceColor::Black, final(self)@.board),
    {
        apply_damage_for_color(&mut self.board, PieceColor::White);
        let ghost after_white = self.board;
        opponent_turn(&mut self.board);
        let ghost after_moves = self.board;
        apply_damage_for_color(&mut self.board, PieceColor::Black);
        self.actions_remaining = ACTIONS_PER_TURN;
        self.find_legal_moves();
    }
}

} // verus!
