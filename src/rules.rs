//! The rules of the game over an abstract state: whose turn it is, which
//! squares a player may take, and what a move does.

use crate::board::{adjacent, cell_at, grid_shaped, other, with_cell, BoardPos, Cell, Player, BOARD_HEIGHT, BOARD_WIDTH};
use vstd::prelude::*;

verus! {

/// The mathematical state of a game: the grid of cells, the player to move
/// and how many actions that player has left in this turn.
pub struct GameView {
    pub board: Seq<Seq<Cell>>,
    pub player: Player,
    pub turns_left: int,
}

/// Actions a player takes in one turn.
pub const ACTIONS_PER_TURN: usize = 3;

impl GameView {
    /// The grid has the board's shape and the action count is in `1..=3`.
    pub open spec fn wf(self) -> bool {
        &&& grid_shaped(self.board)
        &&& 1 <= self.turns_left <= ACTIONS_PER_TURN
    }

    pub open spec fn cell(self, p: BoardPos) -> Cell {
        cell_at(self.board, p)
    }

    /// The same position with the other player to move.
    pub open spec fn passed(self) -> GameView {
        GameView { player: other(self.player), ..self }
    }

    /// `path` starts on one of the mover's units and then steps from square
    /// to touching square through the mover's own walls.
    pub open spec fn is_chain(self, path: Seq<BoardPos>) -> bool {
        &&& path.len() > 0
        &&& path[0].in_bounds()
        &&& self.cell(path[0]) == Cell::Unit(self.player)
        &&& forall|i: int|
            0 < i < path.len() ==> (#[trigger] path[i]).in_bounds() && self.cell(path[i]) == Cell::Wall(
                self.player,
            ) && adjacent(path[i - 1], path[i])
    }

    /// The squares from which the mover's reach extends: its units, and its
    /// walls joined to one of them through its own walls.
    pub open spec fn in_territory(self, p: BoardPos) -> bool {
        exists|path: Seq<BoardPos>| #[trigger] self.is_chain(path) && path.last() == p
    }

    /// A square that a move may target: empty, or holding an enemy unit.
    pub open spec fn takeable(self, p: BoardPos) -> bool {
        self.cell(p) == Cell::Empty || self.cell(p) == Cell::Unit(other(self.player))
    }

    /// A legal move: a takeable square next to the mover's territory.
    pub open spec fn is_legal(self, p: BoardPos) -> bool {
        &&& p.in_bounds()
        &&& self.takeable(p)
        &&& exists|q: BoardPos| adjacent(p, q) && #[trigger] self.in_territory(q)
    }

    /// All legal moves.
    pub open spec fn legal_set(self) -> Set<BoardPos> {
        Set::new(|p: BoardPos| self.is_legal(p))
    }

    /// How many legal moves the mover has.
    pub open spec fn mobility(self) -> nat {
        self.legal_set().len()
    }

    /// What a move leaves in its square: a claim makes a unit, a capture a wall.
    pub open spec fn placed(self, p: BoardPos) -> Cell {
        if self.cell(p) == Cell::Empty {
            Cell::Unit(self.player)
        } else {
            Cell::Wall(self.player)
        }
    }

    /// Whether a move by this state's mover is the last action of its turn.
    pub open spec fn ends_turn(self) -> bool {
        self.turns_left == 1
    }

    /// The state after the mover plays `p`.
    pub open spec fn apply(self, p: BoardPos) -> GameView {
        GameView {
            board: with_cell(self.board, p, self.placed(p)),
            player: if self.ends_turn() { other(self.player) } else { self.player },
            turns_left: if self.ends_turn() { ACTIONS_PER_TURN as int } else { self.turns_left - 1 },
        }
    }

    /// The state before the last move, which targeted `p`: the turn count
    /// steps back first, then a unit reverts to empty and a wall to a unit of
    /// the player who did not make the move.
    pub open spec fn undo(self, p: BoardPos) -> GameView {
        let back = self.turns_left == ACTIONS_PER_TURN;
        let player = if back { other(self.player) } else { self.player };
        GameView {
            board: with_cell(
                self.board,
                p,
                match self.cell(p) {
                    Cell::Wall(_) => Cell::Unit(other(player)),
                    _ => Cell::Empty,
                },
            ),
            player,
            turns_left: if back { 1 } else { self.turns_left + 1 },
        }
    }
}

/// Undoing a legal move with the same position restores the state exactly:
/// the board, the player to move and the actions left.
pub proof fn lemma_undo_reverts_apply(g: GameView, p: BoardPos)
    requires
        g.wf(),
        g.is_legal(p),
    ensures
        g.apply(p).undo(p) == g,
{
    let h = g.apply(p).undo(p);
    assert(h.board =~~= g.board);
}

/// Three moves from the start of a turn use up the turn: the action count
/// is full again and the other player is to move.
pub proof fn lemma_turn_cycle(g: GameView, a: BoardPos, b: BoardPos, c: BoardPos)
    requires
        g.wf(),
        g.turns_left == ACTIONS_PER_TURN,
    ensures
        g.apply(a).apply(b).apply(c).turns_left == ACTIONS_PER_TURN,
        g.apply(a).apply(b).apply(c).player == other(g.player),
{
}

/// Cells equal to `x` among the first `n` of a row.
pub open spec fn row_count(row: Seq<Cell>, x: Cell, n: nat) -> nat
    decreases n,
{
    if n == 0 {
        0
    } else {
        row_count(row, x, (n - 1) as nat) + if row[n - 1] == x { 1nat } else { 0nat }
    }
}

/// Cells equal to `x` among the first `n` rows.
pub open spec fn grid_count(g: Seq<Seq<Cell>>, x: Cell, n: nat) -> nat
    decreases n,
{
    if n == 0 {
        0
    } else {
        grid_count(g, x, (n - 1) as nat) + row_count(g[n - 1], x, BOARD_WIDTH as nat)
    }
}

/// How many squares of the board hold `x`.
pub open spec fn count(v: GameView, x: Cell) -> nat {
    grid_count(v.board, x, BOARD_HEIGHT as nat)
}

/// One for true, zero for false.
pub open spec fn indicator(b: bool) -> int {
    if b { 1 } else { 0 }
}

proof fn lemma_row_count_update(row: Seq<Cell>, c: int, y: Cell, x: Cell, n: nat)
    requires
        0 <= c < row.len(),
        n <= row.len(),
    ensures
        row_count(row.update(c, y), x, n) == row_count(row, x, n) + if c < n {
            indicator(y == x) - indicator(row[c] == x)
        } else {
            0
        },
    decreases n,
{
    if n > 0 {
        lemma_row_count_update(row, c, y, x, (n - 1) as nat);
    }
}

proof fn lemma_grid_count_update(g: Seq<Seq<Cell>>, p: BoardPos, y: Cell, x: Cell, n: nat)
    requires
        grid_shaped(g),
        p.in_bounds(),
        n <= BOARD_HEIGHT,
    ensures
        grid_count(with_cell(g, p, y), x, n) == grid_count(g, x, n) + if p.0 < n {
            indicator(y == x) - indicator(cell_at(g, p) == x)
        } else {
            0
        },
    decreases n,
{
    if n > 0 {
        lemma_grid_count_update(g, p, y, x, (n - 1) as nat);
        if n - 1 == p.0 {
            lemma_row_count_update(g[p.0 as int], p.1 as int, y, x, BOARD_WIDTH as nat);
        }
    }
}

/// How a move changes the count of a kind of cell: by one up for what it
/// places and by one down for what was there.
proof fn lemma_apply_count(g: GameView, p: BoardPos, x: Cell)
    requires
        g.wf(),
        p.in_bounds(),
    ensures
        count(g.apply(p), x) == count(g, x) + indicator(g.placed(p) == x) - indicator(g.cell(p) == x),
{
    lemma_grid_count_update(g.board, p, g.placed(p), x, BOARD_HEIGHT as nat);
}

/// A claim adds one unit of the mover and changes no other count; a capture
/// removes one enemy unit and adds one wall of the mover and changes no other
/// count. Either way no square becomes empty.
pub proof fn lemma_move_counts(g: GameView, p: BoardPos)
    requires
        g.wf(),
        g.is_legal(p),
    ensures
        g.cell(p) == Cell::Empty ==> {
            &&& count(g.apply(p), Cell::Unit(g.player)) == count(g, Cell::Unit(g.player)) + 1
            &&& count(g.apply(p), Cell::Unit(other(g.player))) == count(g, Cell::Unit(other(g.player)))
            &&& count(g.apply(p), Cell::Wall(g.player)) == count(g, Cell::Wall(g.player))
            &&& count(g.apply(p), Cell::Wall(other(g.player))) == count(g, Cell::Wall(other(g.player)))
        },
        g.cell(p) == Cell::Unit(other(g.player)) ==> {
            &&& count(g.apply(p), Cell::Unit(g.player)) == count(g, Cell::Unit(g.player))
            &&& count(g.apply(p), Cell::Unit(other(g.player))) + 1 == count(g, Cell::Unit(other(g.player)))
            &&& count(g.apply(p), Cell::Wall(g.player)) == count(g, Cell::Wall(g.player)) + 1
            &&& count(g.apply(p), Cell::Wall(other(g.player))) == count(g, Cell::Wall(other(g.player)))
        },
        count(g.apply(p), Cell::Empty) <= count(g, Cell::Empty),
{
    lemma_apply_count(g, p, Cell::Unit(g.player));
    lemma_apply_count(g, p, Cell::Unit(other(g.player)));
    lemma_apply_count(g, p, Cell::Wall(g.player));
    lemma_apply_count(g, p, Cell::Wall(other(g.player)));
    lemma_apply_count(g, p, Cell::Empty);
}

} // verus!
