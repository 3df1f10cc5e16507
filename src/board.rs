//! Players, cells, board positions and the board itself.

use core::ops::Neg;
use vstd::prelude::*;

verus! {

/// The two sides of the game.
#[derive(Clone, Copy, Debug, PartialEq, Eq, Structural)]
pub enum Player {
    Blue,
    Red,
}

/// The other player.
pub open spec fn other(p: Player) -> Player {
    match p {
        Player::Blue => Player::Red,
        Player::Red => Player::Blue,
    }
}

impl core::ops::Neg for Player {
    type Output = Player;

    fn neg(self) -> (r: Player)
        ensures
            r == other(self),
    {
        match self {
            Player::Blue => Player::Red,
            Player::Red => Player::Blue,
        }
    }
}

impl vstd::std_specs::ops::NegSpecImpl for Player {
    open spec fn obeys_neg_spec() -> bool {
        true
    }

    open spec fn neg_req(self) -> bool {
        true
    }

    open spec fn neg_spec(self) -> Player {
        other(self)
    }
}

/// What one square of the board holds.
#[derive(Clone, Copy, Debug, PartialEq, Eq, Structural)]
pub enum Cell {
    Empty,
    /// A live piece of its owner.
    Unit(Player),
    /// An inert marker of its owner, left by a capture.
    Wall(Player),
}

/// Number of rows of the board.
pub const BOARD_HEIGHT: usize = 10;

/// Number of columns of the board.
pub const BOARD_WIDTH: usize = 10;

/// A (row, column) position; also the description of a move.
#[derive(Clone, Copy, Debug, PartialEq, Eq, Structural)]
pub struct BoardPos(pub usize, pub usize);

impl BoardPos {
    /// Whether the position names a square of the board.
    pub open spec fn in_bounds(self) -> bool {
        self.0 < BOARD_HEIGHT && self.1 < BOARD_WIDTH
    }

    /// The position that stands for "no move".
    pub open spec fn spec_none() -> BoardPos {
        BoardPos(usize::MAX, usize::MAX)
    }

    /// The position that stands for "no move".
    pub fn none() -> (r: BoardPos)
        ensures
            r == BoardPos::spec_none(),
            !r.in_bounds(),
    {
        BoardPos(usize::MAX, usize::MAX)
    }
}

/// Whether two distinct positions touch, orthogonally or diagonally.
pub open spec fn adjacent(p: BoardPos, q: BoardPos) -> bool {
    &&& p != q
    &&& -1 <= p.0 - q.0 <= 1
    &&& -1 <= p.1 - q.1 <= 1
}

/// The square grid of cells.
#[derive(Clone, Copy)]
pub struct Board {
    pub cells: [[Cell; BOARD_WIDTH]; BOARD_HEIGHT],
}

impl View for Board {
    type V = Seq<Seq<Cell>>;

    open spec fn view(&self) -> Seq<Seq<Cell>> {
        Seq::new(BOARD_HEIGHT as nat, |r: int| self.cells@[r]@)
    }
}

/// Whether a grid of cells has the board's shape.
pub open spec fn grid_shaped(g: Seq<Seq<Cell>>) -> bool {
    &&& g.len() == BOARD_HEIGHT
    &&& forall|r: int| 0 <= r < BOARD_HEIGHT ==> (#[trigger] g[r]).len() == BOARD_WIDTH
}

/// The cell at a position of a grid.
pub open spec fn cell_at(g: Seq<Seq<Cell>>, p: BoardPos) -> Cell {
    g[p.0 as int][p.1 as int]
}

/// A grid with one cell replaced.
pub open spec fn with_cell(g: Seq<Seq<Cell>>, p: BoardPos, c: Cell) -> Seq<Seq<Cell>> {
    g.update(p.0 as int, g[p.0 as int].update(p.1 as int, c))
}

impl Board {
    /// A board with every cell empty.
    pub fn empty() -> (b: Board)
        ensures
            grid_shaped(b@),
            forall|p: BoardPos| p.in_bounds() ==> cell_at(b@, p) == Cell::Empty,
    {
        let b = Board { cells: [[Cell::Empty; BOARD_WIDTH]; BOARD_HEIGHT] };
        assert(grid_shaped(b@));
        b
    }

    /// The cell at a position.
    pub fn index(&self, p: BoardPos) -> (c: Cell)
        requires
            p.in_bounds(),
        ensures
            c == cell_at(self@, p),
    {
        self.cells[p.0][p.1]
    }

    /// Replaces the cell at a position.
    pub fn set(&mut self, p: BoardPos, c: Cell)
        requires
            p.in_bounds(),
        ensures
            final(self)@ == with_cell(old(self)@, p, c),
    {
        let mut row = self.cells[p.0];
        row[p.1] = c;
        self.cells[p.0] = row;
        assert(self@ =~~= with_cell(old(self)@, p, c));
    }
}

} // verus!
