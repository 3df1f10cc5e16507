//! The game state and the move engine that applies and reverts moves in place.

use crate::board::{Board, BoardPos, Cell, Player, BOARD_HEIGHT, BOARD_WIDTH};
use crate::rules::{GameView, ACTIONS_PER_TURN};
use core::ops::Neg;
use vstd::prelude::*;

verus! {

/// A game: the board, the player to move and that player's remaining
/// actions in the current turn.
pub struct Game {
    board: Board,
    player: Player,
    turns_left: usize,
}

impl View for Game {
    type V = GameView;

    closed spec fn view(&self) -> GameView {
        GameView { board: self.board@, player: self.player, turns_left: self.turns_left as int }
    }
}

impl Default for Game {
    /// Blue's unit in the top-left corner, Red's in the bottom-right, Blue
    /// to move with a full turn ahead.
    fn default() -> (g: Game)
        ensures
            g@.wf(),
            g@.player == Player::Blue,
            g@.turns_left == ACTIONS_PER_TURN,
            forall|p: BoardPos|
                p.in_bounds() ==> #[trigger] g@.cell(p) == if p == BoardPos(0, 0) {
                    Cell::Unit(Player::Blue)
                } else if p == BoardPos((BOARD_HEIGHT - 1) as usize, (BOARD_WIDTH - 1) as usize) {
                    Cell::Unit(Player::Red)
                } else {
                    Cell::Empty
                },
    {
        let mut board = Board::empty();
        board.set(BoardPos(0, 0), Cell::Unit(Player::Blue));
        board.set(BoardPos(BOARD_HEIGHT - 1, BOARD_WIDTH - 1), Cell::Unit(Player::Red));
        Game { board, player: Player::Blue, turns_left: ACTIONS_PER_TURN }
    }
}

impl Game {
    /// A game in the given position; `None` unless `turns_left` is in `1..=3`.
    pub fn with_board(board: Board, player: Player, turns_left: usize) -> (r: Option<Game>)
        ensures
            r is Some <==> 1 <= turns_left <= ACTIONS_PER_TURN,
            r matches Some(g) ==> g@ == (GameView { board: board@, player, turns_left: turns_left as int }),
            r matches Some(g) ==> g@.wf(),
    {
        if 1 <= turns_left && turns_left <= ACTIONS_PER_TURN {
            Some(Game { board, player, turns_left })
        } else {
            None
        }
    }

    /// The player to move.
    pub fn player(&self) -> (p: Player)
        ensures
            p == self@.player,
    {
        self.player
    }

    /// The actions the player to move has left in this turn.
    pub fn turns_left(&self) -> (n: usize)
        ensures
            n == self@.turns_left,
    {
        self.turns_left
    }

    /// The cell at a position.
    pub fn cell(&self, p: BoardPos) -> (c: Cell)
        requires
            p.in_bounds(),
        ensures
            c == self@.cell(p),
    {
        self.board.index(p)
    }

    /// A copy of the board.
    pub fn board(&self) -> (b: Board)
        ensures
            b@ == self@.board,
    {
        self.board
    }

    /// Whether the next move is the mover's last action of this turn, after
    /// which the other player moves.
    pub fn ends_turn(&self) -> (r: bool)
        ensures
            r == self@.ends_turn(),
    {
        self.turns_left == 1
    }

    /// Hands the move to the other player, leaving everything else as it is.
    pub fn pass(&mut self)
        ensures
            final(self)@ == old(self)@.passed(),
    {
        self.player = self.player.neg();
    }

    /// Plays `mv` for the player to move: an empty square becomes its unit,
    /// an enemy unit becomes its wall; then one action of the turn is used
    /// up, and the last one hands the move to the other player.
    pub fn do_move(&mut self, mv: BoardPos)
        requires
            old(self)@.wf(),
            mv.in_bounds(),
            !(old(self)@.cell(mv) is Wall),
        ensures
            final(self)@ == old(self)@.apply(mv),
            final(self)@.wf(),
    {
        let placed = match self.board.index(mv) {
            Cell::Empty => Cell::Unit(self.player),
            _ => Cell::Wall(self.player),
        };
        self.board.set(mv, placed);
        if self.turns_left == 1 {
            self.turns_left = ACTIONS_PER_TURN;
            self.player = self.player.neg();
        } else {
            self.turns_left = self.turns_left - 1;
        }
    }

    /// Reverts the move that targeted `mv`, in the opposite order: the turn
    /// count first, then the square.
    pub fn undo_move(&mut self, mv: BoardPos)
        requires
            old(self)@.wf(),
            mv.in_bounds(),
            !(old(self)@.cell(mv) is Empty),
        ensures
            final(self)@ == old(self)@.undo(mv),
            final(self)@.wf(),
    {
        if self.turns_left == ACTIONS_PER_TURN {
            self.turns_left = 1;
            self.player = self.player.neg();
        } else {
            self.turns_left = self.turns_left + 1;
        }
        let restored = match self.board.index(mv) {
            Cell::Wall(_) => Cell::Unit(self.player.neg()),
            _ => Cell::Empty,
        };
        self.board.set(mv, restored);
    }
}

} // verus!
