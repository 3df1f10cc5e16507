//! Fixed-depth search: every legal move is tried in place, searched one
//! level less deep, and taken back; the best one for the mover wins.

use crate::board::{adjacent, BoardPos, Cell, BOARD_HEIGHT, BOARD_WIDTH};
use crate::game::Game;
use crate::rules::{lemma_undo_reverts_apply, GameView};
use vstd::prelude::*;

verus! {

/// The mobility advantage of the mover: its legal moves minus those the
/// other player would have on the same board.
pub open spec fn leaf_value(v: GameView) -> int {
    v.mobility() - v.passed().mobility()
}

/// What playing `p` is worth to the mover with `level` levels of search:
/// the value of the next state, negated when the move hands the turn over.
pub open spec fn score(v: GameView, p: BoardPos, level: nat) -> int
    decreases level, 0nat, 0nat, 0nat,
{
    if level == 0 {
        0
    } else {
        let child = value(v.apply(p), (level - 1) as nat);
        if v.ends_turn() {
            -child
        } else {
            child
        }
    }
}

/// The best score among the legal moves from square `(r, c)` on, in
/// row-major order; `None` where there is none.
pub open spec fn best_from(v: GameView, level: nat, r: nat, c: nat) -> Option<int>
    decreases level, 1nat, (BOARD_HEIGHT - r) as nat, (BOARD_WIDTH - c) as nat,
{
    if r >= BOARD_HEIGHT {
        None
    } else if c >= BOARD_WIDTH {
        best_from(v, level, r + 1, 0)
    } else {
        let p = BoardPos(r as usize, c as usize);
        let rest = best_from(v, level, r, c + 1);
        if v.is_legal(p) {
            let s = score(v, p, level);
            match rest {
                Some(t) => Some(if s >= t { s } else { t }),
                None => Some(s),
            }
        } else {
            rest
        }
    }
}

/// The value of a state to its mover, searched `level` levels deep: the
/// mobility advantage at depth 0 or where the mover has no legal move, else
/// the best score among the legal moves.
pub open spec fn value(v: GameView, level: nat) -> int
    decreases level, 2nat, 0nat, 0nat,
{
    if level == 0 {
        leaf_value(v)
    } else {
        match best_from(v, level, 0, 0) {
            Some(m) => m,
            None => leaf_value(v),
        }
    }
}

/// `m` is the largest score among the legal moves.
pub open spec fn is_best(v: GameView, level: nat, m: int) -> bool {
    &&& exists|p: BoardPos| v.is_legal(p) && #[trigger] score(v, p, level) == m
    &&& forall|p: BoardPos| v.is_legal(p) ==> #[trigger] score(v, p, level) <= m
}

/// Position `p` comes at or after `(r, c)` in row-major order.
spec fn from(p: BoardPos, r: nat, c: nat) -> bool {
    p.0 > r || (p.0 == r && p.1 >= c)
}

#[verifier::rlimit(30)]
proof fn lemma_best_from(v: GameView, level: nat, r: nat, c: nat)
    requires
        r <= BOARD_HEIGHT,
        c <= BOARD_WIDTH,
    ensures
        best_from(v, level, r, c) is None <==> forall|p: BoardPos| #[trigger] v.is_legal(p) ==> !from(p, r, c),
        best_from(v, level, r, c) matches Some(m) ==> (exists|p: BoardPos|
            v.is_legal(p) && from(p, r, c) && #[trigger] score(v, p, level) == m),
        best_from(v, level, r, c) matches Some(m) ==> (forall|p: BoardPos|
            v.is_legal(p) && from(p, r, c) ==> #[trigger] score(v, p, level) <= m),
    decreases (BOARD_HEIGHT - r) as nat, (BOARD_WIDTH - c) as nat,
{
    if r >= BOARD_HEIGHT {
    } else if c >= BOARD_WIDTH {
        lemma_best_from(v, level, r + 1, 0);
        assert forall|p: BoardPos| v.is_legal(p) && from(p, r, c) implies from(p, r + 1, 0) by {}
        if let Some(m) = best_from(v, level, r + 1, 0) {
            let w = choose|p: BoardPos| v.is_legal(p) && from(p, r + 1, 0) && #[trigger] score(v, p, level) == m;
            assert(from(w, r, c));
        }
    } else {
        lemma_best_from(v, level, r, c + 1);
        let q = BoardPos(r as usize, c as usize);
        assert forall|p: BoardPos| from(p, r, c) && p != q implies from(p, r, c + 1) by {}
        let rest = best_from(v, level, r, c + 1);
        if v.is_legal(q) {
            assert(from(q, r, c));
            let s = score(v, q, level);
            if let Some(t) = rest {
                if s < t {
                    let w = choose|p: BoardPos| v.is_legal(p) && from(p, r, c + 1) && #[trigger] score(v, p, level) == t;
                    assert(from(w, r, c));
                }
            }
        } else if let Some(t) = rest {
            let w = choose|p: BoardPos| v.is_legal(p) && from(p, r, c + 1) && #[trigger] score(v, p, level) == t;
            assert(from(w, r, c));
        }
    }
}

/// The value at a positive depth, where the mover has a legal move, is the
/// best score among its legal moves.
proof fn lemma_best_is_value(v: GameView, level: nat, m: int)
    requires
        level > 0,
        is_best(v, level, m),
    ensures
        value(v, level) == m,
{
    lemma_best_from(v, level, 0, 0);
    let p = choose|p: BoardPos| v.is_legal(p) && #[trigger] score(v, p, level) == m;
    assert(from(p, 0, 0));
    let w = best_from(v, level, 0, 0)->Some_0;
    let q = choose|q: BoardPos| v.is_legal(q) && from(q, 0, 0) && #[trigger] score(v, q, level) == w;
    assert(score(v, p, level) <= w);
    assert(score(v, q, level) <= m);
}

/// Without a legal move the value is the mobility advantage at every depth.
proof fn lemma_no_move_value(v: GameView, level: nat)
    requires
        forall|p: BoardPos| !v.is_legal(p),
    ensures
        value(v, level) == leaf_value(v),
{
    lemma_best_from(v, level, 0, 0);
}

impl Game {
    /// Searches `level` levels deep for the best move of the player to move.
    /// Returns no position (the sentinel) at depth 0 or without a legal
    /// move, else a legal move of the best score; the number is the value.
    /// The game is left as it was.
    pub fn recurse(&mut self, level: usize) -> (r: (BoardPos, isize))
        requires
            old(self)@.wf(),
        ensures
            final(self)@ == old(self)@,
            r.1 == value(old(self)@, level as nat),
            level == 0 || old(self)@.mobility() == 0 ==> r.0 == BoardPos::spec_none(),
            level > 0 && old(self)@.mobility() > 0 ==> old(self)@.is_legal(r.0) && score(
                old(self)@,
                r.0,
                level as nat,
            ) == r.1,
            -(BOARD_HEIGHT * BOARD_WIDTH) <= r.1 <= BOARD_HEIGHT * BOARD_WIDTH,
        decreases level,
    {
        let ghost v = self@;
        let moves = self.legal_moves();
        if level == 0 || moves.len() == 0 {
            proof {
                if level > 0 {
                    assert forall|p: BoardPos| !v.is_legal(p) by {
                        if v.is_legal(p) {
                            assert(moves@.contains(p));
                        }
                    }
                    lemma_no_move_value(v, level as nat);
                }
            }
            self.pass();
            let theirs = self.legal_moves();
            self.pass();
            assert(self@ == v);
            return (BoardPos::none(), moves.len() as isize - theirs.len() as isize);
        }
        let mut best_pos = moves[0];
        let mut best_eval: isize = 0;
        let mut k: usize = 0;
        while k < moves.len()
            invariant
                self@ == v,
                v.wf(),
                level > 0,
                k <= moves@.len(),
                forall|p: BoardPos| #[trigger] moves@.contains(p) <==> v.is_legal(p),
                k > 0 ==> v.is_legal(best_pos) && score(v, best_pos, level as nat) == best_eval,
                forall|t: int| 0 <= t < k ==> #[trigger] score(v, moves@[t], level as nat) <= best_eval,
                -(BOARD_HEIGHT * BOARD_WIDTH) <= best_eval <= BOARD_HEIGHT * BOARD_WIDTH,
            decreases moves@.len() - k,
        {
            let mv = moves[k];
            assert(moves@.contains(mv));
            let hands_over = self.ends_turn();
            self.do_move(mv);
            let (_, child) = self.recurse(level - 1);
            self.undo_move(mv);
            proof {
                lemma_undo_reverts_apply(v, mv);
            }
            let eval = if hands_over { -child } else { child };
            if k == 0 || eval >= best_eval {
                best_pos = mv;
                best_eval = eval;
            }
            k = k + 1;
        }
        proof {
            assert forall|p: BoardPos| v.is_legal(p) implies #[trigger] score(v, p, level as nat) <= best_eval by {
                assert(moves@.contains(p));
                let t = choose|t: int| 0 <= t < moves@.len() && moves@[t] == p;
                assert(score(v, moves@[t], level as nat) <= best_eval);
            }
            lemma_best_is_value(v, level as nat, best_eval as int);
        }
        (best_pos, best_eval)
    }
}

/// A mover without units has no legal move, and its value at every depth is
/// minus the other player's mobility.
pub proof fn lemma_no_units_no_moves(v: GameView, level: nat)
    requires
        forall|p: BoardPos| p.in_bounds() ==> v.cell(p) != Cell::Unit(v.player),
    ensures
        v.legal_set() == Set::<BoardPos>::empty(),
        v.mobility() == 0,
        value(v, level) == -(v.passed().mobility() as int),
{
    assert forall|p: BoardPos| !v.is_legal(p) by {
        if v.is_legal(p) {
            let q = choose|q: BoardPos| adjacent(p, q) && #[trigger] v.in_territory(q);
            let path = choose|path: Seq<BoardPos>| #[trigger] v.is_chain(path) && path.last() == q;
            assert(path[0].in_bounds());
        }
    }
    assert(v.legal_set() =~= Set::<BoardPos>::empty());
    lemma_no_move_value(v, level);
}

} // verus!
