//! The legal-move generator: a flood fill from the mover's units through
//! its own walls, collecting the takeable squares it touches.

use crate::board::{adjacent, BoardPos, Cell, BOARD_HEIGHT, BOARD_WIDTH};
use crate::game::Game;
use crate::rules::GameView;
use vstd::prelude::*;

verus! {

/// Which squares one run of the generator has already looked at.
type Mask = [[bool; BOARD_WIDTH]; BOARD_HEIGHT];

spec fn marks(m: Mask) -> Seq<Seq<bool>> {
    Seq::new(BOARD_HEIGHT as nat, |r: int| m@[r]@)
}

spec fn marked(m: Mask, p: BoardPos) -> bool {
    marks(m)[p.0 as int][p.1 as int]
}

/// Every square around `p` has been looked at.
spec fn expanded(m: Mask, p: BoardPos) -> bool {
    forall|q: BoardPos| q.in_bounds() && adjacent(p, q) ==> #[trigger] marked(m, q)
}

/// Squares from which the fill spreads: the mover's units and walls.
spec fn is_source(v: GameView, p: BoardPos) -> bool {
    v.cell(p) == Cell::Unit(v.player) || v.cell(p) == Cell::Wall(v.player)
}

/// Unmarked squares among the first `n` of a row.
spec fn row_unmarked(row: Seq<bool>, n: nat) -> nat
    decreases n,
{
    if n == 0 {
        0
    } else {
        row_unmarked(row, (n - 1) as nat) + if row[n - 1] { 0nat } else { 1nat }
    }
}

/// Unmarked squares among the first `n` rows.
spec fn grid_unmarked(g: Seq<Seq<bool>>, n: nat) -> nat
    decreases n,
{
    if n == 0 {
        0
    } else {
        grid_unmarked(g, (n - 1) as nat) + row_unmarked(g[n - 1], BOARD_WIDTH as nat)
    }
}

spec fn unmarked(m: Mask) -> nat {
    grid_unmarked(marks(m), BOARD_HEIGHT as nat)
}

proof fn lemma_row_mark(row: Seq<bool>, c: int, n: nat)
    requires
        0 <= c < row.len(),
        !row[c],
        n <= row.len(),
    ensures
        row_unmarked(row.update(c, true), n) + (if c < n { 1nat } else { 0nat }) == row_unmarked(row, n),
    decreases n,
{
    if n > 0 {
        lemma_row_mark(row, c, (n - 1) as nat);
    }
}

proof fn lemma_grid_mark(g: Seq<Seq<bool>>, r: int, c: int, n: nat)
    requires
        0 <= r < g.len(),
        0 <= c < g[r].len() == BOARD_WIDTH,
        !g[r][c],
        n <= g.len(),
    ensures
        grid_unmarked(g.update(r, g[r].update(c, true)), n) + (if r < n { 1nat } else { 0nat })
            == grid_unmarked(g, n),
    decreases n,
{
    if n > 0 {
        lemma_grid_mark(g, r, c, (n - 1) as nat);
        if n - 1 == r {
            lemma_row_mark(g[r], c, BOARD_WIDTH as nat);
        }
    }
}

proof fn lemma_row_bound(row: Seq<bool>, n: nat)
    ensures
        row_unmarked(row, n) <= n,
    decreases n,
{
    if n > 0 {
        lemma_row_bound(row, (n - 1) as nat);
    }
}

proof fn lemma_grid_bound(g: Seq<Seq<bool>>, n: nat)
    ensures
        grid_unmarked(g, n) <= BOARD_WIDTH * n,
    decreases n,
{
    if n > 0 {
        lemma_grid_bound(g, (n - 1) as nat);
        lemma_row_bound(g[n - 1], BOARD_WIDTH as nat);
    }
}

/// Marks `p` as looked at.
fn mark(m: &mut Mask, p: BoardPos)
    requires
        p.in_bounds(),
    ensures
        marks(*final(m)) == marks(*old(m)).update(
            p.0 as int,
            marks(*old(m))[p.0 as int].update(p.1 as int, true),
        ),
{
    let mut row = m[p.0];
    row[p.1] = true;
    m[p.0] = row;
    assert(marks(*m) =~~= marks(*old(m)).update(
        p.0 as int,
        marks(*old(m))[p.0 as int].update(p.1 as int, true),
    ));
}

/// What holds between steps of the fill. `cur` is the square being
/// expanded, if any: it alone may be neither waiting nor expanded.
spec fn flood_inv(
    v: GameView,
    m: Mask,
    stack: Seq<BoardPos>,
    moves: Seq<BoardPos>,
    cur: BoardPos,
) -> bool {
    &&& forall|p: BoardPos| p.in_bounds() && v.cell(p) == Cell::Unit(v.player) ==> #[trigger] marked(m, p)
    &&& forall|p: BoardPos|
        p.in_bounds() && #[trigger] marked(m, p) && v.cell(p) == Cell::Wall(v.player) ==> v.in_territory(p)
    &&& forall|k: int|
        0 <= k < stack.len() ==> (#[trigger] stack[k]).in_bounds() && marked(m, stack[k]) && is_source(v, stack[k])
    &&& forall|p: BoardPos|
        p.in_bounds() && #[trigger] marked(m, p) && is_source(v, p) && p != cur ==> stack.contains(p) || expanded(m, p)
    &&& moves.no_duplicates()
    &&& forall|k: int| 0 <= k < moves.len() ==> marked(m, #[trigger] moves[k]) && v.is_legal(moves[k])
    &&& forall|p: BoardPos| p.in_bounds() && #[trigger] marked(m, p) && v.takeable(p) ==> moves.contains(p)
    &&& moves.len() + unmarked(m) <= BOARD_HEIGHT * BOARD_WIDTH
}

/// A marked square that holds the mover's unit or wall is in its territory.
proof fn lemma_source_in_territory(v: GameView, m: Mask, stack: Seq<BoardPos>, moves: Seq<BoardPos>, cur: BoardPos, p: BoardPos)
    requires
        flood_inv(v, m, stack, moves, cur),
        p.in_bounds(),
        marked(m, p),
        is_source(v, p),
    ensures
        v.in_territory(p),
{
    if v.cell(p) == Cell::Unit(v.player) {
        assert(v.is_chain(seq![p]));
    }
}

impl Game {
    /// Looks at `q`, a neighbour of `cur` or a position off the board: an
    /// unmarked takeable square becomes a move, an unmarked wall of the
    /// mover joins the squares still to expand.
    fn visit(
        &self,
        m: &mut Mask,
        stack: &mut Vec<BoardPos>,
        moves: &mut Vec<BoardPos>,
        cur: BoardPos,
        q: BoardPos,
    )
        requires
            flood_inv(self@, *old(m), old(stack)@, old(moves)@, cur),
            cur.in_bounds(),
            self@.in_territory(cur),
            q.in_bounds() ==> adjacent(cur, q),
        ensures
            flood_inv(self@, *final(m), final(stack)@, final(moves)@, cur),
            forall|p: BoardPos| p.in_bounds() && marked(*old(m), p) ==> #[trigger] marked(*final(m), p),
            q.in_bounds() ==> marked(*final(m), q),
            forall|p: BoardPos| old(stack)@.contains(p) ==> #[trigger] final(stack)@.contains(p),
            unmarked(*final(m)) + final(stack)@.len() <= unmarked(*old(m)) + old(stack)@.len(),
    {
        if q.0 >= BOARD_HEIGHT || q.1 >= BOARD_WIDTH {
            return;
        }
        if m[q.0][q.1] {
            return;
        }
        let ghost v = self@;
        let ghost m0 = *m;
        let ghost s0 = stack@;
        let ghost mv0 = moves@;
        proof {
            lemma_grid_mark(marks(m0), q.0 as int, q.1 as int, BOARD_HEIGHT as nat);
        }
        mark(m, q);
        assert(adjacent(q, cur));
        match self.cell(q) {
            Cell::Empty => {
                moves.push(q);
            },
            Cell::Unit(p) => {
                if p != self.player() {
                    moves.push(q);
                }
            },
            Cell::Wall(p) => {
                if p == self.player() {
                    proof {
                        let path = choose|path: Seq<BoardPos>| v.is_chain(path) && path.last() == cur;
                        let longer = path.push(q);
                        assert(longer[longer.len() - 2] == cur);
                        assert(v.is_chain(longer));
                        assert(v.in_territory(q));
                    }
                    stack.push(q);
                }
            },
        }
        proof {
            assert forall|p: BoardPos| p.in_bounds() && marked(m0, p) implies #[trigger] marked(*m, p) by {}
            assert forall|p: BoardPos| p.in_bounds() && #[trigger] marked(*m, p) && v.cell(p) == Cell::Wall(v.player)
                implies v.in_territory(p) by {
                if p != q {
                    assert(marked(m0, p));
                }
            }
            assert forall|p: BoardPos| s0.contains(p) implies #[trigger] stack@.contains(p) by {
                let k = choose|k: int| 0 <= k < s0.len() && s0[k] == p;
                assert(stack@[k] == p);
            }
            assert forall|p: BoardPos| p.in_bounds() && #[trigger] marked(*m, p) && v.takeable(p) implies moves@.contains(p) by {
                if p != q {
                    assert(marked(m0, p));
                    assert(mv0.contains(p));
                    let k = choose|k: int| 0 <= k < mv0.len() && mv0[k] == p;
                    assert(moves@[k] == p);
                } else {
                    assert(moves@[moves@.len() - 1] == p);
                }
            }
            assert forall|p: BoardPos| p.in_bounds() && #[trigger] marked(*m, p) && is_source(v, p) && p != cur
                implies stack@.contains(p) || expanded(*m, p) by {
                if p == q {
                    assert(!marked(m0, q));
                    assert(v.cell(q) == Cell::Wall(v.player));
                    assert(stack@[stack@.len() - 1] == p);
                } else if s0.contains(p) {
                } else {
                    assert(marked(m0, p));
                    assert(expanded(m0, p));
                    assert forall|x: BoardPos| x.in_bounds() && adjacent(p, x) implies #[trigger] marked(*m, x) by {
                        assert(marked(m0, x));
                    }
                }
            }
        }
    }
}

/// Once nothing waits, every square of a chain has been looked at.
proof fn lemma_chain_marked(v: GameView, m: Mask, moves: Seq<BoardPos>, path: Seq<BoardPos>)
    requires
        flood_inv(v, m, Seq::empty(), moves, BoardPos::spec_none()),
        v.is_chain(path),
    ensures
        marked(m, path.last()),
    decreases path.len(),
{
    if path.len() > 1 {
        let shorter = path.drop_last();
        assert(v.is_chain(shorter));
        lemma_chain_marked(v, m, moves, shorter);
        let prev = path[path.len() - 2];
        assert(is_source(v, prev));
        assert(expanded(m, prev));
        assert(path[path.len() - 1].in_bounds());
    }
}

impl Game {
    /// The legal moves of the player to move: every square that is empty or
    /// holds an enemy unit and touches the mover's territory, each once.
    pub fn legal_moves(&self) -> (moves: Vec<BoardPos>)
        ensures
            moves@.no_duplicates(),
            forall|p: BoardPos| #[trigger] moves@.contains(p) <==> self@.is_legal(p),
            moves@.to_set() == self@.legal_set(),
            moves@.len() == self@.mobility(),
            moves@.len() <= BOARD_HEIGHT * BOARD_WIDTH,
    {
        let ghost v = self@;
        let mut m: Mask = [[false; BOARD_WIDTH]; BOARD_HEIGHT];
        let mut stack: Vec<BoardPos> = Vec::new();
        let mut moves: Vec<BoardPos> = Vec::new();
        let me = self.player();

        let mut i: usize = 0;
        while i < BOARD_HEIGHT
            invariant
                i <= BOARD_HEIGHT,
                v == self@,
                me == v.player,
                moves@.len() == 0,
                forall|p: BoardPos| p.in_bounds() ==> (#[trigger] marked(m, p) <==> (p.0 < i && v.cell(p) == Cell::Unit(me))),
                forall|k: int| 0 <= k < stack@.len() ==> (#[trigger] stack@[k]).in_bounds() && marked(m, stack@[k]) && v.cell(stack@[k]) == Cell::Unit(me),
                forall|p: BoardPos| p.in_bounds() && #[trigger] marked(m, p) ==> stack@.contains(p),
            decreases BOARD_HEIGHT - i,
        {
            let mut j: usize = 0;
            while j < BOARD_WIDTH
                invariant
                    i < BOARD_HEIGHT,
                    j <= BOARD_WIDTH,
                    v == self@,
                    me == v.player,
                    moves@.len() == 0,
                    forall|p: BoardPos| p.in_bounds() ==> (#[trigger] marked(m, p) <==> ((p.0 < i || (p.0 == i && p.1 < j)) && v.cell(p) == Cell::Unit(me))),
                    forall|k: int| 0 <= k < stack@.len() ==> (#[trigger] stack@[k]).in_bounds() && marked(m, stack@[k]) && v.cell(stack@[k]) == Cell::Unit(me),
                    forall|p: BoardPos| p.in_bounds() && #[trigger] marked(m, p) ==> stack@.contains(p),
                decreases BOARD_WIDTH - j,
            {
                let p = BoardPos(i, j);
                if self.cell(p) == Cell::Unit(me) {
                    let ghost s0 = stack@;
                    let ghost m0 = m;
                    stack.push(p);
                    mark(&mut m, p);
                    proof {
                        assert forall|x: BoardPos| x.in_bounds() implies (#[trigger] marked(m, x) <==> (marked(m0, x) || x == p)) by {
                            if x != p {
                                assert(x.0 != p.0 || x.1 != p.1);
                            }
                        }
                        assert forall|x: BoardPos| x.in_bounds() && #[trigger] marked(m, x) implies stack@.contains(x) by {
                            if x == p {
                                assert(stack@[stack@.len() - 1] == p);
                            } else {
                                assert(marked(m0, x));
                                let k = choose|k: int| 0 <= k < s0.len() && s0[k] == x;
                                assert(stack@[k] == x);
                            }
                        }
                    }
                }
                j = j + 1;
            }
            i = i + 1;
        }

        proof {
            lemma_grid_bound(marks(m), BOARD_HEIGHT as nat);
            assert(flood_inv(v, m, stack@, moves@, BoardPos::spec_none()));
        }

        while stack.len() > 0
            invariant
                v == self@,
                flood_inv(v, m, stack@, moves@, BoardPos::spec_none()),
            decreases unmarked(m) + stack@.len(),
        {
            let ghost s0 = stack@;
            let cur = match stack.pop() {
                Some(c) => c,
                None => BoardPos::none(),
            };
            proof {
                assert(s0 == stack@.push(cur));
                assert forall|p: BoardPos| s0.contains(p) && p != cur implies #[trigger] stack@.contains(p) by {
                    let k = choose|k: int| 0 <= k < s0.len() && s0[k] == p;
                    assert(stack@[k] == p);
                }
                assert(s0[s0.len() - 1] == cur);
                lemma_source_in_territory(v, m, s0, moves@, BoardPos::spec_none(), cur);
                assert(flood_inv(v, m, stack@, moves@, cur));
            }
            let i = cur.0;
            let j = cur.1;
            let up = if i == 0 { usize::MAX } else { i - 1 };
            let left = if j == 0 { usize::MAX } else { j - 1 };
            self.visit(&mut m, &mut stack, &mut moves, cur, BoardPos(up, left));
            self.visit(&mut m, &mut stack, &mut moves, cur, BoardPos(up, j));
            self.visit(&mut m, &mut stack, &mut moves, cur, BoardPos(up, j + 1));
            self.visit(&mut m, &mut stack, &mut moves, cur, BoardPos(i, left));
            self.visit(&mut m, &mut stack, &mut moves, cur, BoardPos(i, j + 1));
            self.visit(&mut m, &mut stack, &mut moves, cur, BoardPos(i + 1, left));
            self.visit(&mut m, &mut stack, &mut moves, cur, BoardPos(i + 1, j));
            self.visit(&mut m, &mut stack, &mut moves, cur, BoardPos(i + 1, j + 1));
            proof {
                assert forall|q: BoardPos| q.in_bounds() && adjacent(cur, q) implies #[trigger] marked(m, q) by {
                    if q.0 + 1 == i && q.1 + 1 == j {
                        assert(q == BoardPos(up, left));
                    } else if q.0 + 1 == i && q.1 == j {
                        assert(q == BoardPos(up, j));
                    } else if q.0 + 1 == i {
                        assert(q == BoardPos(up, (j + 1) as usize));
                    } else if q.0 == i && q.1 + 1 == j {
                        assert(q == BoardPos(i, left));
                    } else if q.0 == i {
                        assert(q == BoardPos(i, (j + 1) as usize));
                    } else if q.1 + 1 == j {
                        assert(q == BoardPos((i + 1) as usize, left));
                    } else if q.1 == j {
                        assert(q == BoardPos((i + 1) as usize, j));
                    } else {
                        assert(q == BoardPos((i + 1) as usize, (j + 1) as usize));
                    }
                }
                assert(expanded(m, cur));
            }
        }

        proof {
            assert(stack@ =~= Seq::empty());
            assert forall|p: BoardPos| #[trigger] moves@.contains(p) <==> v.is_legal(p) by {
                if v.is_legal(p) {
                    let q = choose|q: BoardPos| adjacent(p, q) && #[trigger] v.in_territory(q);
                    let path = choose|path: Seq<BoardPos>| #[trigger] v.is_chain(path) && path.last() == q;
                    lemma_chain_marked(v, m, moves@, path);
                    lemma_source_in_territory(v, m, stack@, moves@, BoardPos::spec_none(), q);
                    assert(is_source(v, q));
                    assert(expanded(m, q));
                    assert(marked(m, p));
                }
                if moves@.contains(p) {
                    let k = choose|k: int| 0 <= k < moves@.len() && moves@[k] == p;
                }
            }
            assert(moves@.to_set() =~= v.legal_set());
            moves@.unique_seq_to_set();
        }
        moves
    }
}

/// Any two lists that each hold every legal move once, as the generator's
/// results do, hold the same moves and have the same length.
pub proof fn lemma_move_lists_agree(v: GameView, a: Seq<BoardPos>, b: Seq<BoardPos>)
    requires
        a.no_duplicates(),
        b.no_duplicates(),
        forall|p: BoardPos| #[trigger] a.contains(p) <==> v.is_legal(p),
        forall|p: BoardPos| #[trigger] b.contains(p) <==> v.is_legal(p),
    ensures
        a.to_set() == b.to_set(),
        a.len() == b.len(),
{
    assert(a.to_set() =~= b.to_set());
    a.unique_seq_to_set();
    b.unique_seq_to_set();
}

/// A legal move is on the board, never targets a wall, and touches a square
/// that holds the mover's unit or wall and is joined to the mover's units.
pub proof fn lemma_legal_move_sound(v: GameView, p: BoardPos)
    requires
        v.is_legal(p),
    ensures
        p.in_bounds(),
        !(v.cell(p) is Wall),
        exists|q: BoardPos|
            adjacent(p, q) && #[trigger] v.in_territory(q) && (v.cell(q) == Cell::Unit(v.player) || v.cell(q)
                == Cell::Wall(v.player)),
{
    let q = choose|q: BoardPos| adjacent(p, q) && #[trigger] v.in_territory(q);
    let path = choose|path: Seq<BoardPos>| #[trigger] v.is_chain(path) && path.last() == q;
    if path.len() > 1 {
        assert(path[path.len() - 1] == q);
    }
}

} // verus!
