use territory::board::{Board, BoardPos, Cell, Player};
use territory::game::Game;

fn sorted(mut moves: Vec<BoardPos>) -> Vec<(usize, usize)> {
    let mut out: Vec<(usize, usize)> = moves.drain(..).map(|p| (p.0, p.1)).collect();
    out.sort();
    out
}

fn game_from(cells: &[(usize, usize, Cell)], player: Player, turns_left: usize) -> Game {
    let mut board = Board::empty();
    for &(r, c, cell) in cells {
        board.set(BoardPos(r, c), cell);
    }
    Game::with_board(board, player, turns_left).expect("turn count in range")
}

fn count(game: &Game, x: Cell) -> usize {
    let mut n = 0;
    for r in 0..10 {
        for c in 0..10 {
            if game.cell(BoardPos(r, c)) == x {
                n += 1;
            }
        }
    }
    n
}

#[test]
fn initial_layout() {
    let g = Game::default();
    assert_eq!(g.player(), Player::Blue);
    assert_eq!(g.turns_left(), 3);
    assert_eq!(g.cell(BoardPos(0, 0)), Cell::Unit(Player::Blue));
    assert_eq!(g.cell(BoardPos(9, 9)), Cell::Unit(Player::Red));
    assert_eq!(count(&g, Cell::Empty), 98);
}

#[test]
fn initial_moves_for_blue() {
    let g = Game::default();
    assert_eq!(sorted(g.legal_moves()), vec![(0, 1), (1, 0), (1, 1)]);
}

#[test]
fn initial_moves_for_red() {
    let mut g = Game::default();
    g.pass();
    assert_eq!(g.player(), Player::Red);
    assert_eq!(sorted(g.legal_moves()), vec![(8, 8), (8, 9), (9, 8)]);
}

#[test]
fn claim_then_undo_on_initial_board() {
    let mut g = Game::default();
    g.do_move(BoardPos(1, 1));
    assert_eq!(g.cell(BoardPos(1, 1)), Cell::Unit(Player::Blue));
    assert_eq!(g.turns_left(), 2);
    assert_eq!(g.player(), Player::Blue);
    g.undo_move(BoardPos(1, 1));
    assert_eq!(g.cell(BoardPos(1, 1)), Cell::Empty);
    assert_eq!(g.turns_left(), 3);
    assert_eq!(g.player(), Player::Blue);
}

#[test]
fn full_cycle_undone_in_reverse() {
    let mut g = Game::default();
    let moves = [BoardPos(1, 1), BoardPos(2, 2), BoardPos(0, 1)];
    for mv in moves {
        g.do_move(mv);
    }
    assert_eq!(g.turns_left(), 3);
    assert_eq!(g.player(), Player::Red);
    g.undo_move(moves[2]);
    assert_eq!(g.turns_left(), 1);
    assert_eq!(g.player(), Player::Blue);
    g.undo_move(moves[1]);
    assert_eq!(g.turns_left(), 2);
    g.undo_move(moves[0]);
    assert_eq!(g.turns_left(), 3);
    assert_eq!(g.player(), Player::Blue);
    for mv in moves {
        assert_eq!(g.cell(mv), Cell::Empty);
    }
}

#[test]
fn three_moves_hand_the_turn_over() {
    let mut g = game_from(&[(5, 5, Cell::Unit(Player::Red))], Player::Red, 3);
    g.do_move(BoardPos(4, 4));
    g.do_move(BoardPos(4, 5));
    g.do_move(BoardPos(4, 6));
    assert_eq!(g.turns_left(), 3);
    assert_eq!(g.player(), Player::Blue);
}

#[test]
fn depth_zero_search_on_initial_board() {
    let mut g = Game::default();
    let (pos, eval) = g.recurse(0);
    assert_eq!(pos, BoardPos(usize::MAX, usize::MAX));
    assert_eq!(pos, BoardPos::none());
    assert_eq!(eval, 0);
}

#[test]
fn depth_one_search_prefers_the_diagonal() {
    let mut g = Game::default();
    let (pos, eval) = g.recurse(1);
    assert_eq!(pos, BoardPos(1, 1));
    assert_eq!(eval, 7 - 3);
    assert_eq!(g.turns_left(), 3);
    assert_eq!(g.player(), Player::Blue);
    assert_eq!(count(&g, Cell::Empty), 98);
}

#[test]
fn search_negates_across_the_turn_boundary() {
    let board = Game::default().board();
    let mut g = Game::with_board(board, Player::Blue, 1).unwrap();
    let (pos, eval) = g.recurse(1);
    assert_eq!(pos, BoardPos(1, 1));
    assert_eq!(eval, -(3 - 7));
    assert_eq!(g.turns_left(), 1);
}

#[test]
fn depth_two_search_leaves_the_game_unchanged() {
    let mut g = Game::default();
    let before = g.board();
    let (pos, eval) = g.recurse(2);
    assert!(pos.0 < 10 && pos.1 < 10);
    assert!((-100..=100).contains(&eval));
    assert_eq!(g.player(), Player::Blue);
    assert_eq!(g.turns_left(), 3);
    for r in 0..10 {
        for c in 0..10 {
            assert_eq!(g.cell(BoardPos(r, c)), before.index(BoardPos(r, c)));
        }
    }
}

#[test]
fn reach_extends_through_own_walls() {
    let g = game_from(
        &[(0, 0, Cell::Unit(Player::Blue)), (1, 1, Cell::Wall(Player::Blue))],
        Player::Blue,
        3,
    );
    assert_eq!(
        sorted(g.legal_moves()),
        vec![(0, 1), (0, 2), (1, 0), (1, 2), (2, 0), (2, 1), (2, 2)]
    );
}

#[test]
fn enemy_walls_block_and_enemy_units_are_targets() {
    let g = game_from(
        &[
            (0, 0, Cell::Unit(Player::Blue)),
            (1, 1, Cell::Wall(Player::Red)),
            (0, 1, Cell::Unit(Player::Red)),
        ],
        Player::Blue,
        3,
    );
    assert_eq!(sorted(g.legal_moves()), vec![(0, 1), (1, 0)]);
}

#[test]
fn own_units_are_not_targets() {
    let g = game_from(
        &[(4, 4, Cell::Unit(Player::Blue)), (4, 5, Cell::Unit(Player::Blue))],
        Player::Blue,
        3,
    );
    let moves = sorted(g.legal_moves());
    assert_eq!(moves.len(), 10);
    assert!(!moves.contains(&(4, 4)));
    assert!(!moves.contains(&(4, 5)));
}

#[test]
fn moves_at_the_far_corner_stay_on_the_board() {
    let g = game_from(&[(9, 0, Cell::Unit(Player::Blue))], Player::Blue, 2);
    assert_eq!(sorted(g.legal_moves()), vec![(8, 0), (8, 1), (9, 1)]);
}

#[test]
fn generator_is_repeatable_and_sound() {
    let g = game_from(
        &[
            (3, 3, Cell::Unit(Player::Red)),
            (3, 4, Cell::Wall(Player::Red)),
            (3, 5, Cell::Wall(Player::Red)),
            (2, 6, Cell::Unit(Player::Blue)),
            (4, 6, Cell::Wall(Player::Blue)),
        ],
        Player::Red,
        2,
    );
    let first = g.legal_moves();
    let second = g.legal_moves();
    assert_eq!(first, second);
    let set = sorted(first);
    let mut dedup = set.clone();
    dedup.dedup();
    assert_eq!(set, dedup);
    for &(r, c) in &set {
        assert!(!matches!(g.cell(BoardPos(r, c)), Cell::Wall(_)));
    }
    assert!(set.contains(&(2, 6)));
    assert!(!set.contains(&(4, 6)));
}

#[test]
fn capture_then_undo_restores_the_enemy_unit() {
    let mut g = game_from(
        &[(0, 0, Cell::Unit(Player::Blue)), (0, 1, Cell::Unit(Player::Red))],
        Player::Blue,
        3,
    );
    assert!(sorted(g.legal_moves()).contains(&(0, 1)));
    let red_units = count(&g, Cell::Unit(Player::Red));
    g.do_move(BoardPos(0, 1));
    assert_eq!(g.cell(BoardPos(0, 1)), Cell::Wall(Player::Blue));
    assert_eq!(count(&g, Cell::Unit(Player::Red)), red_units - 1);
    assert_eq!(count(&g, Cell::Wall(Player::Blue)), 1);
    g.undo_move(BoardPos(0, 1));
    assert_eq!(g.cell(BoardPos(0, 1)), Cell::Unit(Player::Red));
    assert_eq!(g.turns_left(), 3);
    assert_eq!(g.player(), Player::Blue);
}

#[test]
fn capture_on_the_last_action_undoes_to_the_right_owner() {
    let mut g = game_from(
        &[(5, 5, Cell::Unit(Player::Red)), (5, 6, Cell::Unit(Player::Blue))],
        Player::Red,
        1,
    );
    g.do_move(BoardPos(5, 6));
    assert_eq!(g.cell(BoardPos(5, 6)), Cell::Wall(Player::Red));
    assert_eq!(g.player(), Player::Blue);
    assert_eq!(g.turns_left(), 3);
    g.undo_move(BoardPos(5, 6));
    assert_eq!(g.cell(BoardPos(5, 6)), Cell::Unit(Player::Blue));
    assert_eq!(g.player(), Player::Red);
    assert_eq!(g.turns_left(), 1);
}

#[test]
fn claim_adds_one_unit_and_no_wall() {
    let mut g = Game::default();
    let units = count(&g, Cell::Unit(Player::Blue)) + count(&g, Cell::Unit(Player::Red));
    let empty = count(&g, Cell::Empty);
    g.do_move(BoardPos(0, 1));
    assert_eq!(count(&g, Cell::Unit(Player::Blue)) + count(&g, Cell::Unit(Player::Red)), units + 1);
    assert_eq!(count(&g, Cell::Wall(Player::Blue)) + count(&g, Cell::Wall(Player::Red)), 0);
    assert_eq!(count(&g, Cell::Empty), empty - 1);
}

#[test]
fn mover_without_units_has_no_moves() {
    let mut g = game_from(
        &[(9, 9, Cell::Unit(Player::Red)), (0, 0, Cell::Wall(Player::Blue))],
        Player::Blue,
        3,
    );
    assert!(g.legal_moves().is_empty());
    for level in 0..3 {
        let (pos, eval) = g.recurse(level);
        assert_eq!(pos, BoardPos::none());
        assert_eq!(eval, -3);
    }
}

#[test]
fn turn_count_out_of_range_is_refused() {
    assert!(Game::with_board(Board::empty(), Player::Blue, 0).is_none());
    assert!(Game::with_board(Board::empty(), Player::Red, 4).is_none());
    assert!(Game::with_board(Board::empty(), Player::Red, 1).is_some());
}

#[test]
fn negation_swaps_players() {
    assert_eq!(-Player::Blue, Player::Red);
    assert_eq!(-Player::Red, Player::Blue);
    assert_eq!(-(-Player::Red), Player::Red);
}

#[test]
fn ends_turn_only_on_the_last_action() {
    let mut g = Game::default();
    assert!(!g.ends_turn());
    g.do_move(BoardPos(0, 1));
    assert!(!g.ends_turn());
    g.do_move(BoardPos(1, 1));
    assert!(g.ends_turn());
}
