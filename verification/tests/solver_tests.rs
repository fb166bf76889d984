use minesweeper::game::{GameConfig, GameMove, GameState, MinesweeperGame};
use minesweeper::solver::get_next_move;

#[test]
fn opening_move_is_the_middle() {
    // A fresh 9 x 9 / 10-mine game: the solver opens at (4, 4).
    let game = MinesweeperGame::new(GameConfig::beginner());
    assert_eq!(get_next_move(&game), GameMove::Reveal(4, 4));

    // Deterministic placement gives the same opening move.
    let explicit = MinesweeperGame::with_mines(
        GameConfig::beginner(),
        &[0, 1, 2, 3, 4, 5, 6, 7, 8, 9],
    );
    assert_eq!(get_next_move(&explicit), GameMove::Reveal(4, 4));

    // The middle is found by integer division.
    let small = MinesweeperGame::with_mines(GameConfig::new(2, 2, 1), &[0]);
    assert_eq!(get_next_move(&small), GameMove::Reveal(1, 1));
}

#[test]
fn rule_a_flags_the_last_unrevealed_neighbor() {
    // 3 x 3 with a mine in the middle. Reveal three corners around the
    // top-left so (0,0)'s only unrevealed neighbor is the mine: the count
    // matches unrevealed + flagged, so the solver flags it.
    let config = GameConfig::new(3, 3, 1);
    let mut game = MinesweeperGame::with_mines(config, &[4]);
    assert!(game.reveal_at(0, 0));
    assert!(game.reveal_at(1, 0));
    assert!(game.reveal_at(0, 1));
    assert_eq!(game.state(), GameState::Playing);
    assert_eq!(get_next_move(&game), GameMove::Flag(1, 1));
}

#[test]
fn rule_b_reveals_when_all_mines_are_flagged() {
    // Same board with the mine already flagged: the first scanned count
    // cell with an unrevealed neighbor left is (1,0), whose flag count
    // already matches, so its first unrevealed neighbor (2,0) is safe.
    let config = GameConfig::new(3, 3, 1);
    let mut game = MinesweeperGame::with_mines(config, &[4]);
    assert!(game.reveal_at(0, 0));
    assert!(game.reveal_at(1, 0));
    assert!(game.reveal_at(0, 1));
    assert!(game.toggle_flag(1, 1));
    assert_eq!(get_next_move(&game), GameMove::Reveal(2, 0));
}

#[test]
fn solver_follows_its_own_advice_to_a_win() {
    // After a helping hand (three revealed corners), the solver's own
    // chain of deductions wins the board without guessing.
    let config = GameConfig::new(3, 3, 1);
    let mut game = MinesweeperGame::with_mines(config, &[4]);
    assert!(game.reveal_at(0, 0));
    assert!(game.reveal_at(1, 0));
    assert!(game.reveal_at(0, 1));
    for _ in 0..20 {
        if game.game_over() {
            break;
        }
        let m = get_next_move(&game);
        if m == GameMove::NoOp {
            break;
        }
        game.make_move(m);
    }
    assert_eq!(game.state(), GameState::Completed);
}

#[test]
fn opening_flood_can_win_outright() {
    // 5 x 1 with the mine at the right end: the opening move lands on an
    // empty cell and the flood fill reveals every safe cell.
    let config = GameConfig::new(5, 1, 1);
    let mut game = MinesweeperGame::with_mines(config, &[4]);
    let m = get_next_move(&game);
    assert_eq!(m, GameMove::Reveal(2, 0));
    game.make_move(m);
    assert_eq!(game.state(), GameState::Completed);
    assert_eq!(get_next_move(&game), GameMove::NoOp);
}

#[test]
fn noop_on_terminal_game() {
    let config = GameConfig::new(3, 1, 1);
    let mut game = MinesweeperGame::with_mines(config, &[0]);
    assert!(game.reveal_at(0, 0));
    assert_eq!(game.state(), GameState::Dead);
    assert_eq!(get_next_move(&game), GameMove::NoOp);
}

#[test]
fn noop_without_a_local_deduction() {
    // 3 x 3 with a central mine and only one corner revealed: the corner's
    // count sees three unrevealed neighbors, so nothing is forced.
    let config = GameConfig::new(3, 3, 1);
    let mut game = MinesweeperGame::with_mines(config, &[4]);
    assert!(game.reveal_at(0, 0));
    assert_eq!(get_next_move(&game), GameMove::NoOp);
}
