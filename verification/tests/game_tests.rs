use minesweeper::board::GridState;
use minesweeper::game::{GameConfig, GameMove, GameState, MinesweeperGame};
use minesweeper::geometry::{index_to_pos, pos_to_index};

#[test]
fn config_presets() {
    let b = GameConfig::beginner();
    assert_eq!(b.width(), 9);
    assert_eq!(b.height(), 9);
    assert_eq!(b.mines(), 10);
    assert_eq!(b.total_size(), 81);

    let i = GameConfig::intermediate();
    assert_eq!((i.width(), i.height(), i.mines()), (16, 16, 40));
    assert_eq!(i.total_size(), 256);

    let e = GameConfig::expert();
    assert_eq!((e.width(), e.height(), e.mines()), (32, 16, 99));
    assert_eq!(e.total_size(), 512);

    let c = GameConfig::new(5, 4, 3);
    assert_eq!((c.width(), c.height(), c.mines()), (5, 4, 3));
    assert_eq!(c.total_size(), 20);
    assert_eq!(c, GameConfig::new(5, 4, 3));
    assert_ne!(c, GameConfig::new(4, 5, 3));
}

#[test]
fn index_helpers() {
    assert_eq!(pos_to_index(3, 2, 5), 13);
    assert_eq!(index_to_pos(13, 5), (3, 2));
    assert_eq!(pos_to_index(0, 0, 7), 0);
    assert_eq!(index_to_pos(6, 7), (6, 0));
}

#[test]
fn with_mines_round_trip() {
    // 4 x 3 board, mines at flat indices 1, 5, 7.
    let config = GameConfig::new(4, 3, 3);
    let game = MinesweeperGame::with_mines(config, &[1, 5, 7]);
    let mut found = Vec::new();
    for y in 0..3 {
        for x in 0..4 {
            if game.peek_at(x, y, true) == GridState::Mine {
                found.push((x + y * 4) as usize);
            }
        }
    }
    assert_eq!(found, vec![1, 5, 7]);
}

#[test]
fn intrinsic_counts_match_recount() {
    // Every safe cell's label equals a brute-force recount of its
    // adjacent mines, on an explicit and on a random board.
    let config = GameConfig::new(6, 5, 7);
    let explicit = MinesweeperGame::with_mines(config, &[0, 3, 11, 14, 17, 22, 29]);
    let random = MinesweeperGame::new(GameConfig::beginner());
    for game in [&explicit, &random] {
        let w = game.width() as i64;
        let h = game.height() as i64;
        let mut mines = 0;
        for y in 0..h {
            for x in 0..w {
                let shown = game.peek_at(x as u32, y as u32, true);
                if shown == GridState::Mine {
                    mines += 1;
                    continue;
                }
                let mut count = 0u8;
                for dy in -1..=1i64 {
                    for dx in -1..=1i64 {
                        if dx == 0 && dy == 0 {
                            continue;
                        }
                        let (nx, ny) = (x + dx, y + dy);
                        if nx >= 0 && nx < w && ny >= 0 && ny < h {
                            if game.peek_at(nx as u32, ny as u32, true) == GridState::Mine {
                                count += 1;
                            }
                        }
                    }
                }
                let expected = if count == 0 {
                    GridState::Empty
                } else {
                    GridState::Count(count)
                };
                assert_eq!(shown, expected);
            }
        }
        assert_eq!(mines as usize, game.config().mines());
    }
}

#[test]
fn generated_mines_are_distinct() {
    for _ in 0..10 {
        let game = MinesweeperGame::new(GameConfig::new(8, 8, 20));
        let mut seen = vec![false; 64];
        let mut mines = 0;
        for y in 0..8 {
            for x in 0..8 {
                if game.peek_at(x, y, true) == GridState::Mine {
                    let i = (x + y * 8) as usize;
                    assert!(!seen[i]);
                    seen[i] = true;
                    mines += 1;
                }
            }
        }
        assert_eq!(mines, 20);
    }
}

#[test]
fn full_density_board() {
    // mines == total cells: every cell is a mine.
    let game = MinesweeperGame::new(GameConfig::new(3, 3, 9));
    for y in 0..3 {
        for x in 0..3 {
            assert_eq!(game.peek_at(x, y, true), GridState::Mine);
        }
    }
}

#[test]
fn neighbors_order_and_bounds() {
    let game = MinesweeperGame::with_mines(GameConfig::new(4, 3, 0), &[]);
    // Interior cell: all 8 neighbors in row-major order, center excluded.
    assert_eq!(
        game.neighbors(1, 1),
        vec![(0, 0), (1, 0), (2, 0), (0, 1), (2, 1), (0, 2), (1, 2), (2, 2)]
    );
    // Corner cell: 3 neighbors.
    assert_eq!(game.neighbors(0, 0), vec![(1, 0), (0, 1), (1, 1)]);
    // Edge cell: 5 neighbors.
    assert_eq!(game.neighbors(3, 1), vec![(2, 0), (3, 0), (2, 1), (2, 2), (3, 2)]);
}

#[test]
fn reveal_mine_means_dead() {
    // 5 x 1 board with a mine in the middle.
    let config = GameConfig::new(5, 1, 1);
    let mut game = MinesweeperGame::with_mines(config, &[2]);
    assert_eq!(game.state(), GameState::Reset);
    let changed = game.reveal_at(2, 0);
    assert!(changed);
    assert_eq!(game.state(), GameState::Dead);
    assert!(game.game_over());
    assert_eq!(game.revealed_count(), 1);
    // The detonated mine is highlighted; no flood fill happened.
    assert_eq!(game.peek_at(2, 0, false), GridState::MineHighlighted);
    assert_eq!(game.peek_at(0, 0, false), GridState::Unrevealed);
    assert_eq!(game.peek_at(4, 0, false), GridState::Unrevealed);
}

#[test]
fn flood_fill_reveals_connected_region() {
    // 5 x 1 board, mine in the middle: revealing the left end reveals the
    // whole left region (the empty cell and the bordering count) and stops
    // at the mine.
    let config = GameConfig::new(5, 1, 1);
    let mut game = MinesweeperGame::with_mines(config, &[2]);
    assert!(game.reveal_at(0, 0));
    assert_eq!(game.state(), GameState::Playing);
    assert_eq!(game.revealed_count(), 2);
    assert_eq!(game.peek_at(0, 0, false), GridState::Empty);
    assert_eq!(game.peek_at(1, 0, false), GridState::Count(1));
    assert_eq!(game.peek_at(2, 0, false), GridState::Unrevealed);
    assert_eq!(game.peek_at(3, 0, false), GridState::Unrevealed);
    assert_eq!(game.peek_at(4, 0, false), GridState::Unrevealed);
}

#[test]
fn flood_fill_stops_at_flags() {
    // Same 5 x 1 board; a flag on the empty cell next to the start blocks
    // the cascade.
    let config = GameConfig::new(6, 1, 1);
    let mut game = MinesweeperGame::with_mines(config, &[5]);
    assert!(game.toggle_flag(1, 0));
    assert!(game.reveal_at(0, 0));
    assert_eq!(game.revealed_count(), 1);
    assert_eq!(game.peek_at(0, 0, false), GridState::Empty);
    assert_eq!(game.peek_at(1, 0, false), GridState::Flagged);
    assert_eq!(game.peek_at(2, 0, false), GridState::Unrevealed);
}

#[test]
fn flood_fill_large_empty_region() {
    // A 20 x 20 board with one corner mine: revealing the far corner
    // floods through the whole safe board and wins the game.
    let config = GameConfig::new(20, 20, 1);
    let mut game = MinesweeperGame::with_mines(config, &[0]);
    assert!(game.reveal_at(19, 19));
    assert_eq!(game.state(), GameState::Completed);
    assert_eq!(game.revealed_count(), 399);
    assert_eq!(game.peek_at(0, 0, false), GridState::Flagged);
}

#[test]
fn reveal_noops() {
    let config = GameConfig::new(3, 3, 1);
    let mut game = MinesweeperGame::with_mines(config, &[4]);
    assert!(game.reveal_at(0, 0));
    // Already revealed: no-op.
    assert!(!game.reveal_at(0, 0));
    // Flagged: no-op.
    assert!(game.toggle_flag(2, 2));
    assert!(!game.reveal_at(2, 2));
    assert_eq!(game.revealed_count(), 1);
}

#[test]
fn terminal_game_accepts_no_mutation() {
    let config = GameConfig::new(3, 1, 1);
    let mut game = MinesweeperGame::with_mines(config, &[0]);
    assert!(game.reveal_at(0, 0));
    assert_eq!(game.state(), GameState::Dead);
    let mines_remaining = game.mines_remaining();
    let revealed_count = game.revealed_count();
    assert!(!game.reveal_at(1, 0));
    assert!(!game.toggle_flag(1, 0));
    assert!(!game.make_move(GameMove::Reveal(2, 0)));
    assert!(!game.make_move(GameMove::Flag(2, 0)));
    assert_eq!(game.state(), GameState::Dead);
    assert_eq!(game.mines_remaining(), mines_remaining);
    assert_eq!(game.revealed_count(), revealed_count);
    assert_eq!(game.peek_at(1, 0, false), GridState::Unrevealed);
}

#[test]
fn winning_reveals_all_and_flags_mines() {
    // 2 x 2 with one mine: revealing the three safe cells completes the
    // game, auto-flags the mine, and the counter ends at zero.
    let config = GameConfig::new(2, 2, 1);
    let mut game = MinesweeperGame::with_mines(config, &[3]);
    assert_eq!(game.mines_remaining(), 1);
    assert!(game.reveal_at(0, 0));
    assert!(game.reveal_at(1, 0));
    assert_eq!(game.state(), GameState::Playing);
    assert!(game.reveal_at(0, 1));
    assert_eq!(game.state(), GameState::Completed);
    assert!(game.game_over());
    assert_eq!(game.revealed_count(), 3);
    assert_eq!(game.peek_at(1, 1, false), GridState::Flagged);
    assert_eq!(game.mines_remaining(), 0);
}

#[test]
fn winning_counts_flags_placed_by_player() {
    // The player had already flagged the mine: completion places no second
    // flag and the counter still ends at zero.
    let config = GameConfig::new(2, 2, 1);
    let mut game = MinesweeperGame::with_mines(config, &[3]);
    assert!(game.toggle_flag(1, 1));
    assert_eq!(game.mines_remaining(), 0);
    assert!(game.reveal_at(0, 0));
    assert!(game.reveal_at(1, 0));
    assert!(game.reveal_at(0, 1));
    assert_eq!(game.state(), GameState::Completed);
    assert_eq!(game.mines_remaining(), 0);
    assert_eq!(game.peek_at(1, 1, false), GridState::Flagged);
}

#[test]
fn toggle_flag_moves_counter_both_ways() {
    let config = GameConfig::new(3, 3, 2);
    let mut game = MinesweeperGame::with_mines(config, &[0, 1]);
    assert_eq!(game.mines_remaining(), 2);
    assert!(game.toggle_flag(0, 0));
    assert_eq!(game.mines_remaining(), 1);
    assert!(game.toggle_flag(1, 1));
    assert!(game.toggle_flag(2, 2));
    // Over-flagging pushes the counter negative; it is not clamped.
    assert_eq!(game.mines_remaining(), -1);
    assert_eq!(game.toggle_flag(0, 0), false);
    assert_eq!(game.mines_remaining(), 0);
    assert_eq!(game.state(), GameState::Playing);
}

#[test]
fn toggle_flag_ignores_revealed_cells() {
    let config = GameConfig::new(3, 1, 1);
    let mut game = MinesweeperGame::with_mines(config, &[2]);
    assert!(game.reveal_at(1, 0));
    assert_eq!(game.toggle_flag(1, 0), false);
    assert_eq!(game.mines_remaining(), 1);
    assert_eq!(game.peek_at(1, 0, false), GridState::Count(1));
}

#[test]
fn make_move_dispatches() {
    let config = GameConfig::new(3, 1, 1);
    let mut game = MinesweeperGame::with_mines(config, &[2]);
    assert!(!game.make_move(GameMove::NoOp));
    assert_eq!(game.state(), GameState::Reset);
    assert!(game.make_move(GameMove::Flag(0, 0)));
    assert_eq!(game.peek_at(0, 0, false), GridState::Flagged);
    assert!(game.make_move(GameMove::Reveal(1, 0)));
    assert_eq!(game.peek_at(1, 0, false), GridState::Count(1));
}

#[test]
fn display_table_during_play() {
    let config = GameConfig::new(3, 1, 1);
    let mut game = MinesweeperGame::with_mines(config, &[2]);
    assert_eq!(game.peek_at(0, 0, false), GridState::Unrevealed);
    // The reveal-all override shows the intrinsic truth.
    assert_eq!(game.peek_at(0, 0, true), GridState::Empty);
    assert_eq!(game.peek_at(1, 0, true), GridState::Count(1));
    assert_eq!(game.peek_at(2, 0, true), GridState::Mine);
    game.toggle_flag(0, 0);
    assert_eq!(game.peek_at(0, 0, false), GridState::Flagged);
}

#[test]
fn display_table_after_loss() {
    // 4 x 1, mines at 2 and 3. Flag one mine and one safe cell, then hit
    // the other mine.
    let config = GameConfig::new(4, 1, 2);
    let mut game = MinesweeperGame::with_mines(config, &[2, 3]);
    game.toggle_flag(0, 0); // wrong flag on a safe cell
    game.toggle_flag(3, 0); // correct flag on a mine
    assert!(game.reveal_at(2, 0));
    assert_eq!(game.state(), GameState::Dead);
    // Wrong flag shows as MineIncorrect, right flag stays Flagged,
    // the detonated mine is highlighted.
    assert_eq!(game.peek_at(0, 0, false), GridState::MineIncorrect);
    assert_eq!(game.peek_at(3, 0, false), GridState::Flagged);
    assert_eq!(game.peek_at(2, 0, false), GridState::MineHighlighted);
    assert_eq!(game.peek_at(1, 0, false), GridState::Unrevealed);
}

#[test]
fn timer_idle_until_first_action() {
    let config = GameConfig::new(3, 1, 1);
    let game = MinesweeperGame::with_mines(config, &[2]);
    assert_eq!(game.timer_elapsed(), std::time::Duration::ZERO);
}

#[test]
fn default_game_is_beginner() {
    let game = MinesweeperGame::default();
    assert_eq!(game.config(), GameConfig::beginner());
    assert_eq!(game.state(), GameState::Reset);
    assert_eq!(game.revealed_count(), 0);
    assert_eq!(game.mines_remaining(), 10);
    assert_eq!(game.width(), 9);
    assert_eq!(game.height(), 9);
    assert_eq!(game.total_size(), 81);
}
