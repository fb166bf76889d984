use minesweeper::board::GridState;
use minesweeper::game::GameState;
use minesweeper::sprites::{sprite_for_game_state, sprite_for_grid, SpriteType};

#[test]
fn digit_sprites() {
    assert_eq!(SpriteType::digit(0), SpriteType::Digit0);
    assert_eq!(SpriteType::digit(1), SpriteType::Digit1);
    assert_eq!(SpriteType::digit(5), SpriteType::Digit5);
    assert_eq!(SpriteType::digit(9), SpriteType::Digit9);
}

#[test]
fn block_digit_sprites() {
    assert_eq!(SpriteType::block_digit(0), SpriteType::BlockEmptyDown);
    assert_eq!(SpriteType::block_digit(1), SpriteType::Block1);
    assert_eq!(SpriteType::block_digit(8), SpriteType::Block8);
}

#[test]
fn sprite_sheet_coordinates() {
    assert_eq!(SpriteType::Digit1.pixels(), (0, 0, 13, 23));
    assert_eq!(SpriteType::Digit0.pixels(), (126, 0, 13, 23));
    assert_eq!(SpriteType::FaceSmileyUp.pixels(), (0, 24, 26, 26));
    assert_eq!(SpriteType::FaceXXX.pixels(), (108, 24, 26, 26));
    assert_eq!(SpriteType::BlockEmptyUp.pixels(), (0, 51, 16, 16));
    assert_eq!(SpriteType::BlockMineRed.pixels(), (102, 51, 16, 16));
    assert_eq!(SpriteType::Block1.pixels(), (0, 68, 16, 16));
    assert_eq!(SpriteType::Block8.pixels(), (119, 68, 16, 16));
}

#[test]
fn face_for_each_game_state() {
    assert_eq!(sprite_for_game_state(GameState::Reset), SpriteType::FaceSmileyUp);
    assert_eq!(sprite_for_game_state(GameState::Playing), SpriteType::FaceSmileyUp);
    assert_eq!(sprite_for_game_state(GameState::Completed), SpriteType::FaceCool);
    assert_eq!(sprite_for_game_state(GameState::Dead), SpriteType::FaceXXX);
}

#[test]
fn block_for_each_display_state() {
    assert_eq!(sprite_for_grid(GridState::Empty), SpriteType::BlockEmptyDown);
    assert_eq!(sprite_for_grid(GridState::Count(3)), SpriteType::Block3);
    assert_eq!(sprite_for_grid(GridState::Mine), SpriteType::BlockMine);
    assert_eq!(sprite_for_grid(GridState::Unrevealed), SpriteType::BlockEmptyUp);
    assert_eq!(sprite_for_grid(GridState::Flagged), SpriteType::BlockFlag);
    assert_eq!(sprite_for_grid(GridState::MineHighlighted), SpriteType::BlockMineRed);
    assert_eq!(sprite_for_grid(GridState::MineIncorrect), SpriteType::BlockMineX);
}
