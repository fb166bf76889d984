//! The sprite-sheet catalogue: which sprite each digit, face and block
//! uses, and where each sprite sits on the sheet in pixels. The drawing
//! itself is presentation and lives outside this crate; the lookup tables
//! here are plain data with exact contracts.

use vstd::prelude::*;

use crate::board::GridState;
use crate::game::GameState;

verus! {

#[derive(Copy, Clone, Debug, PartialEq, Eq, Structural, Hash)]
pub enum SpriteType {
    Digit0,
    Digit1,
    Digit2,
    Digit3,
    Digit4,
    Digit5,
    Digit6,
    Digit7,
    Digit8,
    Digit9,
    FaceSmileyUp,
    FaceSmileyDown,
    FaceRuhRoh,
    FaceCool,
    FaceXXX,
    BlockEmptyUp,
    BlockEmptyDown,
    BlockFlag,
    BlockQuestionUp,
    BlockQuestionDown,
    BlockMine,
    BlockMineRed,
    BlockMineX,
    Block1,
    Block2,
    Block3,
    Block4,
    Block5,
    Block6,
    Block7,
    Block8,
}

/// The counter sprite for one decimal digit.
pub open spec fn spec_digit(d: int) -> SpriteType {
    if d == 0 {
        SpriteType::Digit0
    } else if d == 1 {
        SpriteType::Digit1
    } else if d == 2 {
        SpriteType::Digit2
    } else if d == 3 {
        SpriteType::Digit3
    } else if d == 4 {
        SpriteType::Digit4
    } else if d == 5 {
        SpriteType::Digit5
    } else if d == 6 {
        SpriteType::Digit6
    } else if d == 7 {
        SpriteType::Digit7
    } else if d == 8 {
        SpriteType::Digit8
    } else {
        SpriteType::Digit9
    }
}

/// The block sprite for a revealed cell with `d` adjacent mines.
pub open spec fn spec_block_digit(d: int) -> SpriteType {
    if d == 0 {
        SpriteType::BlockEmptyDown
    } else if d == 1 {
        SpriteType::Block1
    } else if d == 2 {
        SpriteType::Block2
    } else if d == 3 {
        SpriteType::Block3
    } else if d == 4 {
        SpriteType::Block4
    } else if d == 5 {
        SpriteType::Block5
    } else if d == 6 {
        SpriteType::Block6
    } else if d == 7 {
        SpriteType::Block7
    } else {
        SpriteType::Block8
    }
}

impl SpriteType {
    pub fn digit(digit: u32) -> (s: SpriteType)
        requires
            digit <= 9,
        ensures
            s == spec_digit(digit as int),
    {
        match digit {
            0 => SpriteType::Digit0,
            1 => SpriteType::Digit1,
            2 => SpriteType::Digit2,
            3 => SpriteType::Digit3,
            4 => SpriteType::Digit4,
            5 => SpriteType::Digit5,
            6 => SpriteType::Digit6,
            7 => SpriteType::Digit7,
            8 => SpriteType::Digit8,
            _ => SpriteType::Digit9,
        }
    }

    pub fn block_digit(digit: u32) -> (s: SpriteType)
        requires
            digit <= 8,
        ensures
            s == spec_block_digit(digit as int),
    {
        match digit {
            0 => SpriteType::BlockEmptyDown,
            1 => SpriteType::Block1,
            2 => SpriteType::Block2,
            3 => SpriteType::Block3,
            4 => SpriteType::Block4,
            5 => SpriteType::Block5,
            6 => SpriteType::Block6,
            7 => SpriteType::Block7,
            _ => SpriteType::Block8,
        }
    }

    /// Position and size of this sprite on the sheet, in pixels:
    /// `(x, y, width, height)`.
    pub open spec fn spec_pixels(self) -> (u32, u32, u32, u32) {
        match self {
            SpriteType::Digit1 => (0, 0, 13, 23),
            SpriteType::Digit2 => (14, 0, 13, 23),
            SpriteType::Digit3 => (28, 0, 13, 23),
            SpriteType::Digit4 => (42, 0, 13, 23),
            SpriteType::Digit5 => (56, 0, 13, 23),
            SpriteType::Digit6 => (70, 0, 13, 23),
            SpriteType::Digit7 => (84, 0, 13, 23),
            SpriteType::Digit8 => (98, 0, 13, 23),
            SpriteType::Digit9 => (112, 0, 13, 23),
            SpriteType::Digit0 => (126, 0, 13, 23),
            SpriteType::FaceSmileyUp => (0, 24, 26, 26),
            SpriteType::FaceSmileyDown => (27, 24, 26, 26),
            SpriteType::FaceRuhRoh => (54, 24, 26, 26),
            SpriteType::FaceCool => (81, 24, 26, 26),
            SpriteType::FaceXXX => (108, 24, 26, 26),
            SpriteType::BlockEmptyUp => (0, 51, 16, 16),
            SpriteType::BlockEmptyDown => (17, 51, 16, 16),
            SpriteType::BlockFlag => (34, 51, 16, 16),
            SpriteType::BlockQuestionUp => (51, 51, 16, 16),
            SpriteType::BlockQuestionDown => (68, 51, 16, 16),
            SpriteType::BlockMine => (85, 51, 16, 16),
            SpriteType::BlockMineRed => (102, 51, 16, 16),
            SpriteType::BlockMineX => (119, 51, 16, 16),
            SpriteType::Block1 => (0, 68, 16, 16),
            SpriteType::Block2 => (17, 68, 16, 16),
            SpriteType::Block3 => (34, 68, 16, 16),
            SpriteType::Block4 => (51, 68, 16, 16),
            SpriteType::Block5 => (68, 68, 16, 16),
            SpriteType::Block6 => (85, 68, 16, 16),
            SpriteType::Block7 => (102, 68, 16, 16),
            SpriteType::Block8 => (119, 68, 16, 16),
        }
    }

    pub fn pixels(&self) -> (r: (u32, u32, u32, u32))
        ensures
            r == self.spec_pixels(),
    {
        match self {
            SpriteType::Digit1 => (0, 0, 13, 23),
            SpriteType::Digit2 => (14, 0, 13, 23),
            SpriteType::Digit3 => (28, 0, 13, 23),
            SpriteType::Digit4 => (42, 0, 13, 23),
            SpriteType::Digit5 => (56, 0, 13, 23),
            SpriteType::Digit6 => (70, 0, 13, 23),
            SpriteType::Digit7 => (84, 0, 13, 23),
            SpriteType::Digit8 => (98, 0, 13, 23),
            SpriteType::Digit9 => (112, 0, 13, 23),
            SpriteType::Digit0 => (126, 0, 13, 23),
            SpriteType::FaceSmileyUp => (0, 24, 26, 26),
            SpriteType::FaceSmileyDown => (27, 24, 26, 26),
            SpriteType::FaceRuhRoh => (54, 24, 26, 26),
            SpriteType::FaceCool => (81, 24, 26, 26),
            SpriteType::FaceXXX => (108, 24, 26, 26),
            SpriteType::BlockEmptyUp => (0, 51, 16, 16),
            SpriteType::BlockEmptyDown => (17, 51, 16, 16),
            SpriteType::BlockFlag => (34, 51, 16, 16),
            SpriteType::BlockQuestionUp => (51, 51, 16, 16),
            SpriteType::BlockQuestionDown => (68, 51, 16, 16),
            SpriteType::BlockMine => (85, 51, 16, 16),
            SpriteType::BlockMineRed => (102, 51, 16, 16),
            SpriteType::BlockMineX => (119, 51, 16, 16),
            SpriteType::Block1 => (0, 68, 16, 16),
            SpriteType::Block2 => (17, 68, 16, 16),
            SpriteType::Block3 => (34, 68, 16, 16),
            SpriteType::Block4 => (51, 68, 16, 16),
            SpriteType::Block5 => (68, 68, 16, 16),
            SpriteType::Block6 => (85, 68, 16, 16),
            SpriteType::Block7 => (102, 68, 16, 16),
            SpriteType::Block8 => (119, 68, 16, 16),
        }
    }
}

/// The face sprite for a game state.
pub open spec fn spec_sprite_for_game_state(state: GameState) -> SpriteType {
    match state {
        GameState::Reset | GameState::Playing => SpriteType::FaceSmileyUp,
        GameState::Completed => SpriteType::FaceCool,
        GameState::Dead => SpriteType::FaceXXX,
    }
}

pub fn sprite_for_game_state(state: GameState) -> (s: SpriteType)
    ensures
        s == spec_sprite_for_game_state(state),
{
    match state {
        GameState::Reset | GameState::Playing => SpriteType::FaceSmileyUp,
        GameState::Completed => SpriteType::FaceCool,
        GameState::Dead => SpriteType::FaceXXX,
    }
}

/// The block sprite for a display state.
pub open spec fn spec_sprite_for_grid(state: GridState) -> SpriteType {
    match state {
        GridState::Empty => SpriteType::BlockEmptyDown,
        GridState::Count(count) => spec_block_digit(count as int),
        GridState::Mine => SpriteType::BlockMine,
        GridState::Unrevealed => SpriteType::BlockEmptyUp,
        GridState::Flagged => SpriteType::BlockFlag,
        GridState::MineHighlighted => SpriteType::BlockMineRed,
        GridState::MineIncorrect => SpriteType::BlockMineX,
    }
}

pub fn sprite_for_grid(state: GridState) -> (s: SpriteType)
    requires
        state matches GridState::Count(count) ==> count <= 8,
    ensures
        s == spec_sprite_for_grid(state),
{
    match state {
        GridState::Empty => SpriteType::BlockEmptyDown,
        GridState::Count(count) => SpriteType::block_digit(count as u32),
        GridState::Mine => SpriteType::BlockMine,
        GridState::Unrevealed => SpriteType::BlockEmptyUp,
        GridState::Flagged => SpriteType::BlockFlag,
        GridState::MineHighlighted => SpriteType::BlockMineRed,
        GridState::MineIncorrect => SpriteType::BlockMineX,
    }
}

} // verus!
