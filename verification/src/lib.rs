//! A verified Minesweeper core: board generation, the reveal/flag game
//! engine with flood-fill expansion and win/loss detection, and a local
//! single-cell deduction solver.

pub mod board;
pub mod counting;
pub mod game;
pub mod geometry;
pub mod reach;
pub mod solver;
pub mod sprites;
pub mod timer;
