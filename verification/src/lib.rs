//! Conway's Game of Life on an unbounded grid.
//!
//! [`LifeGame`] holds one generation as a sparse set of live cells with a
//! cached bounding box, and [`LifeGame::step`] advances it. The contracts are
//! stated over [`generation::Generation`], the mathematical value of a board,
//! and over the rule in [`rules`].

pub mod cells;
pub mod game;
pub mod generation;
pub mod rules;
pub mod text;

pub use game::LifeGame;
