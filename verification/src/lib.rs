//! A toroidal (wrap-around) cellular automaton in the style of Conway's
//! Game of Life, tracking the generation at which each live cell was born.
//!
//! The engine is split into a board layer ([`board`]) — grid geometry,
//! wrap-around neighbour queries and aggregate queries — and a simulation
//! layer ([`game`]) — the birth/survival rule, step advancement, manual
//! edits, and stability detection.

pub mod board;
pub mod game;
mod rng;
