//! Decision engine for a turn-based multi-agent grid survival game.
//!
//! The crate models the shared board, applies simultaneous joint moves with
//! fixed growth, starvation and elimination rules, enumerates candidate joint
//! moves, and chooses the controlled agent's next move either by a bounded
//! exhaustive search over joint successor states or by a greedy shortest-path
//! policy over the grid.

pub mod cosmetics;
pub mod entities;
pub mod enumerator;
pub mod geometry;
pub mod heuristic;
pub mod search;
pub mod simulator;
pub mod successor;
