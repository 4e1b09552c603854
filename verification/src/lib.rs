//! A verified dots-and-boxes game engine.
//!
//! The board tracks edge ("wall") clicks, derived cell ownership and
//! per-player scores, with the "extra move on box completion" rule.
//! Three computer opponents are built on top of it: a greedy policy,
//! a region-counting refinement, and a depth-limited minimax search
//! with alpha-beta pruning and a transposition table.

pub mod ai;
pub mod game;
