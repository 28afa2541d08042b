//! Evolves a small layered scoring network that plays on a cellular-automaton
//! board.
//!
//! - `game`: the board, its rule and the step from one generation to the next.
//! - `network`: the network, its layers and nodes, and the harness that feeds
//!   it from a state. Numbers are held as bit patterns; the arithmetic on them
//!   is asked of the caller, one operation at a time.
//! - `player`: shows the network the neighbourhood of every cell and changes
//!   the cell it prefers.
//! - `trainer`: the three elementary edits of a network, their batches, and the
//!   generation that mutates, scores and selects.
//! - `adapter`: the episodes that score a network, and the one that plays the
//!   game.
//! - `random`: the random draws, each behind a contract.
//! - `renderer` and `cli`: what a window and a command line need to show and
//!   steer a board.

pub mod adapter;
pub mod cli;
pub mod game;
pub mod network;
pub mod player;
pub mod random;
pub mod renderer;
pub mod trainer;
