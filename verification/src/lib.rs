//! Exhaustive single-turn search for a two-row stone-sowing board game.
//!
//! A board has two sides of six bins plus a store each. One player chains
//! moves (sowing, chain re-sowing, captures, bonus turns) until the turn
//! ends; the search enumerates every such chain and ranks the terminal
//! boards by the score banked in the player's store.

pub mod board;
pub mod moves;
pub mod rank;
pub mod tree;
