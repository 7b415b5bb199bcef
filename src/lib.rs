//! A referee for a gravity-drop four-in-a-row game played between two
//! untrusted agents, over a bit-packed board stored relative to the player
//! who moved last.
pub mod board;
pub mod win;
pub mod referee;
