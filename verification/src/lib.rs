//! Rules and move search for Othello on an 8x8 board.

pub mod board;
pub mod common;
pub mod rules;
pub mod ray_proofs;
pub mod referee;
pub mod search;
pub mod agent;
pub mod laws;
pub mod game;
pub mod scan_proofs;
pub mod count_proofs;
