//! A minesweeper board engine: grid generation, flood-fill reveal and
//! win/loss evaluation, with every function's behaviour stated as a contract.

pub mod board;
pub mod cell;
pub mod flood;
pub mod generate;
pub mod grid;
pub mod input;
pub mod laws;
pub mod state;
