pub mod board;
pub mod errors;
pub mod game;
pub mod hashing;
pub mod merkle;
pub mod queue;
