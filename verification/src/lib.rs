pub mod board;
pub mod engine;
