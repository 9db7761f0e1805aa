//! Collects a list of items and tallies yes/no votes for each of them.

pub mod text;
pub mod tally;
pub mod session;
