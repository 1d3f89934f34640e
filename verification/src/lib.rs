//! Enumeration of bounded-length move sequences ("algorithms") that take one
//! Rubik's-cube state to another, found by a bidirectional meet-in-the-middle
//! depth-first search over a verified model of the cube's move algebra.

pub mod cube;
pub mod error;
pub mod rotation;
pub mod search;
pub mod solver;
pub mod turns;
