//! A maze that is built lazily, one cell at a time, as a player explores it.
//!
//! The grid keeps every wall as a single fact shared by the two cells on its
//! sides; a cell's walls are generated the first time the player enters it and
//! never change afterwards.
pub mod coords;
pub mod grid;
pub mod selector;
pub mod session;
