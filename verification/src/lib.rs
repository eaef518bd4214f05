//! A cell-machine automaton: a bounded grid of typed, oriented cells that
//! push, pull, rotate, generate and destroy one another once per tick, and a
//! codec that writes a grid as a compact line of text and reads it back.
//!
//! Everything here is verified: each operation on the grid states the board
//! it leaves behind as a function of the board it was given.

pub mod cell_data;
pub mod cells;
pub mod codes;
pub mod direction;
pub mod manipulation;
pub mod numerals;
pub mod roundtrip;
pub mod outside;
pub mod runs;
pub mod text;
pub mod tools;
pub mod undo;
pub mod update;
