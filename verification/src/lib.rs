//! An in-memory directory of employees grouped by department.
//!
//! The library holds the logic of a small interactive program: a store
//! mapping department names to the employees added to them, a parser for
//! free-text add-commands of the shape `Add <name> to <department>`, the
//! sorted listings the program prints, and the menu state machine that
//! drives it. Reading input, printing and clearing the terminal are left
//! to the program around the library.

pub mod directory;
pub mod menu;
pub mod parser;
pub mod presenter;
pub mod sorting;
pub mod text;
