//! Input handling shared by all solvers.

pub mod flags;
pub mod input_reader;
pub mod names;
pub mod red;
pub mod sort;
pub mod token;
