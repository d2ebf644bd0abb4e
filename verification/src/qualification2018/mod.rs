//! Assigning rides to self-driving cars.

pub mod check;
pub mod model;
pub mod parse;
pub mod solve;
