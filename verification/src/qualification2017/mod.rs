//! Placing videos on cache servers so that requests are served faster.

pub mod check;
pub mod greedy;
pub mod index;
pub mod model;
pub mod parse;
pub mod report;
