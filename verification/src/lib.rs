//! Heuristic solvers for five optimisation puzzles, the scoring of their
//! answers, and the tokenised input reader they share.

pub mod helpers;
pub mod qualification2017;
pub mod qualification2018;
pub mod qualification2019;
pub mod qualification2020;
pub mod qualification2021;
