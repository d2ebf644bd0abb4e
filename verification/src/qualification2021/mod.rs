//! Timing the traffic lights of a city so that cars finish their trips.

pub mod check;
pub mod draft;
pub mod input;
pub mod model;
pub mod parse;
pub mod schedule;
pub mod simulate;
