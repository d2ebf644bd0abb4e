//! Choosing which libraries sign up for book scanning, in which order,
//! and which books they send.

pub mod check;
pub mod model;
pub mod parse;
pub mod solve;
