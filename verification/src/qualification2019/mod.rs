//! Ordering photos into a slide show whose neighbours have tags in common
//! and tags apart.

pub mod agree;
pub mod album;
pub mod annealing;
pub mod bits;
pub mod check;
pub mod input;
pub mod random;
pub mod slideshow;
pub mod tags;
pub mod vector;
