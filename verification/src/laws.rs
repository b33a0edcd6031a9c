//! What holds of every tree: how paths, traversal, replacement, completeness and
//! queries agree.

pub mod complete;
pub mod queries;
pub mod reach;
pub mod replace;
pub mod tags;
