//! What workers run: the map functions that travel to them as a module.

pub mod frames;
pub mod titles;
