//! Small helpers shared by the rest of the crate.

pub mod chars;
