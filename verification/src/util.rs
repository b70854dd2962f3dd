//! Helpers shared by the features.

pub mod cursor;
