//! Planning where each file goes, and carrying the plan out step by step.

pub mod decimal;
pub mod destination;
pub mod disk;
pub mod errors;
pub mod moving;
pub mod names;
pub mod paths;
pub mod sorting_files;
