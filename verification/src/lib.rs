//! Sorting the files of a directory into folders named by their extensions.
//!
//! The library plans and decides; it never touches the disk. A caller hands it
//! what was found on disk as plain values, and carries out the actions that it
//! hands back.

pub mod builders;
pub mod sorting;
