//! Pattern-driven cleanup of project trees: target selection, backup planning
//! and restore selection, with their file-system effects left to the caller.

pub mod paths;
pub mod pattern;
pub mod matcher;
pub mod scan;
pub mod label;
pub mod backup;
pub mod restore;
pub mod legacy;
pub mod processor;
