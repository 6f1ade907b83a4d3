//! The state circuit: the constraints on the table of reads and writes.

pub mod constraint_builder;
pub mod indicators;
