//! Arithmetization of a batch of transactions into a table of field-element
//! rows, together with the polynomial constraints and lookups that the rows
//! have to satisfy.

pub mod constraint_builder;
pub mod expr;
pub mod field;
pub mod gadgets;
pub mod plonk;
pub mod semantics;
pub mod state_circuit;
pub mod table;
pub mod tx_circuit;
pub mod util;
pub mod witness;
