//! Arithmetic and protocol-description core of a STARK proof toolkit:
//! a 64-bit prime field with a fast folding reduction, and the descriptor
//! that lays out which polynomial oracles a FRI low-degree test opens where.

pub mod crandall_field;
pub mod field_laws;
pub mod fri;
pub mod stark;
