//! Lowering of branches.
pub mod if_statement;
