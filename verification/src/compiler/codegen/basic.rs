//! Lowering of the plain statements.
pub mod assignment;
pub mod foreign_module;
pub mod function_definition;
pub mod return_statement;
