//! A compiler front end for a small imperative scripting language: source
//! text is parsed into a syntax tree, and the tree is lowered into a stream
//! of build steps in static single assignment form that a code generation
//! back end replays.
pub mod cli;
pub mod compiler;
pub mod parser;
