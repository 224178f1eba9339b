//! Lowering of loops.
pub mod for_loop;
pub mod running;
pub mod while_loop;
