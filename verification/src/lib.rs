//! A tape machine with twelve instructions: a data tape that grows on demand,
//! a data pointer, an instruction pointer and a one-slot register.
//!
//! The library decides; it performs no console traffic itself. Whoever drives
//! the machine supplies what was read and prints what comes back.

pub mod args;
pub mod command;
pub mod console;
pub mod engine;
pub mod error;
pub mod laws;
pub mod machine;
pub mod program;
pub mod scan;
