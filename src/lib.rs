//! A verified virtual machine for a simple 8-bit architecture: memory,
//! sixteen data registers, a call stack, two countdown timers, a
//! monochrome bitmap display and a sixteen-key pad, with a binary
//! snapshot codec for saving and restoring sessions.
pub mod dialog;
pub mod input;
pub mod machine;
pub mod snapshot;
