//! Interfaces with a checked open/read/write/close lifecycle, a multiplexer
//! that aligns records from several inputs into complete groups, and
//! bounds-checked two-phase parameters for the algorithm blocks in between.

pub mod interfaces;
pub mod log;
pub mod processor_base;
