//! Concurrency primitives for single-core, interrupt-driven firmware:
//! an interrupt-safe shared-state cell, a bounded FIFO channel, and a
//! cooperative kernel that schedules scripted tasks, dispatches
//! interrupt handlers, and resolves multi-way waits.

pub mod cell;
pub mod channel;
pub mod control;
pub mod kernel;
pub mod sensor;
