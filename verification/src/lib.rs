//! The decisions of a minimal process supervisor that runs as the first
//! process of a container: what to launch, what to signal, whom to wait for,
//! and when it is safe to leave.
//!
//! Nothing in this crate touches the operating system. A driver performs
//! each [`supervisor::Action`] and reports what came of it as a
//! [`supervisor::Event`]; every decision in between is made here, and
//! [`runs`] states what holds of every run, whatever the driver reports.
//!
//! - [`pid`]: process handles and the two signals that are sent.
//! - [`target`]: the program on the command line and its argument vector.
//! - [`listing`]: the kernel's listing of a process's direct children.
//! - [`supervisor`]: the state machine.
//! - [`runs`]: what holds of every run.

pub mod listing;
pub mod pid;
pub mod runs;
pub mod supervisor;
pub mod target;
