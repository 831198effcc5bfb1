//! A bounded worker pool written as a verified state machine.
//!
//! The pool owns a fixed set of workers and one shared first-in, first-out
//! queue of control messages. It never runs a job itself: a worker asks the
//! pool for its next action, runs the job it is handed, and reports back. The
//! caller supplies the execution units and the blocking; every decision about
//! who gets which message, and about when a worker retires, is made here.

pub mod http;
pub mod pool;
pub mod queue;
pub mod signal;
pub mod worker;
