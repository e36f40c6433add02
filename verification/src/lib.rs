//! A small, verified todo store: the task entity, its on-disk text form,
//! and the pure mutation operations (add, edit, remove, list) over a
//! collection of tasks.  File and terminal handling live outside the
//! library; every function here works on already-resolved plain values.

pub mod cli;
pub mod codec;
pub mod store;
pub mod sys;
pub mod task;
