//! Decisions, state machines and report lines of a set of channel programs:
//! message passing between threads and tasks, batching pipelines, rate
//! reporting, an actor, and a select loop.
pub mod decimal;
pub mod text;
pub mod rate;
pub mod batch;
pub mod actor;
pub mod select;
pub mod lines;
pub mod fanout;
pub mod fanin;
pub mod pipeline;
