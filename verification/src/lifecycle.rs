//! What keeps a research session going: the event bus, the task queue and the
//! policies that start and end it.

pub mod bus;
pub mod policies;
pub mod queue;
