//! Lists: a double-ended list, a queue and a persistent stack.

pub mod deque;
pub mod queue;
pub mod stack;
