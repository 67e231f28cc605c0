//! Verified data structures: three mergeable min-heaps behind one contract,
//! disjoint sets, linked lists, a list sort, and the integer side of jump
//! consistent hashing.

pub mod algorithm;
pub mod distributed;
pub mod lists;
pub mod order;
