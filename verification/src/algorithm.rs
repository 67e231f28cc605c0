//! Heaps, disjoint sets and sorting.

pub mod binary_heap;
pub mod heap;
pub mod leftist_heap;
pub mod lsort;
pub mod pairing_heap;
pub mod union_find;
