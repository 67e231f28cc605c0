//! Placement of data over servers.

pub mod jump_hash;
