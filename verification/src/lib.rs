//! Small verified data structures: a linked FIFO queue kept in an arena of
//! nodes, a binary search tree of integers, and a fixed demonstration graph.

pub mod bst;
pub mod digraph;
pub mod fifo;
pub mod graph;
pub mod queue;
