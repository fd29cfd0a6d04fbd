//! A small algorithms library built around a growable, contiguous sequence
//! container with manual capacity bookkeeping, together with the
//! collaborators that use it: undirected-graph representations loaded from
//! text, a singly linked list, and linear search. Every function carries a
//! contract checked by Verus.

pub mod error;
pub mod graph;
pub mod lists;
pub mod searching;
