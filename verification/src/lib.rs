//! A client core for a forum-style API: cursor-driven listings, comment trees
//! rebuilt from flat payloads, and a polling stream that hands out each new
//! comment once. The library decides and computes; fetching, waiting and
//! decoding are left to its caller.

pub mod errors;
pub mod listing;
pub mod comment_tree;
pub mod comment_stream;
pub mod responses;
pub mod submission;
pub mod submission_eq;
pub mod user;
