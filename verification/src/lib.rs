//! Block join: a query over child documents, answered with their parents.
//!
//! Documents are indexed in blocks, the children first and their parent last.
//! A join walks the parents of a segment in ascending order and scores each one
//! from the matching children of its block.
pub mod block_join_query;
pub mod block_join_scorer;
pub mod block_join_weight;
pub mod error;
pub mod laws;
pub mod members;
pub mod postings;
pub mod query;
pub mod score;
pub mod scorer;
pub mod vocabulary;
pub mod weight;
