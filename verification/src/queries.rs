//! The store operations: single-table reads and writes per entity, the
//! association write, and the relationship aggregates.

pub mod author_queries;
pub mod book_author_queries;
pub mod book_queries;
