//! A data-access layer over a catalogue of books, authors, and the
//! many-to-many relationship between them.
//!
//! The store itself is modelled as an explicit in-memory [`store::Catalog`]
//! value that is passed into every operation; a process that keeps its rows
//! in an external datastore drives the same logic by fetching rows into the
//! types of [`models`] and applying the results back.

pub mod laws;
pub mod models;
pub mod queries;
pub mod seed;
pub mod store;
