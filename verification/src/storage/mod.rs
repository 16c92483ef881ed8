//! Paper records, text chunks for retrieval, and record identifiers.
pub mod models;
pub mod embedding;
pub mod surrealdb;
