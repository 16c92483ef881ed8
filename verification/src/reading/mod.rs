//! The reading service: PDF structure extraction, chunking and the tool
//! helpers built on them.
pub mod chunk;
pub mod pdf;
pub mod tools;
