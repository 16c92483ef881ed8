use vstd::prelude::*;

pub mod classification;
pub mod config;
pub mod error;
pub mod text;
pub mod segment;
pub mod pdf;
pub mod storage;
pub mod reading;
pub mod tools;
pub mod llm;
pub mod mcp;
pub mod agent;
pub mod console;
pub mod api;
