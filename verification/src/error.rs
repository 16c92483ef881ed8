//! Error type of the library.
use vstd::prelude::*;

verus! {

/// `std::io::Error`, carried by `Error::Io`.
#[verifier::external_type_specification]
#[verifier::external_body]
pub struct ExIoError(std::io::Error);

/// What can go wrong in the agent library.
#[derive(Debug)]
pub enum Error {
    /// Configuration error.
    Config(String),
    /// MCP error.
    Mcp(String),
    /// Storage error.
    Storage(String),
    /// LLM error.
    Llm(String),
    /// Embedding service error.
    Embedding(String),
    /// I/O error.
    Io(std::io::Error),
    /// JSON error, with the JSON library's message.
    Json(String),
    /// HTTP error, with the HTTP client's message.
    Http(String),
}

/// Result type of the library.
pub type Result<T> = core::result::Result<T, Error>;

} // verus!
