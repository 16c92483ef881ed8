//! Model Context Protocol: the host that keeps the tool servers.
pub mod host;
