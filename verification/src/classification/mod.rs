//! Classification of papers by tags.
pub mod tagging;
