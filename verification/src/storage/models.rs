//! Paper and chunk records.
use vstd::prelude::*;
use crate::text::{contains, contains_either, lower_chars, chars_of, lowercase};

verus! {

/// A paper's metadata.
#[derive(Debug, Clone)]
pub struct Paper {
    /// Record identifier (`paper:<key>`).
    pub id: String,
    /// Title.
    pub title: String,
    /// Abstract.
    pub abstract_text: String,
    /// Authors.
    pub authors: Vec<String>,
    /// Publication year.
    pub year: Option<i32>,
    /// Journal or venue.
    pub journal: Option<String>,
    /// DOI.
    pub doi: Option<String>,
    /// Where the PDF is.
    pub file_path: Option<String>,
    /// Tags.
    pub tags: Vec<String>,
    /// When the record was made, as RFC 3339 text.
    pub created_at: String,
}

/// Kind of a chunk.
#[derive(Debug, Clone, Copy, PartialEq, Eq)]
pub enum ChunkType {
    Title,
    Abstract,
    Introduction,
    Methods,
    Results,
    Discussion,
    Conclusion,
    References,
    Other,
}

/// The kind a lowercased text suggests, by the first keyword it contains,
/// in this order: abstract, introduction, method, result, discussion,
/// conclusion, reference (English or Chinese).
pub open spec fn chunk_type_of(low: Seq<char>) -> ChunkType {
    if contains(low, "abstract"@) || contains(low, "摘要"@) {
        ChunkType::Abstract
    } else if contains(low, "introduction"@) || contains(low, "引言"@) {
        ChunkType::Introduction
    } else if contains(low, "method"@) || contains(low, "方法"@) {
        ChunkType::Methods
    } else if contains(low, "result"@) || contains(low, "结果"@) {
        ChunkType::Results
    } else if contains(low, "discussion"@) || contains(low, "讨论"@) {
        ChunkType::Discussion
    } else if contains(low, "conclusion"@) || contains(low, "结论"@) {
        ChunkType::Conclusion
    } else if contains(low, "reference"@) || contains(low, "参考文献"@) {
        ChunkType::References
    } else {
        ChunkType::Other
    }
}

impl ChunkType {
    /// The kind a chunk's text suggests (see `chunk_type_of`), after
    /// lowercasing it.
    pub fn from_text(text: &str) -> (r: Self)
        ensures
            r == chunk_type_of(lowercase(text@)),
    {
        let low = lower_chars(&chars_of(text));
        if contains_either(&low, "abstract", "摘要") {
            ChunkType::Abstract
        } else if contains_either(&low, "introduction", "引言") {
            ChunkType::Introduction
        } else if contains_either(&low, "method", "方法") {
            ChunkType::Methods
        } else if contains_either(&low, "result", "结果") {
            ChunkType::Results
        } else if contains_either(&low, "discussion", "讨论") {
            ChunkType::Discussion
        } else if contains_either(&low, "conclusion", "结论") {
            ChunkType::Conclusion
        } else if contains_either(&low, "reference", "参考文献") {
            ChunkType::References
        } else {
            ChunkType::Other
        }
    }
}

/// A paper's summary, as search results show it.
#[derive(Debug, Clone)]
pub struct PaperInfo {
    pub id: String,
    pub title: String,
    pub authors: Vec<String>,
    pub year: Option<i32>,
    pub journal: Option<String>,
}

/// A chunk's summary, as search results show it.
#[derive(Debug, Clone)]
pub struct ChunkInfo {
    pub id: String,
    pub content: String,
    pub chunk_index: usize,
    pub page_number: Option<u32>,
    pub chunk_type: ChunkType,
}

/// A count returned by the database.
#[derive(Debug, Clone, Copy)]
pub struct CountResult {
    pub count: u64,
}

impl From<Paper> for PaperInfo {
    /// The paper's identifier, title, authors, year and journal.
    fn from(paper: Paper) -> (r: Self) {
        PaperInfo {
            id: paper.id,
            title: paper.title,
            authors: paper.authors,
            year: paper.year,
            journal: paper.journal,
        }
    }
}

impl vstd::std_specs::convert::FromSpecImpl<Paper> for PaperInfo {
    open spec fn obeys_from_spec() -> bool {
        true
    }

    open spec fn from_spec(paper: Paper) -> PaperInfo {
        PaperInfo {
            id: paper.id,
            title: paper.title,
            authors: paper.authors,
            year: paper.year,
            journal: paper.journal,
        }
    }
}

} // verus!
