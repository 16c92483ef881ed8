//! Cutting long texts into chunks suited to retrieval and reading.
use vstd::prelude::*;
use crate::segment::{cut_paragraph, split_paragraph, 
    char_views, has_paragraph, paragraph_chunks, paragraph_chunks_exec, overlapping_sentence_chunks,
    sentence_chunks_exec,
};
use crate::text::string_of;

verus! {

/// Kind of a chunk.
#[derive(Debug, Clone, Copy, PartialEq, Eq)]
pub enum ChunkType {
    Title,
    Abstract,
    Introduction,
    Methods,
    Results,
    Discussion,
    Conclusion,
    References,
    Other,
}

/// A chunk of a document.
#[derive(Debug, Clone)]
pub struct TextChunk {
    /// The chunk's text.
    pub content: String,
    /// Its position among the chunks of the document.
    pub index: usize,
    /// Its kind.
    pub chunk_type: ChunkType,
    /// The page it comes from, when known.
    pub page_number: Option<usize>,
}

/// Chunks are numbered from zero in order, are of kind `Other`, carry no page
/// number, and hold the given texts.
pub open spec fn numbered_chunks(r: Seq<TextChunk>, texts: Seq<Seq<char>>) -> bool {
    &&& r.len() == texts.len()
    &&& forall|i: int|
        0 <= i < r.len() ==> {
            &&& (#[trigger] r[i]).content@ == texts[i]
            &&& r[i].index == i
            &&& r[i].chunk_type == ChunkType::Other
            &&& r[i].page_number.is_none()
        }
}

/// Splits documents into chunks of bounded size.
pub struct Chunker {
    max_chunk_size: usize,
    overlap_size: usize,
}

impl Chunker {
    /// The size limit, in characters.
    pub closed spec fn limit(&self) -> usize {
        self.max_chunk_size
    }

    /// How many characters consecutive pieces of a long paragraph share.
    pub closed spec fn overlap(&self) -> usize {
        self.overlap_size
    }

    /// A chunker with the given limit and overlap.
    pub fn new(max_chunk_size: usize, overlap_size: usize) -> (r: Self)
        ensures
            r.limit() == max_chunk_size,
            r.overlap() == overlap_size,
    {
        Self { max_chunk_size, overlap_size }
    }

    /// The chunker suited to most papers: 1000 characters, overlap of 200.
    pub fn default() -> (r: Self)
        ensures
            r.limit() == 1000,
            r.overlap() == 200,
    {
        Self { max_chunk_size: 1000, overlap_size: 200 }
    }

    /// Cuts a paragraph longer than the limit into pieces (see
    /// `cut_paragraph`): each ends after the last sentence end of its window
    /// when there is one, and the next starts `overlap` characters before
    /// the previous one ends, when that still moves forward (see
    /// `law_cut_keeps_text`). A zero limit is only admitted for an empty
    /// paragraph.
    pub fn split_large_paragraph(&self, paragraph: &str) -> (r: Vec<String>)
        requires
            self.limit() > 0 || paragraph@.len() == 0,
        ensures
            r.deep_view() == cut_paragraph(paragraph@, self.limit() as nat, self.overlap() as nat),
    {
        split_paragraph(paragraph, self.max_chunk_size, self.overlap_size)
    }

    /// Chunks by paragraph (see `paragraph_chunks`). A zero limit is only
    /// admitted for texts without any paragraph: otherwise cutting never ends.
    pub fn chunk_by_paragraph(&self, text: &str) -> (r: Vec<TextChunk>)
        requires
            self.limit() > 0 || !has_paragraph(text@),
        ensures
            numbered_chunks(
                r@,
                paragraph_chunks(text@, self.limit() as nat, self.overlap() as nat),
            ),
    {
        let parts = paragraph_chunks_exec(text, self.max_chunk_size, self.overlap_size);
        Self::number_chunks(&parts)
    }

    /// Chunks by sentence, keeping context (see
    /// `overlapping_sentence_chunks`): each chunk after the first starts with
    /// the last `overlap` characters of the one before.
    pub fn chunk_by_sentence(&self, text: &str) -> (r: Vec<TextChunk>)
        ensures
            numbered_chunks(r@, overlapping_sentence_chunks(text@, self.limit() as nat, self.overlap() as nat)),
    {
        let parts = sentence_chunks_exec(text, self.max_chunk_size, self.overlap_size);
        Self::number_chunks(&parts)
    }

    /// Wraps texts into chunks numbered from zero.
    fn number_chunks(parts: &Vec<Vec<char>>) -> (r: Vec<TextChunk>)
        ensures
            numbered_chunks(r@, char_views(parts@)),
    {
        let mut r: Vec<TextChunk> = Vec::new();
        let mut i: usize = 0;
        while i < parts.len()
            invariant
                i <= parts.len(),
                numbered_chunks(r@, char_views(parts@).take(i as int)),
            decreases parts.len() - i,
        {
            let content = string_of(&parts[i]);
            r.push(TextChunk { content, index: i, chunk_type: ChunkType::Other, page_number: None });
            i = i + 1;
        }
        assert(char_views(parts@).take(i as int) =~= char_views(parts@));
        r
    }
}

} // verus!
