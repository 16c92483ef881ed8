//! PDF documents and paper chunking.
use vstd::prelude::*;
use crate::error::Error;
use crate::segment::{cut_paragraph, split_paragraph, char_views, has_paragraph, paragraph_chunks, paragraph_chunks_exec};
use crate::text::{chars_of, string_of};

verus! {

/// What `std::path::Path::file_stem` gives for a path: the file name without
/// its last extension, or `None` where the path has no file name.
pub uninterp spec fn file_stem(path: Seq<char>) -> Option<Seq<char>>;

/// Calls `Path::file_stem` on the path and converts the stem back to a
/// string; the result is named `file_stem` of the path.
#[verifier::external_body]
pub(crate) fn path_file_stem(path: &str) -> (r: Option<String>)
    ensures
        match r {
            Some(s) => file_stem(path@) == Some(s@),
            None => file_stem(path@) is None,
        },
{
    std::path::Path::new(path).file_stem().and_then(|s| s.to_str()).map(|s| s.to_string())
}

/// How many times `c` occurs in `s`.
pub open spec fn count_char(s: Seq<char>, c: char) -> nat
    decreases s.len(),
{
    if s.len() == 0 {
        0
    } else {
        count_char(s.drop_last(), c) + (if s.last() == c { 1nat } else { 0nat })
    }
}

/// The page count of an extracted text: one more than its form feeds.
pub open spec fn page_count_of(text: Seq<char>) -> nat {
    count_char(text, '\u{c}') + 1
}

/// Counts the form feeds of a text and adds one.
pub fn count_pages(text: &String) -> (n: usize)
    requires
        text@.len() <= isize::MAX,
    ensures
        n == page_count_of(text@),
{
    let v = chars_of(text.as_str());
    let mut n: usize = 0;
    let mut i: usize = 0;
    while i < v.len()
        invariant
            v@ == text@,
            v@.len() <= isize::MAX,
            i <= v.len(),
            n <= i,
            n == count_char(v@.take(i as int), '\u{c}'),
        decreases v.len() - i,
    {
        assert(v@.take(i + 1).drop_last() =~= v@.take(i as int));
        if v[i] == '\u{c}' {
            n = n + 1;
        }
        i = i + 1;
    }
    assert(v@.take(i as int) =~= v@);
    n + 1
}

/// A parsed PDF document.
#[derive(Debug, Clone)]
pub struct PdfDocument {
    /// Where the file is.
    pub file_path: String,
    /// The extracted text.
    pub text: String,
    /// The page count, estimated from the form feeds.
    pub page_count: usize,
}

/// PDF parser.
pub struct PdfParser;

impl PdfParser {
    /// The document of a PDF file from what the text extractor gave for its
    /// bytes: with the extracted text, the path and one more page than form
    /// feeds; or, when extraction failed, a storage error
    /// `PDF 解析失败: {reason}`. (A `String` holds at most `isize::MAX`
    /// bytes, so no more characters.)
    pub fn from_extraction(file_path: &str, extracted: core::result::Result<String, String>) -> (r: Result<PdfDocument, Error>)
        requires
            extracted matches Ok(t) ==> t@.len() <= isize::MAX,
        ensures
            match extracted {
                Ok(t) => r matches Ok(d) && d.file_path@ == file_path@ && d.text@ == t@ && d.page_count
                    == page_count_of(t@),
                Err(m) => r matches Err(Error::Storage(e)) && e@ == "PDF 解析失败: "@ + m@,
            },
    {
        match extracted {
            Ok(text) => {
                let page_count = count_pages(&text);
                Ok(PdfDocument { file_path: String::from_str(file_path), text, page_count })
            },
            Err(reason) => {
                let mut m = String::from_str("PDF 解析失败: ");
                m.append(reason.as_str());
                Err(Error::Storage(m))
            },
        }
    }

    /// The file name of a path without its extension (`Path::file_stem`).
    pub fn extract_title_from_filename(file_path: &str) -> (r: Option<String>)
        ensures
            match r {
                Some(s) => file_stem(file_path@) == Some(s@),
                None => file_stem(file_path@) is None,
            },
    {
        path_file_stem(file_path)
    }
}

/// Paper chunker.
pub struct PaperChunker {
    max_chunk_size: usize,
    overlap_size: usize,
}

impl PaperChunker {
    /// The size limit, in characters.
    pub closed spec fn limit(&self) -> usize {
        self.max_chunk_size
    }

    /// How many characters consecutive pieces of a long paragraph share.
    pub closed spec fn overlap(&self) -> usize {
        self.overlap_size
    }

    /// A chunker with the given limit and overlap.
    pub fn new(max_chunk_size: usize, overlap_size: usize) -> (r: Self)
        ensures
            r.limit() == max_chunk_size,
            r.overlap() == overlap_size,
    {
        Self { max_chunk_size, overlap_size }
    }

    /// The chunker suited to most papers: 1000 characters, overlap of 200.
    pub fn default() -> (r: Self)
        ensures
            r.limit() == 1000,
            r.overlap() == 200,
    {
        Self { max_chunk_size: 1000, overlap_size: 200 }
    }

    /// Cuts a paragraph longer than the limit into pieces (see
    /// `cut_paragraph`): each ends after the last sentence end of its window
    /// when there is one, and the next starts `overlap` characters before
    /// the previous one ends, when that still moves forward (see
    /// `law_cut_keeps_text`). A zero limit is only admitted for an empty
    /// paragraph.
    pub fn split_large_paragraph(&self, paragraph: &str) -> (r: Vec<String>)
        requires
            self.limit() > 0 || paragraph@.len() == 0,
        ensures
            r.deep_view() == cut_paragraph(paragraph@, self.limit() as nat, self.overlap() as nat),
    {
        split_paragraph(paragraph, self.max_chunk_size, self.overlap_size)
    }

    /// Chunks by paragraph (see `paragraph_chunks`). A zero limit is only
    /// admitted for texts without any paragraph: otherwise cutting never ends.
    pub fn chunk_by_paragraph(&self, text: &str) -> (r: Vec<String>)
        requires
            self.limit() > 0 || !has_paragraph(text@),
        ensures
            r.deep_view() == paragraph_chunks(text@, self.limit() as nat, self.overlap() as nat),
    {
        let parts = paragraph_chunks_exec(text, self.max_chunk_size, self.overlap_size);
        let mut r: Vec<String> = Vec::new();
        let mut i: usize = 0;
        while i < parts.len()
            invariant
                i <= parts.len(),
                r.deep_view() == char_views(parts@).take(i as int),
            decreases parts.len() - i,
        {
            let ghost before = r.deep_view();
            r.push(string_of(&parts[i]));
            assert(r.deep_view() =~= before.push(parts@[i as int]@));
            i = i + 1;
        }
        assert(char_views(parts@).take(i as int) =~= char_views(parts@));
        r
    }
}

} // verus!
