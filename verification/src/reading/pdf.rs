//! PDF documents with their section structure.
use vstd::prelude::*;
use crate::pdf::{count_pages, file_stem, page_count_of, path_file_stem};
use crate::text::{
    chars_of, contains, contains_either, contains_exec, copy_range, is_space, line_ranges, lines, literal,
    lower_chars, lowercase, push_all, range_texts, ranges_within, starts_with, starts_with_exec,
    string_of, trim, trim_bounds, upper_chars, uppercase, utf8_len, utf8_longer_than,
};

verus! {

broadcast use vstd::seq_lib::group_seq_properties;

/// Errors of PDF parsing.
#[derive(Debug)]
pub enum PdfError {
    /// The file does not exist.
    FileNotFound(String),
    /// The text could not be extracted.
    ParseError(String),
    /// Reading the file failed.
    IoError(std::io::Error),
}

/// Kind of a section.
#[derive(Debug, Clone, Copy, PartialEq, Eq)]
pub enum SectionType {
    Title,
    Abstract,
    Introduction,
    RelatedWork,
    Methods,
    Experiments,
    Results,
    Discussion,
    Conclusion,
    References,
    Appendix,
    Other,
}

/// The display name of a section kind.
pub open spec fn section_label(k: SectionType) -> Seq<char> {
    match k {
        SectionType::Title => "Title"@,
        SectionType::Abstract => "Abstract"@,
        SectionType::Introduction => "Introduction"@,
        SectionType::RelatedWork => "Related Work"@,
        SectionType::Methods => "Methods"@,
        SectionType::Experiments => "Experiments"@,
        SectionType::Results => "Results"@,
        SectionType::Discussion => "Discussion"@,
        SectionType::Conclusion => "Conclusion"@,
        SectionType::References => "References"@,
        SectionType::Appendix => "Appendix"@,
        SectionType::Other => "Other"@,
    }
}

impl SectionType {
    /// The display name ("Related Work" for related work; the variant's name
    /// otherwise).
    pub fn to_string(&self) -> (r: String)
        ensures
            r@ == section_label(*self),
    {
        match self {
            SectionType::Title => String::from_str("Title"),
            SectionType::Abstract => String::from_str("Abstract"),
            SectionType::Introduction => String::from_str("Introduction"),
            SectionType::RelatedWork => String::from_str("Related Work"),
            SectionType::Methods => String::from_str("Methods"),
            SectionType::Experiments => String::from_str("Experiments"),
            SectionType::Results => String::from_str("Results"),
            SectionType::Discussion => String::from_str("Discussion"),
            SectionType::Conclusion => String::from_str("Conclusion"),
            SectionType::References => String::from_str("References"),
            SectionType::Appendix => String::from_str("Appendix"),
            SectionType::Other => String::from_str("Other"),
        }
    }
}

/// A section of a document.
#[derive(Debug, Clone)]
pub struct Section {
    /// The section's title (the display name of its kind).
    pub title: String,
    /// Its kind.
    pub section_type: SectionType,
    /// Its text.
    pub content: String,
    /// The page it starts on, when known.
    pub start_page: Option<usize>,
}

/// Document metadata.
#[derive(Debug, Clone)]
pub struct DocumentMetadata {
    /// Title.
    pub title: Option<String>,
    /// Authors.
    pub authors: Vec<String>,
    /// Abstract.
    pub abstract_text: Option<String>,
    /// Keywords.
    pub keywords: Vec<String>,
}

/// A document's structure.
#[derive(Debug, Clone)]
pub struct DocumentStructure {
    /// The sections, in order.
    pub sections: Vec<Section>,
    /// The metadata.
    pub metadata: DocumentMetadata,
}

/// A parsed PDF document.
#[derive(Debug, Clone)]
pub struct PdfDocument {
    /// Where the file is.
    pub file_path: String,
    /// The extracted text.
    pub text: String,
    /// The page count, estimated from the form feeds.
    pub page_count: usize,
    /// The section structure.
    pub structure: DocumentStructure,
}

// ---------------------------------------------------------------------------
// Headers and section kinds
// ---------------------------------------------------------------------------

/// The words that mark a section header.
pub open spec fn header_literals() -> Seq<&'static str> {
    seq![
        "Introduction", "Abstract", "Conclusion", "References", "Related Work", "Method",
        "Experiment", "Result", "Discussion", "引言", "摘要", "结论", "参考文献", "方法", "实验",
        "结果", "讨论",
    ]
}

/// Some header word, uppercased, occurs in the uppercased line.
pub open spec fn has_header_word(upper: Seq<char>) -> bool {
    exists|k: int|
        0 <= k < header_literals().len() && contains(upper, uppercase(#[trigger] header_literals()[k]@))
}

/// A line is a section header when, uppercased, it contains an uppercased
/// header word, or when it is shorter than 100 bytes and starts with an ASCII
/// digit (a numbered heading).
pub open spec fn is_header(line: Seq<char>) -> bool {
    has_header_word(uppercase(line)) || (utf8_len(line) < 100 && line.len() > 0 && '0' <= line[0]
        && line[0] <= '9')
}

/// The section names that make a line a header, whatever its case: a line
/// whose uppercase contains the uppercase of Introduction, Abstract,
/// Conclusion, References, Related Work, Method, Experiment, Result,
/// Discussion, 引言, 摘要, 结论, 参考文献, 方法, 实验, 结果 or 讨论 is a section
/// header.
pub proof fn law_section_names_are_headers(line: Seq<char>, k: int)
    requires
        0 <= k < 17,
        contains(
            uppercase(line),
            uppercase(
                seq![
                    "Introduction", "Abstract", "Conclusion", "References", "Related Work",
                    "Method", "Experiment", "Result", "Discussion", "引言", "摘要", "结论",
                    "参考文献", "方法", "实验", "结果", "讨论",
                ][k]@,
            ),
        ),
    ensures
        is_header(line),
{
    let names: Seq<&'static str> = seq![
        "Introduction", "Abstract", "Conclusion", "References", "Related Work", "Method",
        "Experiment", "Result", "Discussion", "引言", "摘要", "结论", "参考文献", "方法", "实验",
        "结果", "讨论",
    ];
    assert(names =~= header_literals());
    assert(contains(uppercase(line), uppercase(header_literals()[k]@)));
}

/// Nothing else makes a line a section header: a line is one exactly when
/// its uppercase contains the uppercase of one of the section names, or
/// when it is a numbered heading (under 100 bytes, starting with an ASCII
/// digit).
pub proof fn law_headers_exactly(line: Seq<char>)
    ensures
        is_header(line) <==> (
            contains(uppercase(line), uppercase("Introduction"@))
            || contains(uppercase(line), uppercase("Abstract"@))
            || contains(uppercase(line), uppercase("Conclusion"@))
            || contains(uppercase(line), uppercase("References"@))
            || contains(uppercase(line), uppercase("Related Work"@))
            || contains(uppercase(line), uppercase("Method"@))
            || contains(uppercase(line), uppercase("Experiment"@))
            || contains(uppercase(line), uppercase("Result"@))
            || contains(uppercase(line), uppercase("Discussion"@))
            || contains(uppercase(line), uppercase("引言"@))
            || contains(uppercase(line), uppercase("摘要"@))
            || contains(uppercase(line), uppercase("结论"@))
            || contains(uppercase(line), uppercase("参考文献"@))
            || contains(uppercase(line), uppercase("方法"@))
            || contains(uppercase(line), uppercase("实验"@))
            || contains(uppercase(line), uppercase("结果"@))
            || contains(uppercase(line), uppercase("讨论"@))
            || (utf8_len(line) < 100 && line.len() > 0 && '0' <= line[0] && line[0] <= '9')
        ),
{
    let names: Seq<&'static str> = seq![
        "Introduction", "Abstract", "Conclusion", "References", "Related Work", "Method",
        "Experiment", "Result", "Discussion", "引言", "摘要", "结论", "参考文献", "方法", "实验",
        "结果", "讨论",
    ];
    assert(names =~= header_literals());
    if has_header_word(uppercase(line)) {
        let k = choose|k: int|
            0 <= k < header_literals().len() && contains(
                uppercase(line),
                uppercase(#[trigger] header_literals()[k]@),
            );
        assert(names[k] == header_literals()[k]);
        assert(k == 0 || k == 1 || k == 2 || k == 3 || k == 4 || k == 5 || k == 6 || k == 7 || k == 8
            || k == 9 || k == 10 || k == 11 || k == 12 || k == 13 || k == 14 || k == 15 || k == 16);
    }
    if contains(uppercase(line), uppercase("Introduction"@)) {
        assert(header_literals()[0] == "Introduction");
    }
    if contains(uppercase(line), uppercase("Abstract"@)) {
        assert(header_literals()[1] == "Abstract");
    }
    if contains(uppercase(line), uppercase("Conclusion"@)) {
        assert(header_literals()[2] == "Conclusion");
    }
    if contains(uppercase(line), uppercase("References"@)) {
        assert(header_literals()[3] == "References");
    }
    if contains(uppercase(line), uppercase("Related Work"@)) {
        assert(header_literals()[4] == "Related Work");
    }
    if contains(uppercase(line), uppercase("Method"@)) {
        assert(header_literals()[5] == "Method");
    }
    if contains(uppercase(line), uppercase("Experiment"@)) {
        assert(header_literals()[6] == "Experiment");
    }
    if contains(uppercase(line), uppercase("Result"@)) {
        assert(header_literals()[7] == "Result");
    }
    if contains(uppercase(line), uppercase("Discussion"@)) {
        assert(header_literals()[8] == "Discussion");
    }
    if contains(uppercase(line), uppercase("引言"@)) {
        assert(header_literals()[9] == "引言");
    }
    if contains(uppercase(line), uppercase("摘要"@)) {
        assert(header_literals()[10] == "摘要");
    }
    if contains(uppercase(line), uppercase("结论"@)) {
        assert(header_literals()[11] == "结论");
    }
    if contains(uppercase(line), uppercase("参考文献"@)) {
        assert(header_literals()[12] == "参考文献");
    }
    if contains(uppercase(line), uppercase("方法"@)) {
        assert(header_literals()[13] == "方法");
    }
    if contains(uppercase(line), uppercase("实验"@)) {
        assert(header_literals()[14] == "实验");
    }
    if contains(uppercase(line), uppercase("结果"@)) {
        assert(header_literals()[15] == "结果");
    }
    if contains(uppercase(line), uppercase("讨论"@)) {
        assert(header_literals()[16] == "讨论");
    }
}

/// The kind a header names, by the first keyword its lowercase contains.
pub open spec fn section_kind(line: Seq<char>) -> SectionType {
    let low = lowercase(line);
    if contains(low, "abstract"@) || contains(low, "摘要"@) {
        SectionType::Abstract
    } else if contains(low, "introduction"@) || contains(low, "引言"@) {
        SectionType::Introduction
    } else if contains(low, "related work"@) || contains(low, "相关工作"@) {
        SectionType::RelatedWork
    } else if contains(low, "method"@) || contains(low, "方法"@) {
        SectionType::Methods
    } else if contains(low, "experiment"@) || contains(low, "实验"@) {
        SectionType::Experiments
    } else if contains(low, "result"@) || contains(low, "结果"@) {
        SectionType::Results
    } else if contains(low, "discussion"@) || contains(low, "讨论"@) {
        SectionType::Discussion
    } else if contains(low, "conclusion"@) || contains(low, "结论"@) {
        SectionType::Conclusion
    } else if contains(low, "reference"@) || contains(low, "参考文献"@) {
        SectionType::References
    } else if contains(low, "appendix"@) || contains(low, "附录"@) {
        SectionType::Appendix
    } else if contains(low, "title"@) && utf8_len(line) < 100 {
        SectionType::Title
    } else {
        SectionType::Other
    }
}

// ---------------------------------------------------------------------------
// Structure extraction
// ---------------------------------------------------------------------------

/// A section as text.
pub struct SectionText {
    pub title: Seq<char>,
    pub kind: SectionType,
    pub content: Seq<char>,
}

/// The state of the structure scan: the sections found, the text of the
/// current section, its kind, whether an abstract is being read, and the
/// abstract found.
pub struct Outline {
    pub sections: Seq<SectionText>,
    pub current: Seq<char>,
    pub kind: SectionType,
    pub in_abstract: bool,
    pub abstract_text: Option<Seq<char>>,
}

/// The state before any line.
pub open spec fn empty_outline() -> Outline {
    Outline {
        sections: seq![],
        current: seq![],
        kind: SectionType::Other,
        in_abstract: false,
        abstract_text: None,
    }
}

/// The sections with the current one closed, if it holds text.
pub open spec fn close_section(st: Outline) -> Seq<SectionText> {
    if st.current.len() > 0 {
        st.sections.push(SectionText { title: section_label(st.kind), kind: st.kind, content: st.current })
    } else {
        st.sections
    }
}

/// One trimmed line of the scan: a header closes the current section and
/// starts one of the kind it names; a line starting (in lowercase) with
/// "abstract" starts reading the abstract; an empty line while reading it
/// ends it, the text gathered so far becoming the abstract; any other line
/// is added to the current section's text, on a line of its own.
pub open spec fn outline_step(st: Outline, line: Seq<char>) -> Outline {
    if is_header(line) {
        Outline { sections: close_section(st), current: seq![], kind: section_kind(line), ..st }
    } else if starts_with(lowercase(line), "abstract"@) {
        Outline { in_abstract: true, kind: SectionType::Abstract, ..st }
    } else if st.in_abstract && line.len() == 0 {
        if st.current.len() > 0 {
            Outline { in_abstract: false, abstract_text: Some(st.current), current: seq![], ..st }
        } else {
            Outline { in_abstract: false, ..st }
        }
    } else {
        Outline {
            current: if st.current.len() > 0 {
                st.current + seq!['\n'] + line
            } else {
                line
            },
            ..st
        }
    }
}

/// The state after the given lines, each trimmed.
pub open spec fn outline_of(ls: Seq<Seq<char>>) -> Outline
    decreases ls.len(),
{
    if ls.len() == 0 {
        empty_outline()
    } else {
        outline_step(outline_of(ls.drop_last()), trim(ls.last()))
    }
}

/// The structure a text's lines give: the sections, the last one closed at
/// the end, and the abstract found.
pub open spec fn structure_of(text: Seq<char>) -> Outline {
    let st = outline_of(lines(text));
    Outline { sections: close_section(st), ..st }
}

/// A section's text.
pub open spec fn section_view(s: Section) -> SectionText {
    SectionText { title: s.title@, kind: s.section_type, content: s.content@ }
}

/// The texts of some sections.
pub open spec fn section_views(ss: Seq<Section>) -> Seq<SectionText> {
    ss.map_values(|s: Section| section_view(s))
}

/// An optional string's text.
pub open spec fn opt_view(o: Option<String>) -> Option<Seq<char>> {
    match o {
        Some(s) => Some(s@),
        None => None,
    }
}

/// `d` is the structure of `text`: its sections and its abstract, with no
/// title, authors or keywords and no start pages.
pub open spec fn structure_matches(d: DocumentStructure, text: Seq<char>) -> bool {
    &&& section_views(d.sections@) == structure_of(text).sections
    &&& forall|i: int| 0 <= i < d.sections@.len() ==> (#[trigger] d.sections@[i]).start_page.is_none()
    &&& opt_view(d.metadata.abstract_text) == structure_of(text).abstract_text
    &&& d.metadata.title.is_none()
    &&& d.metadata.authors@.len() == 0
    &&& d.metadata.keywords@.len() == 0
}

/// PDF parser.
pub struct PdfParser;

impl PdfParser {
    /// The document of a PDF file from what the text extractor gave for its
    /// bytes: the path, the extracted text, one more page than form feeds,
    /// and the structure of the text (see `structure_of`); or, when
    /// extraction failed, a parse error with the extractor's reason.
    pub fn from_extraction(file_path: &str, extracted: Result<String, String>) -> (r: Result<PdfDocument, PdfError>)
        requires
            extracted matches Ok(t) ==> t@.len() <= isize::MAX,
        ensures
            match extracted {
                Ok(t) => r matches Ok(d) && d.file_path@ == file_path@ && d.text@ == t@ && d.page_count
                    == page_count_of(t@) && structure_matches(d.structure, t@),
                Err(m) => r matches Err(PdfError::ParseError(e)) && e@ == m@,
            },
    {
        match extracted {
            Ok(text) => {
                let page_count = count_pages(&text);
                let structure = Self::extract_structure(text.as_str());
                Ok(PdfDocument { file_path: String::from_str(file_path), text, page_count, structure })
            },
            Err(reason) => Err(PdfError::ParseError(reason)),
        }
    }

    /// The file name of a path without its extension (`Path::file_stem`).
    pub fn extract_title_from_filename(file_path: &str) -> (r: Option<String>)
        ensures
            match r {
                Some(s) => file_stem(file_path@) == Some(s@),
                None => file_stem(file_path@) is None,
            },
    {
        path_file_stem(file_path)
    }

    /// Whether a line is a section header (see `is_header`).
    pub fn is_section_header(line: &str) -> (r: bool)
        ensures
            r == is_header(line@),
    {
        let chars = chars_of(line);
        let upper = upper_chars(&chars);
        let patterns = vec![
            "Introduction", "Abstract", "Conclusion", "References", "Related Work", "Method",
            "Experiment", "Result", "Discussion", "引言", "摘要", "结论", "参考文献", "方法", "实验",
            "结果", "讨论",
        ];
        assert(patterns@ =~= header_literals());
        let mut k: usize = 0;
        while k < patterns.len()
            invariant
                patterns@ == header_literals(),
                upper@ == uppercase(line@),
                k <= patterns.len(),
                forall|j: int| 0 <= j < k ==> !contains(upper@, uppercase(#[trigger] header_literals()[j]@)),
            decreases patterns.len() - k,
        {
            let p = upper_chars(&chars_of(patterns[k]));
            if contains_exec(&upper, &p) {
                assert(has_header_word(uppercase(line@)));
                return true;
            }
            k = k + 1;
        }
        assert(!has_header_word(uppercase(line@)));
        if !utf8_longer_than(&chars, 99) && chars.len() > 0 {
            let c = chars[0];
            return '0' <= c && c <= '9';
        }
        false
    }

    /// The kind of section a header names (see `section_kind`).
    pub fn identify_section_type(line: &str) -> (r: SectionType)
        ensures
            r == section_kind(line@),
    {
        let chars = chars_of(line);
        let low = lower_chars(&chars);
        if contains_either(&low, "abstract", "摘要") {
            SectionType::Abstract
        } else if contains_either(&low, "introduction", "引言") {
            SectionType::Introduction
        } else if contains_either(&low, "related work", "相关工作") {
            SectionType::RelatedWork
        } else if contains_either(&low, "method", "方法") {
            SectionType::Methods
        } else if contains_either(&low, "experiment", "实验") {
            SectionType::Experiments
        } else if contains_either(&low, "result", "结果") {
            SectionType::Results
        } else if contains_either(&low, "discussion", "讨论") {
            SectionType::Discussion
        } else if contains_either(&low, "conclusion", "结论") {
            SectionType::Conclusion
        } else if contains_either(&low, "reference", "参考文献") {
            SectionType::References
        } else if contains_either(&low, "appendix", "附录") {
            SectionType::Appendix
        } else if contains_exec(&low, &literal("title")) && !utf8_longer_than(&chars, 99) {
            SectionType::Title
        } else {
            SectionType::Other
        }
    }

    /// Closes the current section into `sections` when it holds text.
    fn close_exec(sections: &mut Vec<Section>, current: &Vec<char>, kind: SectionType)
        ensures
            section_views(final(sections)@) == close_section(
                Outline {
                    sections: section_views(old(sections)@),
                    current: current@,
                    kind: kind,
                    in_abstract: false,
                    abstract_text: None,
                },
            ),
            forall|i: int| 0 <= i < old(sections)@.len() ==> final(sections)@[i] == old(sections)@[i],
            final(sections)@.len() >= old(sections)@.len(),
            forall|i: int| old(sections)@.len() <= i < final(sections)@.len() ==> (#[trigger] final(sections)@[i]).start_page.is_none(),
    {
        if current.len() > 0 {
            let ghost before = sections@;
            sections.push(Section {
                title: kind.to_string(),
                section_type: kind,
                content: string_of(current),
                start_page: None,
            });
            assert(section_views(sections@) =~= section_views(before).push(
                SectionText { title: section_label(kind), kind: kind, content: current@ },
            ));
        }
    }

    /// The section structure of a text (see `structure_of`).
    pub fn extract_structure(text: &str) -> (r: DocumentStructure)
        ensures
            structure_matches(r, text@),
    {
        let chars = chars_of(text);
        let ranges = line_ranges(&chars);
        let ghost ls = lines(text@);
        let abstract_word = literal("abstract");
        let mut sections: Vec<Section> = Vec::new();
        let mut current: Vec<char> = Vec::new();
        let mut kind = SectionType::Other;
        let mut in_abstract = false;
        let mut abstract_text: Option<String> = None;
        let mut k: usize = 0;
        assert(section_views(sections@) =~= seq![]);
        while k < ranges.len()
            invariant
                chars@ == text@,
                abstract_word@ == "abstract"@,
                ranges_within(ranges@, chars.len() as nat),
                range_texts(chars@, ranges@) == ls,
                ls == lines(text@),
                k <= ranges.len(),
                forall|i: int| 0 <= i < sections@.len() ==> (#[trigger] sections@[i]).start_page.is_none(),
                (Outline {
                    sections: section_views(sections@),
                    current: current@,
                    kind: kind,
                    in_abstract: in_abstract,
                    abstract_text: opt_view(abstract_text),
                }) == outline_of(ls.take(k as int)),
            decreases ranges.len() - k,
        {
            let (lo, hi) = ranges[k];
            let (a, b) = trim_bounds(&chars, lo, hi);
            let line = copy_range(&chars, a, b);
            assert(ls[k as int] == chars@.subrange(lo as int, hi as int));
            assert(line@ == trim(ls[k as int]));
            assert(ls.take(k + 1).drop_last() =~= ls.take(k as int));
            let line_str = string_of(&line);
            let ghost st = outline_of(ls.take(k as int));
            let ghost next = outline_step(st, line@);
            assert(outline_of(ls.take(k + 1)) == next);
            if Self::is_section_header(line_str.as_str()) {
                Self::close_exec(&mut sections, &current, kind);
                kind = Self::identify_section_type(line_str.as_str());
                current = Vec::new();
                assert(section_views(sections@) == next.sections);
            } else {
                let low = lower_chars(&line);
                if starts_with_exec(&low, &abstract_word) {
                    in_abstract = true;
                    kind = SectionType::Abstract;
                } else if in_abstract && line.len() == 0 {
                    in_abstract = false;
                    if current.len() > 0 {
                        abstract_text = Some(string_of(&current));
                        current = Vec::new();
                        assert(opt_view(abstract_text) == next.abstract_text);
                    }
                } else {
                    let ghost before = current@;
                    if current.len() > 0 {
                        current.push('\n');
                    }
                    push_all(&mut current, &line);
                    assert(current@ == next.current);
                }
            }
            k = k + 1;
        }
        assert(ls.take(k as int) =~= ls);
        Self::close_exec(&mut sections, &current, kind);
        DocumentStructure {
            sections,
            metadata: DocumentMetadata {
                title: None,
                authors: Vec::new(),
                abstract_text,
                keywords: Vec::new(),
            },
        }
    }
}

} // verus!
