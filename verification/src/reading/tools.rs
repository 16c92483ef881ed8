//! What the reading server's tools compute: which tool a call names, the
//! titles, previews, comparisons, Markdown and candidate terms they report,
//! and their messages. Reading the files and the JSON of the calls is done by
//! the application around this library.
use vstd::prelude::*;
use crate::pdf::{file_stem, path_file_stem};
use crate::reading::chunk::{numbered_chunks, Chunker, TextChunk};
use crate::reading::pdf::{DocumentStructure, PdfDocument, PdfError, Section, SectionType};
use crate::segment::{join, join_strings, paragraph_chunks};
use crate::text::{
    decimal, decimal_string,
    chars_equal, chars_of, copy_range, is_uppercase, range_texts, ranges_within, string_of,
    trim, trim_bounds, upper_letter, utf8_len, utf8_longer_than, word_ranges, words,
};

verus! {

broadcast use vstd::seq_lib::group_seq_properties;

// ---------------------------------------------------------------------------
// The tools
// ---------------------------------------------------------------------------

/// The tools of the reading server, in the order they are listed.
#[derive(Debug, Clone, Copy, PartialEq, Eq)]
pub enum ReadingTool {
    LiteratureSearch,
    SummarizePaper,
    ComparePapers,
    ExtractKeyEntities,
    GetPaperFulltext,
}

/// A tool's name.
pub open spec fn tool_name(t: ReadingTool) -> Seq<char> {
    match t {
        ReadingTool::LiteratureSearch => "literature_search"@,
        ReadingTool::SummarizePaper => "summarize_paper"@,
        ReadingTool::ComparePapers => "compare_papers"@,
        ReadingTool::ExtractKeyEntities => "extract_key_entities"@,
        ReadingTool::GetPaperFulltext => "get_paper_fulltext"@,
    }
}

/// The tool a name names, if any.
pub open spec fn tool_named(name: Seq<char>) -> Option<ReadingTool> {
    if name == "literature_search"@ {
        Some(ReadingTool::LiteratureSearch)
    } else if name == "summarize_paper"@ {
        Some(ReadingTool::SummarizePaper)
    } else if name == "compare_papers"@ {
        Some(ReadingTool::ComparePapers)
    } else if name == "extract_key_entities"@ {
        Some(ReadingTool::ExtractKeyEntities)
    } else if name == "get_paper_fulltext"@ {
        Some(ReadingTool::GetPaperFulltext)
    } else {
        None
    }
}

/// A tool's description.
pub open spec fn tool_description(t: ReadingTool) -> Seq<char> {
    match t {
        ReadingTool::LiteratureSearch => "在文献库中搜索相关文献，支持关键词和语义搜索"@,
        ReadingTool::SummarizePaper => "生成文献的结构化摘要，包括研究问题、方法、结果、创新点"@,
        ReadingTool::ComparePapers => "对比多篇文献的方法、数据集、结果等"@,
        ReadingTool::ExtractKeyEntities => "从文献中提取关键实体，如术语、人名、机构名、数据集名等"@,
        ReadingTool::GetPaperFulltext => "获取文献的完整文本内容，可选择是否包含结构化信息"@,
    }
}

impl ReadingTool {
    /// All tools, in the order they are listed.
    pub fn all() -> (r: Vec<ReadingTool>)
        ensures
            r@ == seq![
                ReadingTool::LiteratureSearch,
                ReadingTool::SummarizePaper,
                ReadingTool::ComparePapers,
                ReadingTool::ExtractKeyEntities,
                ReadingTool::GetPaperFulltext,
            ],
    {
        vec![
            ReadingTool::LiteratureSearch,
            ReadingTool::SummarizePaper,
            ReadingTool::ComparePapers,
            ReadingTool::ExtractKeyEntities,
            ReadingTool::GetPaperFulltext,
        ]
    }

    /// The tool's name.
    pub fn name(&self) -> (r: &'static str)
        ensures
            r@ == tool_name(*self),
    {
        match self {
            ReadingTool::LiteratureSearch => "literature_search",
            ReadingTool::SummarizePaper => "summarize_paper",
            ReadingTool::ComparePapers => "compare_papers",
            ReadingTool::ExtractKeyEntities => "extract_key_entities",
            ReadingTool::GetPaperFulltext => "get_paper_fulltext",
        }
    }

    /// The tool's description.
    pub fn description(&self) -> (r: &'static str)
        ensures
            r@ == tool_description(*self),
    {
        match self {
            ReadingTool::LiteratureSearch => "在文献库中搜索相关文献，支持关键词和语义搜索",
            ReadingTool::SummarizePaper => "生成文献的结构化摘要，包括研究问题、方法、结果、创新点",
            ReadingTool::ComparePapers => "对比多篇文献的方法、数据集、结果等",
            ReadingTool::ExtractKeyEntities => "从文献中提取关键实体，如术语、人名、机构名、数据集名等",
            ReadingTool::GetPaperFulltext => "获取文献的完整文本内容，可选择是否包含结构化信息",
        }
    }

    /// The tool a call names.
    pub fn from_name(name: &str) -> (r: Option<ReadingTool>)
        ensures
            r == tool_named(name@),
    {
        let v = chars_of(name);
        let all = Self::all();
        let mut k: usize = 0;
        while k < all.len()
            invariant
                v@ == name@,
                all@ == seq![
                    ReadingTool::LiteratureSearch,
                    ReadingTool::SummarizePaper,
                    ReadingTool::ComparePapers,
                    ReadingTool::ExtractKeyEntities,
                    ReadingTool::GetPaperFulltext,
                ],
                k <= all.len(),
                forall|j: int| 0 <= j < k ==> tool_name(#[trigger] all@[j]) != name@,
            decreases all.len() - k,
        {
            let t = all[k];
            if chars_equal(&chars_of(t.name()), &v) {
                proof {
                    lemma_tool_names_distinct();
                }
                return Some(t);
            }
            k = k + 1;
        }
        proof {
            lemma_tool_names_distinct();
            assert(tool_name(all@[0]) != name@);
            assert(tool_name(all@[1]) != name@);
            assert(tool_name(all@[2]) != name@);
            assert(tool_name(all@[3]) != name@);
            assert(tool_name(all@[4]) != name@);
        }
        None
    }
}

/// The tools' names are pairwise different.
proof fn lemma_tool_names_distinct()
    ensures
        forall|a: ReadingTool, b: ReadingTool| a != b ==> tool_name(a) != tool_name(b),
        forall|t: ReadingTool| tool_named(#[trigger] tool_name(t)) == Some(t),
{
    reveal_strlit("literature_search");
    reveal_strlit("summarize_paper");
    reveal_strlit("compare_papers");
    reveal_strlit("extract_key_entities");
    reveal_strlit("get_paper_fulltext");
    assert("literature_search"@[0] != "summarize_paper"@[0]);
    assert("literature_search"@[0] != "compare_papers"@[0]);
    assert("literature_search"@[0] != "extract_key_entities"@[0]);
    assert("literature_search"@[0] != "get_paper_fulltext"@[0]);
    assert("summarize_paper"@[0] != "compare_papers"@[0]);
    assert("summarize_paper"@[0] != "extract_key_entities"@[0]);
    assert("summarize_paper"@[0] != "get_paper_fulltext"@[0]);
    assert("compare_papers"@[0] != "extract_key_entities"@[0]);
    assert("compare_papers"@[0] != "get_paper_fulltext"@[0]);
    assert("extract_key_entities"@[0] != "get_paper_fulltext"@[0]);
}

/// Each tool is found again by its name, and no two tools share a name.
pub proof fn law_tool_names(a: ReadingTool, b: ReadingTool)
    ensures
        tool_named(tool_name(a)) == Some(a),
        a != b ==> tool_name(a) != tool_name(b),
{
    lemma_tool_names_distinct();
}

/// The answer to a call of an unknown tool.
pub fn unknown_tool_message(name: &str) -> (r: String)
    ensures
        r@ == "Unknown tool: "@ + name@,
{
    let mut r = String::from_str("Unknown tool: ");
    r.append(name);
    r
}

// ---------------------------------------------------------------------------
// Output formats of the full text
// ---------------------------------------------------------------------------

/// How the full text is returned.
#[derive(Debug, Clone, Copy, PartialEq, Eq)]
pub enum OutputFormat {
    Text,
    Markdown,
    Json,
}

/// The format a name names: "text", "markdown" or "json"; any other name is
/// refused with `Unknown output format: {name}`.
pub fn output_format(name: &str) -> (r: Result<OutputFormat, String>)
    ensures
        name@ == "text"@ ==> r == Ok::<OutputFormat, String>(OutputFormat::Text),
        name@ == "markdown"@ ==> r == Ok::<OutputFormat, String>(OutputFormat::Markdown),
        name@ == "json"@ ==> r == Ok::<OutputFormat, String>(OutputFormat::Json),
        name@ != "text"@ && name@ != "markdown"@ && name@ != "json"@ ==> (r matches Err(m) && m@
            == "Unknown output format: "@ + name@),
{
    proof {
        reveal_strlit("text");
        reveal_strlit("markdown");
        reveal_strlit("json");
        assert("markdown"@.len() != "text"@.len());
        assert("markdown"@.len() != "json"@.len());
        assert("json"@[0] != "text"@[0]);
    }
    let v = chars_of(name);
    if chars_equal(&v, &chars_of("text")) {
        Ok(OutputFormat::Text)
    } else if chars_equal(&v, &chars_of("markdown")) {
        Ok(OutputFormat::Markdown)
    } else if chars_equal(&v, &chars_of("json")) {
        Ok(OutputFormat::Json)
    } else {
        let mut m = String::from_str("Unknown output format: ");
        m.append(name);
        Err(m)
    }
}

// ---------------------------------------------------------------------------
// Titles, previews and comparisons
// ---------------------------------------------------------------------------

/// A paper's title: its file name without the extension, or "Unknown".
pub open spec fn title_of(file_path: Seq<char>) -> Seq<char> {
    match file_stem(file_path) {
        Some(s) => s,
        None => "Unknown"@,
    }
}

/// A paper's title (see `title_of`).
pub fn paper_title(file_path: &str) -> (r: String)
    ensures
        r@ == title_of(file_path@),
{
    match path_file_stem(file_path) {
        Some(s) => s,
        None => String::from_str("Unknown"),
    }
}

/// The first 200 characters of a text (all of a shorter one).
pub open spec fn preview_of(c: Seq<char>) -> Seq<char> {
    if c.len() <= 200 {
        c
    } else {
        c.take(200)
    }
}

/// A preview is the beginning of the text: it has 200 characters, or all of
/// a shorter text, and they are the text's first ones, in order.
pub proof fn law_preview_is_beginning(c: Seq<char>)
    ensures
        preview_of(c).len() == if c.len() < 200 { c.len() } else { 200 },
        forall|i: int| 0 <= i < preview_of(c).len() ==> #[trigger] preview_of(c)[i] == c[i],
{
}

/// The preview of a section's text (see `preview_of`).
pub fn content_preview(content: &str) -> (r: String)
    ensures
        r@ == preview_of(content@),
{
    let v = chars_of(content);
    if v.len() <= 200 {
        String::from_str(content)
    } else {
        assert(v@.subrange(0, 200) =~= v@.take(200));
        string_of(&copy_range(&v, 0, 200))
    }
}

/// A section as a summary shows it.
#[derive(Debug, Clone)]
pub struct SectionPreview {
    pub section_type: SectionType,
    pub title: String,
    pub content_preview: String,
}

/// The previews of some sections, in order.
pub fn section_previews(sections: &Vec<Section>) -> (r: Vec<SectionPreview>)
    ensures
        r@.len() == sections@.len(),
        forall|i: int|
            0 <= i < r@.len() ==> {
                &&& (#[trigger] r@[i]).section_type == sections@[i].section_type
                &&& r@[i].title@ == sections@[i].title@
                &&& r@[i].content_preview@ == preview_of(sections@[i].content@)
            },
{
    let mut r: Vec<SectionPreview> = Vec::new();
    let mut i: usize = 0;
    while i < sections.len()
        invariant
            i <= sections@.len(),
            r@.len() == i,
            forall|j: int|
                0 <= j < i ==> {
                    &&& (#[trigger] r@[j]).section_type == sections@[j].section_type
                    &&& r@[j].title@ == sections@[j].title@
                    &&& r@[j].content_preview@ == preview_of(sections@[j].content@)
                },
        decreases sections@.len() - i,
    {
        let s = &sections[i];
        r.push(
            SectionPreview {
                section_type: s.section_type,
                title: s.title.clone(),
                content_preview: content_preview(s.content.as_str()),
            },
        );
        i = i + 1;
    }
    r
}

/// The comparison of some papers by their titles.
#[derive(Debug, Clone)]
pub struct ComparisonTable {
    pub methods: String,
    pub results: String,
    pub innovations: String,
}

/// The comparison table of papers with the given titles: for methods,
/// results and innovations, the aspect's heading and the titles joined by
/// " vs ".
pub fn comparison_table(titles: &Vec<String>) -> (r: ComparisonTable)
    ensures
        r.methods@ == "方法对比: "@ + join(titles.deep_view(), " vs "@),
        r.results@ == "结果对比: "@ + join(titles.deep_view(), " vs "@),
        r.innovations@ == "创新点对比: "@ + join(titles.deep_view(), " vs "@),
{
    let joined = join_strings(titles, " vs ");
    let mut methods = String::from_str("方法对比: ");
    methods.append(joined.as_str());
    let mut results = String::from_str("结果对比: ");
    results.append(joined.as_str());
    let mut innovations = String::from_str("创新点对比: ");
    innovations.append(joined.as_str());
    ComparisonTable { methods, results, innovations }
}

/// The aspects compared when none are asked for.
pub fn default_aspects() -> (r: Vec<String>)
    ensures
        r.deep_view() == seq!["methods"@, "results"@, "innovations"@],
{
    let r = vec![String::from_str("methods"), String::from_str("results"), String::from_str("innovations")];
    assert(r.deep_view() =~= seq!["methods"@, "results"@, "innovations"@]);
    r
}

/// The entity types extracted when none are asked for.
pub fn default_entity_types() -> (r: Vec<String>)
    ensures
        r.deep_view() == seq!["all"@],
{
    let r = vec![String::from_str("all")];
    assert(r.deep_view() =~= seq!["all"@]);
    r
}

// ---------------------------------------------------------------------------
// Markdown
// ---------------------------------------------------------------------------

/// The Markdown of a paper: `# {title}` and a blank line, then for each
/// section `## {section title}`, a blank line, its text and a blank line.
pub open spec fn markdown_of(title: Seq<char>, ss: Seq<Section>) -> Seq<char>
    decreases ss.len(),
{
    if ss.len() == 0 {
        "# "@ + title + "\n\n"@
    } else {
        markdown_of(title, ss.drop_last()) + "## "@ + ss.last().title@ + "\n\n"@ + ss.last().content@
            + "\n\n"@
    }
}

/// The Markdown of a paper (see `markdown_of`).
pub fn markdown(title: &str, sections: &Vec<Section>) -> (r: String)
    ensures
        r@ == markdown_of(title@, sections@),
{
    let mut r = String::from_str("# ");
    r.append(title);
    r.append("\n\n");
    let mut i: usize = 0;
    assert(sections@.take(0) =~= Seq::<Section>::empty());
    while i < sections.len()
        invariant
            i <= sections@.len(),
            r@ == markdown_of(title@, sections@.take(i as int)),
        decreases sections@.len() - i,
    {
        assert(sections@.take(i + 1).drop_last() =~= sections@.take(i as int));
        r.append("## ");
        r.append(sections[i].title.as_str());
        r.append("\n\n");
        r.append(sections[i].content.as_str());
        r.append("\n\n");
        i = i + 1;
    }
    assert(sections@.take(i as int) =~= sections@);
    r
}

// ---------------------------------------------------------------------------
// Search
// ---------------------------------------------------------------------------

/// A paper a search found.
#[derive(Debug, Clone)]
pub struct SearchHit {
    pub id: String,
    pub title: String,
    pub authors: Vec<String>,
    pub year: u32,
    pub abstract_text: String,
    /// The similarity, in hundredths.
    pub similarity_percent: u8,
}

/// What a literature search answers.
#[derive(Debug, Clone)]
pub struct SearchReply {
    pub query: String,
    pub results: Vec<SearchHit>,
    pub count: usize,
    pub message: String,
}

/// `s` with single quotes around it.
pub open spec fn quoted(s: Seq<char>) -> Seq<char> {
    "'"@ + s + "'"@
}

fn quoted_after(prefix: &str, query: &str) -> (r: String)
    ensures
        r@ == prefix@ + quoted(query@),
{
    let mut r = String::from_str(prefix);
    r.append("'");
    r.append(query);
    r.append("'");
    r
}

/// The literature search: no index is connected yet, so it answers with
/// sample papers about the query, at most `limit` of the two samples, and
/// says how many it found.
pub fn literature_search(query: &str, limit: usize) -> (r: SearchReply)
    ensures
        r.query@ == query@,
        r.results@.len() == if limit < 2 { limit as int } else { 2 },
        r.count == r.results@.len(),
        r.message@ == "Found "@ + decimal(r.count as nat) + " papers matching "@ + quoted(query@),
        r.results@.len() > 0 ==> {
            &&& r.results@[0].id@ == "paper:001"@
            &&& r.results@[0].title@ == "Related paper for "@ + quoted(query@)
            &&& r.results@[0].authors.deep_view() == seq!["Author A"@, "Author B"@]
            &&& r.results@[0].year == 2024
            &&& r.results@[0].abstract_text@ == "This paper discusses topics related to "@ + quoted(
                query@,
            )
            &&& r.results@[0].similarity_percent == 92
        },
        r.results@.len() > 1 ==> {
            &&& r.results@[1].id@ == "paper:002"@
            &&& r.results@[1].title@ == "Another relevant paper on "@ + quoted(query@)
            &&& r.results@[1].authors.deep_view() == seq!["Author C"@, "Author D"@]
            &&& r.results@[1].year == 2023
            &&& r.results@[1].abstract_text@ == "Another study about "@ + quoted(query@)
            &&& r.results@[1].similarity_percent == 87
        },
{
    let mut results: Vec<SearchHit> = Vec::new();
    if limit > 0 {
        let first = SearchHit {
            id: String::from_str("paper:001"),
            title: quoted_after("Related paper for ", query),
            authors: vec![String::from_str("Author A"), String::from_str("Author B")],
            year: 2024,
            abstract_text: quoted_after("This paper discusses topics related to ", query),
            similarity_percent: 92,
        };
        assert(first.authors.deep_view() =~= seq!["Author A"@, "Author B"@]);
        results.push(first);
    }
    if limit > 1 {
        let second = SearchHit {
            id: String::from_str("paper:002"),
            title: quoted_after("Another relevant paper on ", query),
            authors: vec![String::from_str("Author C"), String::from_str("Author D")],
            year: 2023,
            abstract_text: quoted_after("Another study about ", query),
            similarity_percent: 87,
        };
        assert(second.authors.deep_view() =~= seq!["Author C"@, "Author D"@]);
        results.push(second);
    }
    let count = results.len();
    let mut message = String::from_str("Found ");
    message.append(decimal_string(count as u64).as_str());
    message.append(" papers matching ");
    message.append(quoted_after("", query).as_str());
    proof {
        reveal_strlit("");
        assert(""@ + quoted(query@) =~= quoted(query@));
    }
    SearchReply { query: String::from_str(query), results, count, message }
}

// ---------------------------------------------------------------------------
// Messages
// ---------------------------------------------------------------------------

/// The text of an I/O error (its `Display`); what it says is not stated.
#[verifier::external_body]
fn io_error_text(e: &std::io::Error) -> String {
    e.to_string()
}

/// `t` is the message of a PDF error: `文件不存在: {path}`,
/// `PDF 解析失败: {reason}`, or `IO 错误: ` and the I/O error's text.
pub open spec fn error_text_of(e: PdfError, t: Seq<char>) -> bool {
    match e {
        PdfError::FileNotFound(p) => t == "文件不存在: "@ + p@,
        PdfError::ParseError(m) => t == "PDF 解析失败: "@ + m@,
        PdfError::IoError(_) => exists|x: Seq<char>| t == "IO 错误: "@ + x,
    }
}

/// The message of a PDF error (see `error_text_of`).
pub fn pdf_error_text(e: &PdfError) -> (r: String)
    ensures
        error_text_of(*e, r@),
{
    match e {
        PdfError::FileNotFound(p) => {
            let mut r = String::from_str("文件不存在: ");
            r.append(p.as_str());
            r
        },
        PdfError::ParseError(m) => {
            let mut r = String::from_str("PDF 解析失败: ");
            r.append(m.as_str());
            r
        },
        PdfError::IoError(io) => {
            let t = io_error_text(io);
            let mut r = String::from_str("IO 错误: ");
            r.append(t.as_str());
            assert(r@ == "IO 错误: "@ + t@);
            r
        },
    }
}

/// `t` is the answer when a PDF could not be parsed: `Failed to parse PDF: `
/// and the error's message.
pub open spec fn parse_failure_of(e: PdfError, t: Seq<char>) -> bool {
    t.len() >= "Failed to parse PDF: "@.len() && t.take("Failed to parse PDF: "@.len() as int)
        == "Failed to parse PDF: "@ && error_text_of(e, t.skip("Failed to parse PDF: "@.len() as int))
}

/// The answer when a PDF could not be parsed (see `parse_failure_of`).
pub fn parse_failure(e: &PdfError) -> (r: String)
    ensures
        parse_failure_of(*e, r@),
{
    let t = pdf_error_text(e);
    let mut r = String::from_str("Failed to parse PDF: ");
    r.append(t.as_str());
    assert(r@.take("Failed to parse PDF: "@.len() as int) =~= "Failed to parse PDF: "@);
    assert(r@.skip("Failed to parse PDF: "@.len() as int) =~= t@);
    r
}

/// A request line of the server's input: the line trimmed, or nothing when
/// it is blank.
pub fn request_line(line: &str) -> (r: Option<String>)
    ensures
        trim(line@).len() == 0 ==> r is None,
        trim(line@).len() > 0 ==> (r matches Some(s) && s@ == trim(line@)),
{
    let v = chars_of(line);
    let (lo, hi) = trim_bounds(&v, 0, v.len());
    assert(v@.subrange(0, v.len() as int) =~= v@);
    if lo == hi {
        None
    } else {
        Some(string_of(&copy_range(&v, lo, hi)))
    }
}

// ---------------------------------------------------------------------------
// Candidate terms
// ---------------------------------------------------------------------------

/// A word that may be a term: longer than three bytes, starting with an
/// uppercase letter.
pub open spec fn is_term(w: Seq<char>) -> bool {
    utf8_len(w) > 3 && w.len() > 0 && upper_letter(w[0])
}

/// The words of a list that may be terms, in order.
pub open spec fn terms_in(ws: Seq<Seq<char>>) -> Seq<Seq<char>>
    decreases ws.len(),
{
    if ws.len() == 0 {
        seq![]
    } else if is_term(ws.last()) {
        terms_in(ws.drop_last()).push(ws.last())
    } else {
        terms_in(ws.drop_last())
    }
}

/// The words of some texts that may be terms, text after text.
pub open spec fn chunk_terms(texts: Seq<Seq<char>>) -> Seq<Seq<char>>
    decreases texts.len(),
{
    if texts.len() == 0 {
        seq![]
    } else {
        chunk_terms(texts.drop_last()) + terms_in(words(texts.last()))
    }
}

/// The texts of the first ten chunks (all of fewer).
pub open spec fn leading_texts(cs: Seq<TextChunk>) -> Seq<Seq<char>> {
    let n = if cs.len() < 10 {
        cs.len() as int
    } else {
        10
    };
    cs.take(n).map_values(|c: TextChunk| c.content@)
}

/// Whether a string of `r` has the characters `w`.
fn holds_word(r: &Vec<String>, w: &Vec<char>) -> (b: bool)
    ensures
        b == r.deep_view().contains(w@),
{
    let mut i: usize = 0;
    while i < r.len()
        invariant
            i <= r@.len(),
            forall|j: int| 0 <= j < i ==> r.deep_view()[j] != w@,
        decreases r@.len() - i,
    {
        if chars_equal(&chars_of(r[i].as_str()), w) {
            assert(r.deep_view()[i as int] == w@);
            return true;
        }
        i = i + 1;
    }
    false
}

/// The candidate terms of a document's first ten chunks: the words longer
/// than three bytes that start with an uppercase letter, each once.
pub fn candidate_terms(chunks: &Vec<TextChunk>) -> (r: Vec<String>)
    ensures
        r.deep_view().no_duplicates(),
        forall|w: Seq<char>|
            r.deep_view().contains(w) <==> #[trigger] chunk_terms(leading_texts(chunks@)).contains(w),
{
    let n: usize = if chunks.len() < 10 {
        chunks.len()
    } else {
        10
    };
    let ghost texts = leading_texts(chunks@);
    let mut r: Vec<String> = Vec::new();
    let mut k: usize = 0;
    while k < n
        invariant
            n <= chunks@.len(),
            n == texts.len(),
            texts == leading_texts(chunks@),
            k <= n,
            r.deep_view().no_duplicates(),
            forall|w: Seq<char>|
                r.deep_view().contains(w) <==> #[trigger] chunk_terms(texts.take(k as int)).contains(w),
        decreases n - k,
    {
        let text = chars_of(chunks[k].content.as_str());
        assert(text@ == texts[k as int]);
        let rs = word_ranges(&text);
        let ghost ws = words(text@);
        let ghost done = chunk_terms(texts.take(k as int));
        let mut i: usize = 0;
        while i < rs.len()
            invariant
                ranges_within(rs@, text.len() as nat),
                range_texts(text@, rs@) == ws,
                i <= rs.len(),
                r.deep_view().no_duplicates(),
                forall|w: Seq<char>|
                    r.deep_view().contains(w) <==> #[trigger] (done + terms_in(ws.take(i as int))).contains(w),
            decreases rs.len() - i,
        {
            let (lo, hi) = rs[i];
            let word = copy_range(&text, lo, hi);
            assert(word@ == ws[i as int]);
            assert(ws.take(i + 1).drop_last() =~= ws.take(i as int));
            let ghost prev = done + terms_in(ws.take(i as int));
            let ghost before = r.deep_view();
            let term = word.len() > 0 && utf8_longer_than(&word, 3) && is_uppercase(word[0]);
            assert(term == is_term(word@));
            if term {
                assert(done + terms_in(ws.take(i + 1)) =~= prev.push(word@));
                if !holds_word(&r, &word) {
                    r.push(string_of(&word));
                    assert(r.deep_view() =~= before.push(word@));
                    assert forall|w: Seq<char>| #[trigger] r.deep_view().contains(w) <==> prev.push(word@).contains(w) by {
                        if r.deep_view().contains(w) {
                            let j = choose|j: int| 0 <= j < r.deep_view().len() && r.deep_view()[j] == w;
                            if j < before.len() {
                                assert(before[j] == w);
                                assert(prev.contains(w));
                                let m = choose|m: int| 0 <= m < prev.len() && prev[m] == w;
                                assert(prev.push(word@)[m] == w);
                            } else {
                                assert(prev.push(word@)[prev.len() as int] == w);
                            }
                        }
                        if prev.push(word@).contains(w) {
                            let m = choose|m: int| 0 <= m < prev.push(word@).len() && prev.push(word@)[m] == w;
                            if m < prev.len() {
                                assert(prev[m] == w);
                                assert(prev.contains(w));
                                assert((done + terms_in(ws.take(i as int))).contains(w));
                                assert(before.contains(w));
                                let j = choose|j: int| 0 <= j < before.len() && before[j] == w;
                                assert(r.deep_view()[j] == w);
                            } else {
                                assert(r.deep_view()[before.len() as int] == w);
                            }
                        }
                    }
                } else {
                    assert forall|w: Seq<char>| #[trigger] r.deep_view().contains(w) <==> prev.push(word@).contains(w) by {
                        if prev.push(word@).contains(w) {
                            let m = choose|m: int| 0 <= m < prev.push(word@).len() && prev.push(word@)[m] == w;
                            if m < prev.len() {
                                assert(prev[m] == w);
                                assert(prev.contains(w));
                            }
                        }
                        if r.deep_view().contains(w) {
                            assert(prev.contains(w));
                            let m = choose|m: int| 0 <= m < prev.len() && prev[m] == w;
                            assert(prev.push(word@)[m] == w);
                        }
                    }
                }
            } else {
                assert(done + terms_in(ws.take(i + 1)) =~= prev);
            }
            i = i + 1;
        }
        assert(ws.take(i as int) =~= ws);
        assert(texts.take(k + 1).drop_last() =~= texts.take(k as int));
        k = k + 1;
    }
    assert(texts.take(n as int) =~= texts);
    r
}

// ---------------------------------------------------------------------------
// Required arguments
// ---------------------------------------------------------------------------

/// The arguments a call of the tool must give.
pub open spec fn required_args_of(t: ReadingTool) -> Seq<Seq<char>> {
    match t {
        ReadingTool::LiteratureSearch => seq!["query"@],
        ReadingTool::SummarizePaper => seq!["file_path"@],
        ReadingTool::ComparePapers => seq!["file_paths"@],
        ReadingTool::ExtractKeyEntities => seq!["file_path"@],
        ReadingTool::GetPaperFulltext => seq!["file_path"@],
    }
}

impl ReadingTool {
    /// The arguments a call of the tool must give (see `required_args_of`).
    pub fn required_args(&self) -> (r: Vec<&'static str>)
        ensures
            r@.map_values(|a: &'static str| a@) == required_args_of(*self),
    {
        let r = match self {
            ReadingTool::LiteratureSearch => vec!["query"],
            ReadingTool::ComparePapers => vec!["file_paths"],
            _ => vec!["file_path"],
        };
        assert(r@.map_values(|a: &'static str| a@) =~= required_args_of(*self));
        r
    }
}

// ---------------------------------------------------------------------------
// Replies
// ---------------------------------------------------------------------------

/// A paper as a comparison shows it.
#[derive(Debug)]
pub enum PaperEntry {
    /// A parsed paper: its path, title, pages and sections.
    Parsed { file_path: String, title: String, page_count: usize, section_count: usize },
    /// A paper that could not be parsed: its path and `Failed to parse: ` with
    /// the error's message.
    Failed { file_path: String, error: String },
}

/// `e` is how a comparison shows the paper at `path` with what parsing gave.
pub open spec fn entry_of(path: Seq<char>, parsed: Result<PdfDocument, PdfError>, e: PaperEntry) -> bool {
    match parsed {
        Ok(doc) => e matches PaperEntry::Parsed { file_path, title, page_count, section_count }
            && file_path@ == path && title@ == title_of(path) && page_count == doc.page_count
            && section_count == doc.structure.sections@.len(),
        Err(err) => e matches PaperEntry::Failed { file_path, error } && file_path@ == path
            && error@.len() >= "Failed to parse: "@.len() && error@.take("Failed to parse: "@.len() as int)
            == "Failed to parse: "@ && error_text_of(err, error@.skip("Failed to parse: "@.len() as int)),
    }
}

/// The titles of the papers that parsed, in order.
pub open spec fn parsed_titles(papers: Seq<(String, Result<PdfDocument, PdfError>)>) -> Seq<Seq<char>>
    decreases papers.len(),
{
    if papers.len() == 0 {
        seq![]
    } else {
        let rest = parsed_titles(papers.drop_last());
        if papers.last().1 is Ok {
            rest.push(title_of(papers.last().0@))
        } else {
            rest
        }
    }
}

/// What the comparison tool answers.
#[derive(Debug)]
pub struct ComparisonReply {
    pub papers: Vec<PaperEntry>,
    pub aspects: Vec<String>,
    pub table: ComparisonTable,
}

/// The comparison of papers, each given with what parsing its file gave:
/// one entry per paper in order, the aspects asked for (or the default
/// ones), and the table over the titles of the papers that parsed.
pub fn comparison_reply(papers: &Vec<(String, Result<PdfDocument, PdfError>)>, aspects: Option<Vec<String>>) -> (r: ComparisonReply)
    ensures
        r.papers@.len() == papers@.len(),
        forall|i: int| 0 <= i < papers@.len() ==> entry_of(papers@[i].0@, papers@[i].1, #[trigger] r.papers@[i]),
        r.aspects.deep_view() == match aspects {
            Some(a) => a.deep_view(),
            None => seq!["methods"@, "results"@, "innovations"@],
        },
        r.table.methods@ == "方法对比: "@ + join(parsed_titles(papers@), " vs "@),
        r.table.results@ == "结果对比: "@ + join(parsed_titles(papers@), " vs "@),
        r.table.innovations@ == "创新点对比: "@ + join(parsed_titles(papers@), " vs "@),
{
    let mut entries: Vec<PaperEntry> = Vec::new();
    let mut titles: Vec<String> = Vec::new();
    let mut i: usize = 0;
    while i < papers.len()
        invariant
            i <= papers@.len(),
            entries@.len() == i,
            forall|j: int| 0 <= j < i ==> entry_of(papers@[j].0@, papers@[j].1, #[trigger] entries@[j]),
            titles.deep_view() == parsed_titles(papers@.take(i as int)),
        decreases papers@.len() - i,
    {
        assert(papers@.take(i + 1).drop_last() =~= papers@.take(i as int));
        let path = papers[i].0.as_str();
        match &papers[i].1 {
            Ok(doc) => {
                let title = paper_title(path);
                let ghost before = titles.deep_view();
                titles.push(title.clone());
                assert(titles.deep_view() =~= before.push(title_of(path@)));
                entries.push(
                    PaperEntry::Parsed {
                        file_path: String::from_str(path),
                        title,
                        page_count: doc.page_count,
                        section_count: doc.structure.sections.len(),
                    },
                );
            },
            Err(e) => {
                let t = pdf_error_text(e);
                let mut error = String::from_str("Failed to parse: ");
                error.append(t.as_str());
                assert(error@.take("Failed to parse: "@.len() as int) =~= "Failed to parse: "@);
                assert(error@.skip("Failed to parse: "@.len() as int) =~= t@);
                entries.push(PaperEntry::Failed { file_path: String::from_str(path), error });
            },
        }
        i = i + 1;
    }
    assert(papers@.take(i as int) =~= papers@);
    let aspects = match aspects {
        Some(a) => a,
        None => default_aspects(),
    };
    ComparisonReply { papers: entries, aspects, table: comparison_table(&titles) }
}

/// What the summary tool answers.
#[derive(Debug)]
pub enum SummaryReply {
    /// The paper could not be parsed.
    Failed { error: String, file_path: String },
    /// The paper's title, path, pages, the detail level asked for and its
    /// sections' previews.
    Summary {
        title: String,
        file_path: String,
        page_count: usize,
        detail_level: String,
        sections: Vec<SectionPreview>,
    },
}

/// The summary of the paper at `file_path` from what parsing it gave.
pub fn summary_reply(file_path: &str, detail_level: &str, parsed: Result<PdfDocument, PdfError>) -> (r: SummaryReply)
    ensures
        match parsed {
            Ok(doc) => r matches SummaryReply::Summary { title, file_path: p, page_count, detail_level: d, sections }
                && title@ == title_of(file_path@) && p@ == file_path@ && page_count == doc.page_count && d@
                == detail_level@ && sections@.len() == doc.structure.sections@.len() && forall|i: int|
                0 <= i < sections@.len() ==> {
                    &&& (#[trigger] sections@[i]).section_type == doc.structure.sections@[i].section_type
                    &&& sections@[i].title@ == doc.structure.sections@[i].title@
                    &&& sections@[i].content_preview@ == preview_of(doc.structure.sections@[i].content@)
                },
            Err(e) => r matches SummaryReply::Failed { error, file_path: p } && parse_failure_of(e, error@)
                && p@ == file_path@,
        },
{
    match parsed {
        Ok(doc) => SummaryReply::Summary {
            title: paper_title(file_path),
            file_path: String::from_str(file_path),
            page_count: doc.page_count,
            detail_level: String::from_str(detail_level),
            sections: section_previews(&doc.structure.sections),
        },
        Err(e) => SummaryReply::Failed { error: parse_failure(&e), file_path: String::from_str(file_path) },
    }
}

/// What the full-text tool answers.
#[derive(Debug)]
pub enum FulltextReply {
    /// The paper could not be parsed.
    Failed { error: String, file_path: String },
    /// The format asked for is none of text, markdown and json.
    UnknownFormat { error: String },
    /// The plain text, with the structure when asked for.
    Text { file_path: String, title: String, page_count: usize, text: String, structure: Option<DocumentStructure> },
    /// The Markdown of the sections.
    Markdown { file_path: String, title: String, page_count: usize, markdown: String },
    /// The structure and the full text.
    Json { file_path: String, title: String, page_count: usize, structure: DocumentStructure, full_text: String },
}

/// The full text of the paper at `file_path` in the format named, from what
/// parsing it gave: a parse failure first; then, for a parsed paper, its
/// title and pages with the text (and the structure exactly when asked
/// for), the Markdown of its sections, or its structure and text; any other
/// format is refused.
pub fn fulltext_reply(file_path: &str, include_structure: bool, format: &str, parsed: Result<PdfDocument, PdfError>) -> (r: FulltextReply)
    ensures
        match parsed {
            Err(e) => r matches FulltextReply::Failed { error, file_path: p } && parse_failure_of(e, error@)
                && p@ == file_path@,
            Ok(doc) => if format@ == "text"@ {
                r matches FulltextReply::Text { file_path: p, title, page_count, text, structure } && p@
                    == file_path@ && title@ == title_of(file_path@) && page_count == doc.page_count
                    && text@ == doc.text@ && (if include_structure {
                    structure == Some(doc.structure)
                } else {
                    structure is None
                })
            } else if format@ == "markdown"@ {
                r matches FulltextReply::Markdown { file_path: p, title, page_count, markdown } && p@
                    == file_path@ && title@ == title_of(file_path@) && page_count == doc.page_count
                    && markdown@ == markdown_of(title_of(file_path@), doc.structure.sections@)
            } else if format@ == "json"@ {
                r matches FulltextReply::Json { file_path: p, title, page_count, structure, full_text } && p@
                    == file_path@ && title@ == title_of(file_path@) && page_count == doc.page_count
                    && structure == doc.structure && full_text@ == doc.text@
            } else {
                r matches FulltextReply::UnknownFormat { error } && error@ == "Unknown output format: "@
                    + format@
            },
        },
{
    match parsed {
        Err(e) => FulltextReply::Failed { error: parse_failure(&e), file_path: String::from_str(file_path) },
        Ok(doc) => {
            let title = paper_title(file_path);
            match output_format(format) {
                Ok(OutputFormat::Text) => FulltextReply::Text {
                    file_path: String::from_str(file_path),
                    title,
                    page_count: doc.page_count,
                    text: doc.text,
                    structure: if include_structure {
                        Some(doc.structure)
                    } else {
                        None
                    },
                },
                Ok(OutputFormat::Markdown) => {
                    let markdown = markdown(title.as_str(), &doc.structure.sections);
                    FulltextReply::Markdown {
                        file_path: String::from_str(file_path),
                        title,
                        page_count: doc.page_count,
                        markdown,
                    }
                },
                Ok(OutputFormat::Json) => FulltextReply::Json {
                    file_path: String::from_str(file_path),
                    title,
                    page_count: doc.page_count,
                    structure: doc.structure,
                    full_text: doc.text,
                },
                Err(error) => FulltextReply::UnknownFormat { error },
            }
        },
    }
}

/// What the entity tool answers.
#[derive(Debug)]
pub enum EntitiesReply {
    /// The paper could not be parsed.
    Failed { error: String, file_path: String },
    /// The entity types asked for (or all), the candidate terms of the first
    /// ten paragraph chunks, and how many chunks the paper has.
    Found { file_path: String, entity_types: Vec<String>, terms: Vec<String>, chunk_count: usize },
}

/// The chunk texts the entity tool reads: the paper's paragraph chunks with
/// the default chunker.
pub open spec fn entity_chunks(text: Seq<char>) -> Seq<Seq<char>> {
    paragraph_chunks(text, 1000, 200)
}

/// The first ten of those chunk texts (all of fewer).
pub open spec fn entity_texts(text: Seq<char>) -> Seq<Seq<char>> {
    let cs = entity_chunks(text);
    cs.take(if cs.len() < 10 { cs.len() as int } else { 10 })
}

/// The candidate terms of the paper at `file_path` from what parsing it
/// gave (see `candidate_terms`).
pub fn entities_reply(file_path: &str, entity_types: Option<Vec<String>>, parsed: Result<PdfDocument, PdfError>) -> (r: EntitiesReply)
    ensures
        match parsed {
            Err(e) => r matches EntitiesReply::Failed { error, file_path: p } && parse_failure_of(e, error@)
                && p@ == file_path@,
            Ok(doc) => r matches EntitiesReply::Found { file_path: p, entity_types: ts, terms, chunk_count }
                && p@ == file_path@ && ts.deep_view() == match entity_types {
                Some(a) => a.deep_view(),
                None => seq!["all"@],
            } && chunk_count == entity_chunks(doc.text@).len() && terms.deep_view().no_duplicates()
                && forall|w: Seq<char>|
                terms.deep_view().contains(w) <==> #[trigger] chunk_terms(entity_texts(doc.text@)).contains(w),
        },
{
    match parsed {
        Err(e) => EntitiesReply::Failed { error: parse_failure(&e), file_path: String::from_str(file_path) },
        Ok(doc) => {
            let chunker = Chunker::default();
            let chunks = chunker.chunk_by_paragraph(doc.text.as_str());
            let terms = candidate_terms(&chunks);
            proof {
                let texts = entity_chunks(doc.text@);
                let n = if texts.len() < 10 {
                    texts.len() as int
                } else {
                    10
                };
                assert(leading_texts(chunks@) =~= texts.take(n)) by {
                    assert forall|i: int| 0 <= i < n implies #[trigger] leading_texts(chunks@)[i] == texts.take(n)[i] by {
                        assert(chunks@[i].content@ == texts[i]);
                    }
                }
            }
            let types = match entity_types {
                Some(a) => a,
                None => default_entity_types(),
            };
            EntitiesReply::Found {
                file_path: String::from_str(file_path),
                entity_types: types,
                terms,
                chunk_count: chunks.len(),
            }
        },
    }
}

// ---------------------------------------------------------------------------
// Input schemas
// ---------------------------------------------------------------------------

/// The JSON type of a tool argument.
#[derive(Debug, Clone, Copy, PartialEq, Eq)]
pub enum ParamType {
    /// A string.
    Text,
    /// An integer.
    Integer,
    /// A boolean.
    Boolean,
    /// An array of strings.
    TextList,
}

/// The default of a tool argument, if it has one.
#[derive(Debug, Clone)]
pub enum ParamDefault {
    Absent,
    Integer(u64),
    Boolean(bool),
    Text(&'static str),
    TextList(Vec<&'static str>),
}

/// A tool argument as its input schema describes it: name, type,
/// description, the values it may take (none listed: any) and its default.
#[derive(Debug, Clone)]
pub struct ToolParam {
    pub name: &'static str,
    pub kind: ParamType,
    pub description: &'static str,
    pub choices: Vec<&'static str>,
    pub default: ParamDefault,
}

/// The default of an argument, as text.
pub enum DefaultView {
    Absent,
    Integer(u64),
    Boolean(bool),
    Text(Seq<char>),
    TextList(Seq<Seq<char>>),
}

/// An argument's description, as text.
pub struct ParamSpec {
    pub name: Seq<char>,
    pub kind: ParamType,
    pub description: Seq<char>,
    pub choices: Seq<Seq<char>>,
    pub default: DefaultView,
}

/// The texts of some literals.
pub open spec fn texts_of(ls: Seq<&'static str>) -> Seq<Seq<char>> {
    ls.map_values(|l: &'static str| l@)
}

/// An argument's description as text.
pub open spec fn param_view(p: ToolParam) -> ParamSpec {
    ParamSpec {
        name: p.name@,
        kind: p.kind,
        description: p.description@,
        choices: texts_of(p.choices@),
        default: match p.default {
            ParamDefault::Absent => DefaultView::Absent,
            ParamDefault::Integer(n) => DefaultView::Integer(n),
            ParamDefault::Boolean(b) => DefaultView::Boolean(b),
            ParamDefault::Text(t) => DefaultView::Text(t@),
            ParamDefault::TextList(ts) => DefaultView::TextList(texts_of(ts@)),
        },
    }
}

/// The arguments each tool takes, in the order its schema lists them.
pub open spec fn params_of(t: ReadingTool) -> Seq<ParamSpec> {
    match t {
        ReadingTool::LiteratureSearch => seq![
            ParamSpec { name: "query"@, kind: ParamType::Text, description: "搜索查询，支持关键词或自然语言描述"@, choices: seq![], default: DefaultView::Absent },
            ParamSpec { name: "limit"@, kind: ParamType::Integer, description: "返回结果数量限制，默认 10"@, choices: seq![], default: DefaultView::Integer(10) },
            ParamSpec { name: "search_type"@, kind: ParamType::Text, description: "搜索类型：keyword（关键词）或 semantic（语义），默认 semantic"@, choices: seq!["keyword"@, "semantic"@], default: DefaultView::Text("semantic"@) },
        ],
        ReadingTool::SummarizePaper => seq![
            ParamSpec { name: "file_path"@, kind: ParamType::Text, description: "PDF 文件路径"@, choices: seq![], default: DefaultView::Absent },
            ParamSpec { name: "detail_level"@, kind: ParamType::Text, description: "摘要详细程度：brief（简洁）、standard（标准）、detailed（详细）"@, choices: seq!["brief"@, "standard"@, "detailed"@], default: DefaultView::Text("standard"@) },
        ],
        ReadingTool::ComparePapers => seq![
            ParamSpec { name: "file_paths"@, kind: ParamType::TextList, description: "PDF 文件路径列表"@, choices: seq![], default: DefaultView::Absent },
            ParamSpec { name: "aspects"@, kind: ParamType::TextList, description: "对比维度，如 methods、datasets、results、innovations 等"@, choices: seq![], default: DefaultView::TextList(seq!["methods"@, "results"@, "innovations"@]) },
        ],
        ReadingTool::ExtractKeyEntities => seq![
            ParamSpec { name: "file_path"@, kind: ParamType::Text, description: "PDF 文件路径"@, choices: seq![], default: DefaultView::Absent },
            ParamSpec { name: "entity_types"@, kind: ParamType::TextList, description: "实体类型：terms（术语）、methods（方法）、datasets（数据集）、all（全部）"@, choices: seq![], default: DefaultView::TextList(seq!["all"@]) },
        ],
        ReadingTool::GetPaperFulltext => seq![
            ParamSpec { name: "file_path"@, kind: ParamType::Text, description: "PDF 文件路径"@, choices: seq![], default: DefaultView::Absent },
            ParamSpec { name: "include_structure"@, kind: ParamType::Boolean, description: "是否包含章节结构信息，默认 false"@, choices: seq![], default: DefaultView::Boolean(false) },
            ParamSpec { name: "output_format"@, kind: ParamType::Text, description: "输出格式：text（纯文本）、markdown（Markdown）、json（结构化 JSON）"@, choices: seq!["text"@, "markdown"@, "json"@], default: DefaultView::Text("text"@) },
        ],
    }
}

fn param(
    name: &'static str,
    kind: ParamType,
    description: &'static str,
    choices: Vec<&'static str>,
    default: ParamDefault,
) -> (r: ToolParam)
    ensures
        r.name == name,
        r.kind == kind,
        r.description == description,
        r.choices == choices,
        r.default == default,
{
    ToolParam { name, kind, description, choices, default }
}

impl ReadingTool {
    /// The arguments the tool takes, as its input schema lists them (see
    /// `params_of`).
    pub fn params(&self) -> (r: Vec<ToolParam>)
        ensures
            r@.map_values(|p: ToolParam| param_view(p)) == params_of(*self),
    {
        let r = match self {
            ReadingTool::LiteratureSearch => vec![
                param("query", ParamType::Text, "搜索查询，支持关键词或自然语言描述", vec![], ParamDefault::Absent),
                param("limit", ParamType::Integer, "返回结果数量限制，默认 10", vec![], ParamDefault::Integer(10)),
                param("search_type", ParamType::Text, "搜索类型：keyword（关键词）或 semantic（语义），默认 semantic", vec!["keyword", "semantic"], ParamDefault::Text("semantic")),
            ],
            ReadingTool::SummarizePaper => vec![
                param("file_path", ParamType::Text, "PDF 文件路径", vec![], ParamDefault::Absent),
                param("detail_level", ParamType::Text, "摘要详细程度：brief（简洁）、standard（标准）、detailed（详细）", vec!["brief", "standard", "detailed"], ParamDefault::Text("standard")),
            ],
            ReadingTool::ComparePapers => vec![
                param("file_paths", ParamType::TextList, "PDF 文件路径列表", vec![], ParamDefault::Absent),
                param("aspects", ParamType::TextList, "对比维度，如 methods、datasets、results、innovations 等", vec![], ParamDefault::TextList(vec!["methods", "results", "innovations"])),
            ],
            ReadingTool::ExtractKeyEntities => vec![
                param("file_path", ParamType::Text, "PDF 文件路径", vec![], ParamDefault::Absent),
                param("entity_types", ParamType::TextList, "实体类型：terms（术语）、methods（方法）、datasets（数据集）、all（全部）", vec![], ParamDefault::TextList(vec!["all"])),
            ],
            ReadingTool::GetPaperFulltext => vec![
                param("file_path", ParamType::Text, "PDF 文件路径", vec![], ParamDefault::Absent),
                param("include_structure", ParamType::Boolean, "是否包含章节结构信息，默认 false", vec![], ParamDefault::Boolean(false)),
                param("output_format", ParamType::Text, "输出格式：text（纯文本）、markdown（Markdown）、json（结构化 JSON）", vec!["text", "markdown", "json"], ParamDefault::Text("text")),
            ],
        };
        assert(r@.map_values(|p: ToolParam| param_view(p)) =~= params_of(*self)) by {
            assert forall|i: int| 0 <= i < r@.len() implies #[trigger] param_view(r@[i]) == params_of(*self)[i] by {
                assert(texts_of(r@[i].choices@) =~= params_of(*self)[i].choices);
                match r@[i].default {
                    ParamDefault::TextList(ts) => {
                        assert(texts_of(ts@) =~= params_of(*self)[i].default->TextList_0);
                    },
                    _ => {},
                }
            }
        }
        r
    }
}

} // verus!
