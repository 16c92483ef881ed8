use xuan_agent::reading::chunk::Chunker;
use xuan_agent::reading::pdf::{PdfError, Section, SectionType};
use xuan_agent::reading::tools::{
    candidate_terms, comparison_table, content_preview, default_aspects, default_entity_types,
    literature_search, markdown, output_format, paper_title, parse_failure, pdf_error_text,
    request_line, section_previews, unknown_tool_message, OutputFormat, ReadingTool,
};

#[test]
fn tools_are_found_by_name() {
    for t in ReadingTool::all() {
        assert_eq!(ReadingTool::from_name(t.name()), Some(t));
    }
    assert_eq!(ReadingTool::from_name("get_paper_fulltext"), Some(ReadingTool::GetPaperFulltext));
    assert_eq!(ReadingTool::from_name("nope"), None);
    assert_eq!(unknown_tool_message("nope"), "Unknown tool: nope");
    assert_eq!(ReadingTool::ComparePapers.description(), "对比多篇文献的方法、数据集、结果等");
}

#[test]
fn output_formats() {
    assert_eq!(output_format("text"), Ok(OutputFormat::Text));
    assert_eq!(output_format("markdown"), Ok(OutputFormat::Markdown));
    assert_eq!(output_format("json"), Ok(OutputFormat::Json));
    assert_eq!(output_format("html"), Err("Unknown output format: html".to_string()));
}

#[test]
fn titles_and_previews() {
    assert_eq!(paper_title("/a/b/Paper One.pdf"), "Paper One");
    assert_eq!(paper_title(""), "Unknown");
    let long = "x".repeat(250);
    assert_eq!(content_preview(&long).chars().count(), 200);
    assert_eq!(content_preview("short"), "short");
    let sections = vec![Section {
        title: "Methods".to_string(),
        section_type: SectionType::Methods,
        content: "é".repeat(300),
        start_page: None,
    }];
    let p = section_previews(&sections);
    assert_eq!(p.len(), 1);
    assert_eq!(p[0].title, "Methods");
    assert_eq!(p[0].section_type, SectionType::Methods);
    assert_eq!(p[0].content_preview, "é".repeat(200));
}

#[test]
fn comparisons_join_titles() {
    let t = comparison_table(&vec!["A".to_string(), "B".to_string()]);
    assert_eq!(t.methods, "方法对比: A vs B");
    assert_eq!(t.results, "结果对比: A vs B");
    assert_eq!(t.innovations, "创新点对比: A vs B");
    assert_eq!(comparison_table(&vec![]).methods, "方法对比: ");
    assert_eq!(default_aspects(), vec!["methods".to_string(), "results".to_string(), "innovations".to_string()]);
    assert_eq!(default_entity_types(), vec!["all".to_string()]);
}

#[test]
fn markdown_of_sections() {
    let sections = vec![
        Section { title: "Abstract".to_string(), section_type: SectionType::Abstract, content: "S".to_string(), start_page: None },
        Section { title: "Methods".to_string(), section_type: SectionType::Methods, content: "M".to_string(), start_page: None },
    ];
    assert_eq!(markdown("T", &sections), "# T\n\n## Abstract\n\nS\n\n## Methods\n\nM\n\n");
    assert_eq!(markdown("T", &vec![]), "# T\n\n");
}

#[test]
fn search_answers_two_samples() {
    let r = literature_search("graphs", 10);
    assert_eq!(r.count, 2);
    assert_eq!(r.results[0].title, "Related paper for 'graphs'");
    assert_eq!(r.results[1].abstract_text, "Another study about 'graphs'");
    assert_eq!(r.results[0].similarity_percent, 92);
    assert_eq!(r.message, "Found 2 papers matching 'graphs'");
    let r = literature_search("graphs", 1);
    assert_eq!(r.results.len(), 1);
    assert_eq!(r.count, 1);
    assert_eq!(r.message, "Found 1 papers matching 'graphs'");
    let r = literature_search("graphs", 0);
    assert!(r.results.is_empty());
    assert_eq!(r.count, 0);
}

#[test]
fn terms_are_capitalized_words_of_the_first_chunks() {
    let chunker = Chunker::default();
    let chunks = chunker.chunk_by_paragraph("The Transformer uses Attention.\n\nTransformer and BERT and Élan.");
    let mut terms = candidate_terms(&chunks);
    terms.sort();
    assert_eq!(terms, vec!["Attention.".to_string(), "BERT".to_string(), "Transformer".to_string(), "Élan.".to_string()]);
}

#[test]
fn pdf_error_messages() {
    assert_eq!(pdf_error_text(&PdfError::FileNotFound("a.pdf".to_string())), "文件不存在: a.pdf");
    assert_eq!(parse_failure(&PdfError::ParseError("bad".to_string())), "Failed to parse PDF: PDF 解析失败: bad");
    let io = std::io::Error::new(std::io::ErrorKind::Other, "disk");
    assert_eq!(pdf_error_text(&PdfError::IoError(io)), "IO 错误: disk");
}

#[test]
fn request_lines_are_trimmed() {
    assert_eq!(request_line("  {\"id\":1}\n"), Some("{\"id\":1}".to_string()));
    assert_eq!(request_line(" \r\n"), None);
}
