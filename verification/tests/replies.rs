use xuan_agent::reading::pdf::{PdfError, PdfParser, SectionType};
use xuan_agent::reading::tools::{ParamDefault, ParamType};
use xuan_agent::reading::tools::{
    comparison_reply, entities_reply, fulltext_reply, summary_reply, EntitiesReply, FulltextReply, PaperEntry,
    ReadingTool, SummaryReply,
};

fn doc(path: &str, text: &str) -> xuan_agent::reading::pdf::PdfDocument {
    PdfParser::from_extraction(path, Ok(text.to_string())).unwrap()
}

#[test]
fn comparison_lists_every_paper_and_compares_the_parsed_ones() {
    let papers = vec![
        ("/a/First.pdf".to_string(), Ok(doc("/a/First.pdf", "Abstract\nX\n1. Introduction\nY\u{c}Z"))),
        ("/a/Missing.pdf".to_string(), Err(PdfError::FileNotFound("/a/Missing.pdf".to_string()))),
        ("/a/Second.pdf".to_string(), Ok(doc("/a/Second.pdf", "plain"))),
    ];
    let r = comparison_reply(&papers, None);
    assert_eq!(r.papers.len(), 3);
    match &r.papers[0] {
        PaperEntry::Parsed { file_path, title, page_count, section_count } => {
            assert_eq!(file_path, "/a/First.pdf");
            assert_eq!(title, "First");
            assert_eq!(*page_count, 2);
            assert_eq!(*section_count, 2);
        }
        _ => panic!("expected a parsed paper"),
    }
    match &r.papers[1] {
        PaperEntry::Failed { file_path, error } => {
            assert_eq!(file_path, "/a/Missing.pdf");
            assert_eq!(error, "Failed to parse: 文件不存在: /a/Missing.pdf");
        }
        _ => panic!("expected a failure"),
    }
    assert_eq!(r.table.methods, "方法对比: First vs Second");
    assert_eq!(r.aspects, vec!["methods".to_string(), "results".to_string(), "innovations".to_string()]);
    let r = comparison_reply(&vec![], Some(vec!["datasets".to_string()]));
    assert_eq!(r.aspects, vec!["datasets".to_string()]);
    assert_eq!(r.table.results, "结果对比: ");
}

#[test]
fn full_text_in_each_format() {
    let d = doc("/p/Paper.pdf", "Abstract\nWe study.\n2. Methods\nWe train.");
    match fulltext_reply("/p/Paper.pdf", false, "text", Ok(d.clone())) {
        FulltextReply::Text { title, page_count, text, structure, .. } => {
            assert_eq!(title, "Paper");
            assert_eq!(page_count, 1);
            assert_eq!(text, d.text);
            assert!(structure.is_none());
        }
        _ => panic!("expected text"),
    }
    match fulltext_reply("/p/Paper.pdf", true, "text", Ok(d.clone())) {
        FulltextReply::Text { structure, .. } => assert_eq!(structure.unwrap().sections.len(), 2),
        _ => panic!("expected text"),
    }
    match fulltext_reply("/p/Paper.pdf", false, "markdown", Ok(d.clone())) {
        FulltextReply::Markdown { markdown, .. } => {
            assert_eq!(markdown, "# Paper\n\n## Abstract\n\nWe study.\n\n## Methods\n\nWe train.\n\n")
        }
        _ => panic!("expected markdown"),
    }
    match fulltext_reply("/p/Paper.pdf", false, "json", Ok(d.clone())) {
        FulltextReply::Json { structure, full_text, .. } => {
            assert_eq!(structure.sections[1].section_type, SectionType::Methods);
            assert_eq!(full_text, d.text);
        }
        _ => panic!("expected json"),
    }
    match fulltext_reply("/p/Paper.pdf", false, "html", Ok(d)) {
        FulltextReply::UnknownFormat { error } => assert_eq!(error, "Unknown output format: html"),
        _ => panic!("expected a refusal"),
    }
    match fulltext_reply("/p/Paper.pdf", false, "html", Err(PdfError::ParseError("bad".to_string()))) {
        FulltextReply::Failed { error, file_path } => {
            assert_eq!(error, "Failed to parse PDF: PDF 解析失败: bad");
            assert_eq!(file_path, "/p/Paper.pdf");
        }
        _ => panic!("expected a failure"),
    }
}

#[test]
fn summary_and_entities() {
    let d = doc("/p/Paper.pdf", "Abstract\nWe study Graphs.\n2. Methods\nWe train Models.");
    match summary_reply("/p/Paper.pdf", "brief", Ok(d.clone())) {
        SummaryReply::Summary { title, detail_level, sections, .. } => {
            assert_eq!(title, "Paper");
            assert_eq!(detail_level, "brief");
            assert_eq!(sections.len(), 2);
            assert_eq!(sections[0].content_preview, "We study Graphs.");
        }
        _ => panic!("expected a summary"),
    }
    match entities_reply("/p/Paper.pdf", None, Ok(d)) {
        EntitiesReply::Found { entity_types, mut terms, chunk_count, .. } => {
            assert_eq!(entity_types, vec!["all".to_string()]);
            assert_eq!(chunk_count, 1);
            terms.sort();
            assert_eq!(terms, vec!["Abstract".to_string(), "Graphs.".to_string(), "Methods".to_string(), "Models.".to_string()]);
        }
        _ => panic!("expected entities"),
    }
    match entities_reply("/p/x.pdf", None, Err(PdfError::FileNotFound("/p/x.pdf".to_string()))) {
        EntitiesReply::Failed { error, .. } => assert_eq!(error, "Failed to parse PDF: 文件不存在: /p/x.pdf"),
        _ => panic!("expected a failure"),
    }
}

#[test]
fn required_arguments() {
    assert_eq!(ReadingTool::LiteratureSearch.required_args(), vec!["query"]);
    assert_eq!(ReadingTool::ComparePapers.required_args(), vec!["file_paths"]);
    assert_eq!(ReadingTool::GetPaperFulltext.required_args(), vec!["file_path"]);
}

#[test]
fn input_schemas() {
    let ps = ReadingTool::LiteratureSearch.params();
    let names: Vec<&str> = ps.iter().map(|p| p.name).collect();
    assert_eq!(names, vec!["query", "limit", "search_type"]);
    assert_eq!(ps[1].kind, ParamType::Integer);
    assert!(matches!(ps[1].default, ParamDefault::Integer(10)));
    assert_eq!(ps[2].choices, vec!["keyword", "semantic"]);
    let ps = ReadingTool::ComparePapers.params();
    assert_eq!(ps[0].kind, ParamType::TextList);
    match &ps[1].default {
        ParamDefault::TextList(ts) => assert_eq!(ts, &vec!["methods", "results", "innovations"]),
        _ => panic!("expected a list default"),
    }
    let ps = ReadingTool::GetPaperFulltext.params();
    assert!(matches!(ps[1].default, ParamDefault::Boolean(false)));
    assert!(matches!(ps[2].default, ParamDefault::Text("text")));
}
