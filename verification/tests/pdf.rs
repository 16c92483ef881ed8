use xuan_agent::pdf::{PaperChunker, PdfParser};
use xuan_agent::reading::pdf::{PdfError, PdfParser as ReadingPdfParser, SectionType};
use xuan_agent::error::Error;

#[test]
fn pdf_test_extract_title_from_filename() {
    let title = PdfParser::extract_title_from_filename("/path/to/My Research Paper.pdf");
    assert_eq!(title, Some("My Research Paper".to_string()));
    let title = ReadingPdfParser::extract_title_from_filename("/path/to/My Research Paper.pdf");
    assert_eq!(title, Some("My Research Paper".to_string()));
}

#[test]
fn pdf_test_chunk_by_paragraph() {
    let chunker = PaperChunker::default();
    let text = "First paragraph.\n\nSecond paragraph.\n\nThird paragraph.";
    let chunks = chunker.chunk_by_paragraph(text);
    assert!(!chunks.is_empty());
    assert!(chunks.len() <= 3);
}

#[test]
fn test_identify_section_type() {
    assert!(matches!(ReadingPdfParser::identify_section_type("1. Introduction"), SectionType::Introduction));
    assert!(matches!(ReadingPdfParser::identify_section_type("Abstract"), SectionType::Abstract));
    assert!(matches!(ReadingPdfParser::identify_section_type("3. Methods"), SectionType::Methods));
}

#[test]
fn section_type_matches_in_lowercase() {
    assert_eq!(ReadingPdfParser::identify_section_type("RELATED WORK"), SectionType::RelatedWork);
    assert_eq!(ReadingPdfParser::identify_section_type("参考文献"), SectionType::References);
    assert_eq!(ReadingPdfParser::identify_section_type("Paper Title"), SectionType::Title);
    assert_eq!(ReadingPdfParser::identify_section_type("Acknowledgements"), SectionType::Other);
}

#[test]
fn section_headers_by_word_or_number() {
    assert!(ReadingPdfParser::is_section_header("introduction"));
    assert!(ReadingPdfParser::is_section_header("4 Evaluation"));
    assert!(ReadingPdfParser::is_section_header("实验"));
    assert!(!ReadingPdfParser::is_section_header("We evaluate the model."));
    let long = format!("1{}", "x".repeat(120));
    assert!(!ReadingPdfParser::is_section_header(&long));
}

#[test]
fn section_labels() {
    assert_eq!(SectionType::RelatedWork.to_string(), "Related Work");
    assert_eq!(SectionType::Methods.to_string(), "Methods");
}

#[test]
fn structure_of_a_text() {
    let text = "My Paper\nAbstract\nWe study things.\n\n1. Introduction\nIntro text.\nMore intro.\n2. Methods\nWe train it.";
    let s = ReadingPdfParser::extract_structure(text);
    assert_eq!(s.sections.len(), 4);
    assert_eq!(s.sections[0].section_type, SectionType::Other);
    assert_eq!(s.sections[0].content, "My Paper");
    assert_eq!(s.sections[1].section_type, SectionType::Abstract);
    assert_eq!(s.sections[1].title, "Abstract");
    assert_eq!(s.sections[1].content, "We study things.\n");
    assert_eq!(s.sections[2].section_type, SectionType::Introduction);
    assert_eq!(s.sections[2].content, "Intro text.\nMore intro.");
    assert_eq!(s.sections[3].section_type, SectionType::Methods);
    assert_eq!(s.sections[3].content, "We train it.");
    assert!(s.metadata.abstract_text.is_none());
    assert!(s.sections.iter().all(|x| x.start_page.is_none()));
}

#[test]
fn structure_keeps_last_section() {
    let s = ReadingPdfParser::extract_structure("2. Methods\nWe train it.\n\nConclusion\nDone.");
    assert_eq!(s.sections.len(), 2);
    assert_eq!(s.sections[0].section_type, SectionType::Methods);
    assert_eq!(s.sections[0].content, "We train it.\n");
    assert_eq!(s.sections[1].section_type, SectionType::Conclusion);
    assert_eq!(s.sections[1].content, "Done.");
}

#[test]
fn failed_extractions_are_refused() {
    match PdfParser::from_extraction("x.pdf", Err("bad header".to_string())) {
        Err(Error::Storage(m)) => assert_eq!(m, "PDF 解析失败: bad header"),
        _ => panic!("expected a storage error"),
    }
    match ReadingPdfParser::from_extraction("x.pdf", Err("bad header".to_string())) {
        Err(PdfError::ParseError(m)) => assert_eq!(m, "bad header"),
        _ => panic!("expected a parse error"),
    }
    assert!(pdf_extract::extract_text_from_mem(b"not a pdf").is_err());
}

#[test]
fn long_paragraph_is_cut_after_sentence_ends() {
    let chunker = PaperChunker::new(10, 2);
    let pieces = chunker.split_large_paragraph("Hello you. Bye now.");
    assert_eq!(pieces, vec!["Hello you.".to_string(), "u.".to_string(), " Bye now.".to_string()]);
}

/// A one-page PDF that shows `text` in Helvetica, with a correct
/// cross-reference table.
fn tiny_pdf(text: &str) -> Vec<u8> {
    let content = format!("BT /F1 24 Tf 72 700 Td ({}) Tj ET", text);
    let objects = vec![
        "<< /Type /Catalog /Pages 2 0 R >>".to_string(),
        "<< /Type /Pages /Kids [3 0 R] /Count 1 >>".to_string(),
        "<< /Type /Page /Parent 2 0 R /MediaBox [0 0 612 792] /Contents 4 0 R /Resources << /Font << /F1 5 0 R >> >> >>".to_string(),
        format!("<< /Length {} >>\nstream\n{}\nendstream", content.len(), content),
        "<< /Type /Font /Subtype /Type1 /BaseFont /Helvetica /Encoding /WinAnsiEncoding >>".to_string(),
    ];
    let mut out = b"%PDF-1.4\n".to_vec();
    let mut offsets = Vec::new();
    for (i, body) in objects.iter().enumerate() {
        offsets.push(out.len());
        out.extend_from_slice(format!("{} 0 obj\n{}\nendobj\n", i + 1, body).as_bytes());
    }
    let xref = out.len();
    out.extend_from_slice(format!("xref\n0 {}\n0000000000 65535 f \n", objects.len() + 1).as_bytes());
    for off in offsets {
        out.extend_from_slice(format!("{:010} 00000 n \n", off).as_bytes());
    }
    out.extend_from_slice(
        format!("trailer\n<< /Size {} /Root 1 0 R >>\nstartxref\n{}\n%%EOF\n", objects.len() + 1, xref).as_bytes(),
    );
    out
}

#[test]
fn text_of_a_pdf_is_extracted() {
    let data = tiny_pdf("Hello Verified World");
    let text = pdf_extract::extract_text_from_mem(&data).map_err(|e| e.to_string());
    let doc = PdfParser::from_extraction("/papers/tiny.pdf", text.clone()).unwrap();
    assert!(doc.text.contains("Hello Verified World"));
    assert_eq!(doc.file_path, "/papers/tiny.pdf");
    assert_eq!(doc.page_count, doc.text.matches('\u{c}').count() + 1);
    let doc2 = PdfParser::from_extraction("p", Ok("a\u{c}b\u{c}c".to_string())).unwrap();
    assert_eq!(doc2.page_count, 3);
    let read = ReadingPdfParser::from_extraction("/papers/tiny.pdf", text).unwrap();
    assert_eq!(read.text, doc.text);
}
