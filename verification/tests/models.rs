use xuan_agent::storage::models::{ChunkType, Paper, PaperInfo};

#[test]
fn test_chunk_type_detection() {
    assert!(matches!(ChunkType::from_text("Abstract: This is..."), ChunkType::Abstract));
    assert!(matches!(ChunkType::from_text("1. Introduction"), ChunkType::Introduction));
    assert!(matches!(ChunkType::from_text("2. Methods"), ChunkType::Methods));
    assert!(matches!(ChunkType::from_text("3. Results"), ChunkType::Results));
}

#[test]
fn chunk_type_by_first_keyword_in_order() {
    assert_eq!(ChunkType::from_text("RESULTS and discussion"), ChunkType::Results);
    assert_eq!(ChunkType::from_text("结论"), ChunkType::Conclusion);
    assert_eq!(ChunkType::from_text("plain text"), ChunkType::Other);
}

#[test]
fn paper_info_keeps_the_summary_fields() {
    let paper = Paper {
        id: "paper:1".to_string(),
        title: "T".to_string(),
        abstract_text: "A".to_string(),
        authors: vec!["X".to_string()],
        year: Some(2020),
        journal: Some("J".to_string()),
        doi: None,
        file_path: None,
        tags: vec![],
        created_at: String::new(),
    };
    let info = PaperInfo::from(paper);
    assert_eq!(info.id, "paper:1");
    assert_eq!(info.title, "T");
    assert_eq!(info.authors, vec!["X".to_string()]);
    assert_eq!(info.year, Some(2020));
    assert_eq!(info.journal, Some("J".to_string()));
}
