use xuan_agent::reading::chunk::{ChunkType, Chunker};

#[test]
fn chunk_test_chunk_by_paragraph() {
    let chunker = Chunker::default();
    let text = "First paragraph.\n\nSecond paragraph.\n\nThird paragraph.";
    let chunks = chunker.chunk_by_paragraph(text);
    assert!(!chunks.is_empty());
    assert!(chunks.len() <= 3);
}

#[test]
fn test_chunk_by_sentence() {
    let chunker = Chunker::default();
    let text = "First sentence. Second sentence. Third sentence.";
    let chunks = chunker.chunk_by_sentence(text);
    assert!(!chunks.is_empty());
}

#[test]
fn test_large_paragraph_splitting() {
    let chunker = Chunker::new(100, 20);
    let text = "A".repeat(500);
    let chunks = chunker.chunk_by_paragraph(&text);
    assert!(chunks.len() > 1, "Large paragraph should be split");
    for (i, chunk) in chunks.iter().enumerate() {
        if i < chunks.len() - 1 {
            assert!(chunk.content.len() <= 100, "Chunk {} exceeds limit: {}", i, chunk.content.len());
        }
    }
}

#[test]
fn short_paragraphs_share_a_chunk() {
    let chunker = Chunker::default();
    let chunks = chunker.chunk_by_paragraph("First paragraph.\n\nSecond paragraph.\n\nThird paragraph.");
    assert_eq!(chunks.len(), 1);
    assert_eq!(chunks[0].content, "First paragraph.\n\nSecond paragraph.\n\nThird paragraph.");
    assert_eq!(chunks[0].index, 0);
    assert_eq!(chunks[0].chunk_type, ChunkType::Other);
    assert!(chunks[0].page_number.is_none());
}

#[test]
fn chunks_are_numbered_in_order() {
    let chunker = Chunker::new(20, 0);
    let chunks = chunker.chunk_by_paragraph("Alpha paragraph one.\n\nBeta paragraph two.\n\nGamma.");
    let texts: Vec<&str> = chunks.iter().map(|c| c.content.as_str()).collect();
    assert_eq!(texts, vec!["Alpha paragraph one.", "Beta paragraph two.", "Gamma."]);
    for (i, c) in chunks.iter().enumerate() {
        assert_eq!(c.index, i);
    }
}

#[test]
fn sentences_are_packed_within_the_limit() {
    let chunker = Chunker::new(20, 0);
    let chunks = chunker.chunk_by_sentence("One two. Three four. Five six. Tail without end");
    let texts: Vec<&str> = chunks.iter().map(|c| c.content.as_str()).collect();
    assert_eq!(texts, vec!["One two. ", "Three four. ", "Five six. "]);
}

#[test]
fn large_paragraph_pieces_overlap_and_lose_nothing() {
    let chunker = Chunker::new(100, 20);
    let pieces = chunker.split_large_paragraph(&"A".repeat(250));
    let lens: Vec<usize> = pieces.iter().map(|p| p.len()).collect();
    assert_eq!(lens, vec![100, 100, 90]);
    let chunker = Chunker::new(2, 1);
    assert_eq!(chunker.split_large_paragraph("abcd"), vec!["ab".to_string(), "bc".to_string(), "cd".to_string()]);
    let chunker = Chunker::new(4, 0);
    assert_eq!(chunker.split_large_paragraph("abcdefghij"), vec!["abcd".to_string(), "efgh".to_string(), "ij".to_string()]);
}

#[test]
fn sentence_chunks_keep_context() {
    let chunker = Chunker::new(5, 2);
    let chunks = chunker.chunk_by_sentence("Ab. Cd.");
    let texts: Vec<&str> = chunks.iter().map(|c| c.content.as_str()).collect();
    assert_eq!(texts, vec!["Ab. ", ".  Cd."]);
    let chunker = Chunker::new(12, 4);
    let chunks = chunker.chunk_by_sentence("One two. Three four. Five six. ");
    for w in chunks.windows(2) {
        let prev: Vec<char> = w[0].content.chars().collect();
        let tail: String = prev[prev.len().saturating_sub(4)..].iter().collect();
        assert!(w[1].content.starts_with(&tail));
    }
}
