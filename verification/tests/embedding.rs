use xuan_agent::config::AiProviderConfig;
use xuan_agent::storage::embedding::EmbeddingService;

fn provider(name: &str) -> AiProviderConfig {
    AiProviderConfig {
        provider: name.to_string(),
        base_url: "http://test.com".to_string(),
        api_key: "test".to_string(),
        model: "test".to_string(),
        description: None,
    }
}

#[test]
fn test_chunk_text() {
    let service = EmbeddingService::new(provider("test"));
    let text = "First paragraph.\n\nSecond paragraph.\n\nThird paragraph.";
    let chunks = service.chunk_text(text, 50);
    assert!(!chunks.is_empty());
    assert!(chunks.len() <= 3);
    for (i, chunk) in chunks.iter().enumerate() {
        if i < chunks.len() - 1 {
            assert!(chunk.chars().count() <= 50, "Chunk {} exceeds limit: {}", i, chunk.chars().count());
        }
    }
}

#[test]
fn lines_are_packed_with_line_feeds() {
    let service = EmbeddingService::new(provider("test"));
    let chunks = service.chunk_text("aaaa\n  bbbb \n\ncccc", 8);
    assert_eq!(chunks, vec!["aaaa\nbbbb".to_string(), "cccc".to_string()]);
}

#[test]
fn dimension_depends_on_provider() {
    assert_eq!(EmbeddingService::new(provider("openai")).embedding_dim(), 1536);
    let s = EmbeddingService::new(provider("ollama"));
    assert_eq!(s.embedding_dim(), 768);
    assert_eq!(s.with_embedding_dim(1024).embedding_dim(), 1024);
    let s = EmbeddingService::new(provider("x"));
    assert_eq!(s.endpoint(), "http://test.com/embeddings");
    assert_eq!(s.authorization(), "Bearer test");
    assert_eq!(s.model(), "test");
}
