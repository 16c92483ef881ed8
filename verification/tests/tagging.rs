use xuan_agent::classification::tagging::{is_stop_word, TagCategory, TaggingService};
use xuan_agent::config::{AiProviderConfig, Config, DbConfig};
use xuan_agent::storage::models::Paper;

fn test_config() -> Config {
    Config {
        ai_provider: AiProviderConfig {
            provider: "test".to_string(),
            base_url: "http://test".to_string(),
            api_key: "test".to_string(),
            model: "test".to_string(),
            description: None,
        },
        db: DbConfig {
            connect: "ws://localhost:8000".to_string(),
            user: "root".to_string(),
            pass: "secret".to_string(),
            namespace: "test".to_string(),
            database: "test".to_string(),
        },
        system_prompt: None,
    }
}

#[test]
fn test_extract_keywords() {
    let service = TaggingService::new(test_config());
    let text = "machine learning artificial intelligence neural networks deep learning";
    let keywords = service.extract_keywords(text);
    assert!(!keywords.is_empty());
}

#[test]
fn test_detect_field() {
    let service = TaggingService::new(test_config());
    let text = "This paper is about deep learning and neural networks";
    let field = service.detect_field(text);
    assert!(field.is_some());
}

#[test]
fn test_is_stop_word() {
    assert!(is_stop_word("the"));
    assert!(is_stop_word("的"));
    assert!(!is_stop_word("neural"));
    assert!(!is_stop_word("network"));
}

#[test]
fn keywords_are_frequent_words_most_frequent_first() {
    let service = TaggingService::new(test_config());
    let keywords = service.extract_keywords("learning deep learning the the the model learning model");
    assert_eq!(keywords[0], "learning");
    assert_eq!(keywords[1], "model");
    assert!(!keywords.iter().any(|k| k == "the"));
}

#[test]
fn detected_field_is_first_listed_field_mentioned() {
    let service = TaggingService::new(test_config());
    assert_eq!(service.detect_field("Deep Learning for physics"), Some("深度学习".to_string()));
    assert_eq!(service.detect_field("nothing relevant"), None);
}

#[test]
fn generated_tags_come_most_confident_first() {
    let service = TaggingService::new(test_config());
    let paper = Paper {
        id: "paper:1".to_string(),
        title: "Deep learning".to_string(),
        abstract_text: "We use a transformer with attention on images".to_string(),
        authors: vec!["A".to_string()],
        year: None,
        journal: None,
        doi: None,
        file_path: None,
        tags: vec![],
        created_at: "2024-01-01T00:00:00Z".to_string(),
    };
    let tags = service.generate_tags(&paper).unwrap();
    assert!(!tags.is_empty());
    assert_eq!(tags[0].category, TagCategory::Field);
    assert_eq!(tags[0].confidence_percent, 90);
    for w in tags.windows(2) {
        assert!(w[0].confidence_percent >= w[1].confidence_percent);
    }
}

#[test]
fn tag_prompt_lists_title_abstract_and_authors() {
    let service = TaggingService::new(test_config());
    let paper = Paper {
        id: "paper:1".to_string(),
        title: "T".to_string(),
        abstract_text: "A".to_string(),
        authors: vec!["X".to_string(), "Y".to_string()],
        year: None,
        journal: None,
        doi: None,
        file_path: None,
        tags: vec![],
        created_at: String::new(),
    };
    let prompt = service.llm_tag_prompt(&paper);
    assert!(prompt.starts_with("请为以下文献生成 3-5 个标签。\n\n标题: T\n摘要: A\n作者: X, Y\n\n请以 JSON 格式返回"));
    assert!(prompt.ends_with("- keyword: 关键词\n"));
}
