use xuan_agent::config::AiProviderConfig;
use xuan_agent::error::Error;
use xuan_agent::llm::{reply_of, unreadable_response, LlmService};

fn provider() -> AiProviderConfig {
    AiProviderConfig {
        provider: "test".to_string(),
        base_url: "http://test.com".to_string(),
        api_key: "test-key".to_string(),
        model: "test-model".to_string(),
        description: None,
    }
}

#[test]
fn test_create_llm_service() {
    let service = LlmService::new(provider());
    assert_eq!(service.get_system_prompt(), "你是 XuanAgent，一个专业的科研 AI 助手。");
}

#[test]
fn test_set_system_prompt() {
    let mut service = LlmService::new(provider());
    service.set_system_prompt("自定义提示词".to_string());
    assert_eq!(service.get_system_prompt(), "自定义提示词");
}

#[test]
fn setting_twice_keeps_the_last_prompt() {
    let mut service = LlmService::new(provider());
    service.set_system_prompt("a".to_string());
    service.set_system_prompt("b".to_string());
    assert_eq!(service.get_system_prompt(), "b");
    assert_eq!(service.config().model, "test-model");
}

#[test]
fn requests_carry_system_and_user_messages() {
    let service = LlmService::new(provider());
    assert_eq!(service.endpoint(), "http://test.com/chat/completions");
    assert_eq!(service.authorization(), "Bearer test-key");
    let r = service.request("hi");
    assert_eq!(r.model, "test-model");
    assert!(!r.stream);
    assert_eq!(r.messages.len(), 2);
    assert_eq!(r.messages[0].role, "system");
    assert_eq!(r.messages[0].content, "你是 XuanAgent，一个专业的科研 AI 助手。");
    assert_eq!(r.messages[1].role, "user");
    assert_eq!(r.messages[1].content, "hi");
    let r = service.request_with_prompt("q", "sys");
    assert_eq!(r.messages[0].content, "sys");
}

#[test]
fn reply_is_first_choice_or_apology() {
    assert_eq!(reply_of(vec!["one".to_string(), "two".to_string()]), "one");
    assert_eq!(reply_of(vec![]), "抱歉，没有收到响应。");
    match unreadable_response("bad json") {
        Error::Llm(m) => assert_eq!(m, "解析响应失败: bad json"),
        _ => panic!("expected an LLM error"),
    }
}
