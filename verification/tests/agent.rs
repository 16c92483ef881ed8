use serde_json::Value;
use xuan_agent::agent::XuanAgent;
use xuan_agent::config::{AiProviderConfig, Config, DbConfig, SystemPromptConfig, DEFAULT_SYSTEM_PROMPT};
use xuan_agent::tools::Tool;

fn create_test_config(system_prompt: Option<SystemPromptConfig>) -> Config {
    Config {
        ai_provider: AiProviderConfig {
            provider: "test".to_string(),
            base_url: "http://test.com".to_string(),
            api_key: "test-key".to_string(),
            model: "test-model".to_string(),
            description: Some("provider".to_string()),
        },
        db: DbConfig {
            connect: "http://localhost:8000".to_string(),
            user: "root".to_string(),
            pass: "secret".to_string(),
            namespace: "test".to_string(),
            database: "test".to_string(),
        },
        system_prompt,
    }
}

#[test]
fn test_agent_creation() {
    let agent: XuanAgent<()> = XuanAgent::new(create_test_config(None)).unwrap();
    assert!(agent.is_ready());
}

#[test]
fn new_agent_uses_the_configured_prompt() {
    let agent: XuanAgent<()> = XuanAgent::new(create_test_config(None)).unwrap();
    assert_eq!(agent.llm().get_system_prompt(), DEFAULT_SYSTEM_PROMPT);
    assert_eq!(agent.llm().config().description, Some("provider".to_string()));
    assert!(agent.mcp_host().list_servers().is_empty());
    assert!(agent.tools().list_tools().is_empty());
    let custom = SystemPromptConfig { base: "BASE".to_string(), tools_template: "T{tools}".to_string() };
    let agent: XuanAgent<()> = XuanAgent::new(create_test_config(Some(custom))).unwrap();
    assert_eq!(agent.llm().get_system_prompt(), "BASE");
}

#[test]
fn prompt_lists_the_tools() {
    let custom = SystemPromptConfig { base: "BASE".to_string(), tools_template: "Tools:\n{tools}\nEnd. ".to_string() };
    let mut agent: XuanAgent<()> = XuanAgent::new(create_test_config(Some(custom))).unwrap();
    assert_eq!(agent.build_prompt_with_tools(), "BASE");
    agent.register_tool(Tool { name: "a".to_string(), description: "does a".to_string(), input_schema: Value::Null });
    agent.tools_mut().register(Tool { name: "b".to_string(), description: "does b".to_string(), input_schema: Value::Null });
    assert_eq!(agent.build_prompt_with_tools(), "Tools:\n- **a**: does a\n- **b**: does b\nEnd. BASE");
}

#[test]
fn default_template_is_filled_in() {
    let mut agent: XuanAgent<()> = XuanAgent::new(create_test_config(None)).unwrap();
    agent.register_tool(Tool { name: "x".to_string(), description: "y".to_string(), input_schema: Value::Null });
    let p = agent.build_prompt_with_tools();
    assert!(p.starts_with("\n\n## 可用工具\n\n你有以下工具可以使用：\n\n- **x**: y\n\n当需要使用工具时"));
    assert!(p.ends_with(DEFAULT_SYSTEM_PROMPT));
}
