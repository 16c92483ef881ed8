use serde_json::Value;
use xuan_agent::tools::{Tool, ToolRegistry};

fn schema() -> Value {
    let mut message = serde_json::Map::new();
    message.insert("type".to_string(), Value::String("string".to_string()));
    let mut properties = serde_json::Map::new();
    properties.insert("message".to_string(), Value::Object(message));
    let mut root = serde_json::Map::new();
    root.insert("type".to_string(), Value::String("object".to_string()));
    root.insert("properties".to_string(), Value::Object(properties));
    Value::Object(root)
}

#[test]
fn test_tool_registry() {
    let mut registry = ToolRegistry::new();
    registry.register(Tool {
        name: "test_tool".to_string(),
        description: "测试工具".to_string(),
        input_schema: schema(),
    });
    assert_eq!(registry.list_tools().len(), 1);
    assert!(registry.get_tool("test_tool").is_some());
    assert!(registry.get_tool("nonexistent").is_none());
}

#[test]
fn lookup_finds_the_first_tool_of_a_name() {
    let mut registry = ToolRegistry::default();
    registry.register(Tool { name: "a".to_string(), description: "first".to_string(), input_schema: Value::Null });
    registry.register(Tool { name: "b".to_string(), description: "other".to_string(), input_schema: Value::Null });
    registry.register(Tool { name: "a".to_string(), description: "second".to_string(), input_schema: Value::Null });
    assert_eq!(registry.get_tool("a").unwrap().description, "first");
    assert_eq!(registry.get_tool("b").unwrap().description, "other");
    let names: Vec<&str> = registry.list_tools().iter().map(|t| t.name.as_str()).collect();
    assert_eq!(names, vec!["a", "b", "a"]);
}
