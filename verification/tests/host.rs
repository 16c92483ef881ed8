use xuan_agent::error::Error;
use xuan_agent::mcp::host::{call_outcome, parse_command, McpHost};

#[test]
fn test_host_creation() {
    let host: McpHost<()> = McpHost::new();
    assert!(host.list_servers().is_empty());
}

#[test]
fn servers_are_kept_by_name() {
    let mut host: McpHost<u32> = McpHost::default();
    host.add_server("a".to_string(), 1);
    host.add_server("b".to_string(), 2);
    host.add_server("a".to_string(), 3);
    assert_eq!(host.list_servers(), vec!["a", "b"]);
    let i = host.find("a").unwrap();
    assert_eq!(*host.connection_mut(i), 3);
    assert_eq!(host.find("c"), None);
}

#[test]
fn calls_get_increasing_ids_and_unknown_servers_are_refused() {
    let mut host: McpHost<u32> = McpHost::new();
    host.add_server("s".to_string(), 0);
    assert_eq!(host.begin_call("s").unwrap(), 1);
    assert_eq!(host.begin_call("s").unwrap(), 2);
    match host.begin_call("missing") {
        Err(Error::Mcp(m)) => assert_eq!(m, "服务器不存在: missing"),
        _ => panic!("expected an MCP error"),
    }
    assert_eq!(host.begin_call("s").unwrap(), 3);
}

#[test]
fn commands_split_at_whitespace() {
    let (program, args) = parse_command("  python3  server.py --verbose ").unwrap();
    assert_eq!(program, "python3");
    assert_eq!(args, vec!["server.py".to_string(), "--verbose".to_string()]);
    match parse_command("   ") {
        Err(Error::Mcp(m)) => assert_eq!(m, "命令为空"),
        _ => panic!("expected an MCP error"),
    }
}

#[test]
fn replies_give_result_or_error() {
    match call_outcome::<u8>(Some(7), None) {
        Ok(Some(7)) => {}
        _ => panic!("expected the result"),
    }
    match call_outcome::<u8>(None, Some((-32601, "Method not found".to_string()))) {
        Err(Error::Mcp(m)) => assert_eq!(m, "MCP 错误: -32601 - Method not found"),
        _ => panic!("expected an MCP error"),
    }
}

#[test]
fn started_names_are_listed_once() {
    let mut host: McpHost<&str> = McpHost::new();
    host.add_server("test".to_string(), "first");
    assert_eq!(host.list_servers(), vec!["test"]);
    host.add_server("other".to_string(), "x");
    host.add_server("test".to_string(), "second");
    assert_eq!(host.list_servers(), vec!["test", "other"]);
    let i = host.find("test").unwrap();
    assert_eq!(*host.connection_mut(i), "second");
}

#[test]
fn tool_call_requests() {
    let r = xuan_agent::mcp::host::tool_call_request(7, "echo");
    assert_eq!(r.jsonrpc, "2.0");
    assert_eq!(r.method, "tools/call");
    assert_eq!(r.tool, "echo");
    assert_eq!(r.id, 7);
}
