use xuan_agent::console::{
    chat_command, chunk_record_id, import_abstract, import_title, imported_paper, list_line, progress_due,
    search_result_line, ChatCommand,
};
use xuan_agent::storage::models::PaperInfo;

#[test]
fn chat_lines_are_read_by_their_first_word() {
    assert_eq!(chat_command(""), ChatCommand::Skip);
    assert_eq!(chat_command("   "), ChatCommand::Skip);
    assert_eq!(chat_command("quit"), ChatCommand::Quit);
    assert_eq!(chat_command(" exit now"), ChatCommand::Quit);
    assert_eq!(chat_command("q"), ChatCommand::Quit);
    assert_eq!(chat_command("help"), ChatCommand::Help);
    assert_eq!(chat_command("h me"), ChatCommand::Help);
    assert_eq!(chat_command("hello"), ChatCommand::Chat);
    assert_eq!(chat_command("quitting"), ChatCommand::Chat);
    assert_eq!(chat_command(" tools "), ChatCommand::Tools);
    assert_eq!(chat_command("mcp test"), ChatCommand::McpUsage);
    assert_eq!(
        chat_command("mcp test echo {\"message\": \"Hello\"}"),
        ChatCommand::Mcp {
            server: "test".to_string(),
            tool: "echo".to_string(),
            args: vec!["{\"message\":".to_string(), "\"Hello\"}".to_string()],
        }
    );
    assert_eq!(
        chat_command("mcp s t"),
        ChatCommand::Mcp { server: "s".to_string(), tool: "t".to_string(), args: vec![] }
    );
}

#[test]
fn imports_take_a_short_abstract() {
    assert_eq!(import_abstract("short"), "short");
    let long = "a".repeat(600);
    assert_eq!(import_abstract(&long), format!("{}...", "a".repeat(500)));
    let wide = "中".repeat(200);
    assert_eq!(import_abstract(&wide), format!("{}...", wide));
    assert_eq!(import_title("/x/Paper.pdf"), "Paper");
    assert_eq!(import_title(""), "Unknown Title");
}

#[test]
fn imported_records() {
    let p = imported_paper("k1", "T".to_string(), "A".to_string(), "/x/p.pdf", "2024-01-01T00:00:00Z".to_string());
    assert_eq!(p.id, "paper:k1");
    assert_eq!(p.authors, vec!["Unknown".to_string()]);
    assert_eq!(p.tags, vec!["imported".to_string()]);
    assert_eq!(p.file_path, Some("/x/p.pdf".to_string()));
    assert_eq!(chunk_record_id("k2"), "chunk:k2");
    assert!(progress_due(9));
    assert!(!progress_due(10));
    assert!(progress_due(19));
}

#[test]
fn listing_lines() {
    let p = PaperInfo {
        id: "paper:0".to_string(),
        title: "T".to_string(),
        authors: vec!["A".to_string(), "B".to_string()],
        year: Some(2021),
        journal: None,
    };
    assert_eq!(search_result_line(0, &p), "  1. \"T\" (2021)");
    assert_eq!(list_line(4, &p), "  5. \"T\" - A, B (2021)");
    let q = PaperInfo { year: None, ..p };
    assert_eq!(search_result_line(1, &q), "  2. \"T\" (0)");
}
