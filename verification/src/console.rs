//! What the command-line tool decides and shows: how a line typed in the
//! chat is read, the paper record an import makes, and the lines that list
//! papers. Reading input, the database and the model are left to the
//! application around this library.
use vstd::prelude::*;
use crate::pdf::{file_stem, path_file_stem};
use crate::segment::{join, join_strings};
use crate::storage::models::{Paper, PaperInfo};
use crate::text::{
    chars_equal, chars_of, copy_range, decimal, decimal_string, signed_decimal,
    signed_decimal_string, string_of, utf8_len, utf8_longer_than, words, words_of,
};

verus! {

/// What a line typed in the chat asks for.
#[derive(Debug, Clone, PartialEq, Eq)]
pub enum ChatCommand {
    /// A blank line: prompt again.
    Skip,
    /// `quit`, `exit` or `q` as first word: leave.
    Quit,
    /// `help` or `h` as first word: show the help.
    Help,
    /// `tools` as first word: list the available tools.
    Tools,
    /// `mcp <server> <tool> [args]`: call a tool of an MCP server with the
    /// remaining words as its arguments.
    Mcp { server: String, tool: String, args: Vec<String> },
    /// `mcp` without a server and a tool: show how to call a tool.
    McpUsage,
    /// Anything else: send the whole line to the agent.
    Chat,
}

/// What a line asks for, by its whitespace-separated words: the first one
/// names the command; for `mcp`, the second and third name the server and
/// the tool and the rest are the arguments.
pub open spec fn chat_command_of(line: Seq<char>, r: ChatCommand) -> bool {
    let ws = words(line);
    if ws.len() == 0 {
        r is Skip
    } else if ws[0] == "quit"@ || ws[0] == "exit"@ || ws[0] == "q"@ {
        r is Quit
    } else if ws[0] == "help"@ || ws[0] == "h"@ {
        r is Help
    } else if ws[0] == "tools"@ {
        r is Tools
    } else if ws[0] == "mcp"@ {
        if ws.len() >= 3 {
            r matches ChatCommand::Mcp { server, tool, args } && server@ == ws[1] && tool@ == ws[2]
                && args.deep_view() == ws.skip(3)
        } else {
            r is McpUsage
        }
    } else {
        r is Chat
    }
}

/// Whether `w` is one of the literals.
fn is_one_of(w: &Vec<char>, options: Vec<&'static str>) -> (r: bool)
    ensures
        r == exists|k: int| 0 <= k < options@.len() && w@ == (#[trigger] options@[k])@,
{
    let mut k: usize = 0;
    while k < options.len()
        invariant
            k <= options@.len(),
            forall|j: int| 0 <= j < k ==> w@ != (#[trigger] options@[j])@,
        decreases options@.len() - k,
    {
        if chars_equal(w, &chars_of(options[k])) {
            return true;
        }
        k = k + 1;
    }
    false
}

/// Reads a line typed in the chat (see `chat_command_of`).
pub fn chat_command(line: &str) -> (r: ChatCommand)
    ensures
        chat_command_of(line@, r),
{
    proof {
        reveal_strlit("quit");
        reveal_strlit("exit");
        reveal_strlit("q");
        reveal_strlit("help");
        reveal_strlit("h");
        reveal_strlit("tools");
        reveal_strlit("mcp");
    }
    let mut ws = words_of(line);
    if ws.len() == 0 {
        return ChatCommand::Skip;
    }
    let ghost all = ws.deep_view();
    assert(all == words(line@));
    let first = chars_of(ws[0].as_str());
    assert(first@ == all[0]);
    let quit = vec!["quit", "exit", "q"];
    let help = vec!["help", "h"];
    assert(quit@[0]@ == "quit"@ && quit@[1]@ == "exit"@ && quit@[2]@ == "q"@);
    assert(help@[0]@ == "help"@ && help@[1]@ == "h"@);
    if is_one_of(&first, quit) {
        return ChatCommand::Quit;
    }
    assert(!(first@ == "quit"@ || first@ == "exit"@ || first@ == "q"@)) by {
        if first@ == "quit"@ {
            assert(first@ == quit@[0]@);
        }
        if first@ == "exit"@ {
            assert(first@ == quit@[1]@);
        }
        if first@ == "q"@ {
            assert(first@ == quit@[2]@);
        }
    }
    if is_one_of(&first, help) {
        return ChatCommand::Help;
    }
    assert(!(first@ == "help"@ || first@ == "h"@)) by {
        if first@ == "help"@ {
            assert(first@ == help@[0]@);
        }
        if first@ == "h"@ {
            assert(first@ == help@[1]@);
        }
    }
    if chars_equal(&first, &chars_of("tools")) {
        return ChatCommand::Tools;
    }
    if chars_equal(&first, &chars_of("mcp")) {
        if ws.len() < 3 {
            return ChatCommand::McpUsage;
        }
        let _command = ws.remove(0);
        let server = ws.remove(0);
        let tool = ws.remove(0);
        assert(ws.deep_view() =~= all.skip(3));
        return ChatCommand::Mcp { server, tool, args: ws };
    }
    ChatCommand::Chat
}

// ---------------------------------------------------------------------------
// Importing a paper
// ---------------------------------------------------------------------------

/// The title of an imported paper: its file name without extension, or
/// "Unknown Title".
pub fn import_title(file: &str) -> (r: String)
    ensures
        match file_stem(file@) {
            Some(s) => r@ == s,
            None => r@ == "Unknown Title"@,
        },
{
    match path_file_stem(file) {
        Some(s) => s,
        None => String::from_str("Unknown Title"),
    }
}

/// The abstract an import takes from a text: when the text is longer than
/// 500 bytes, its first 500 characters (all of a shorter one) and "...";
/// otherwise the whole text.
pub open spec fn import_abstract_of(text: Seq<char>) -> Seq<char> {
    if utf8_len(text) > 500 {
        text.take(if text.len() < 500 {
            text.len() as int
        } else {
            500
        }) + "..."@
    } else {
        text
    }
}

/// The abstract an import takes from a text (see `import_abstract_of`).
pub fn import_abstract(text: &str) -> (r: String)
    ensures
        r@ == import_abstract_of(text@),
{
    let v = chars_of(text);
    if utf8_longer_than(&v, 500) {
        let n = if v.len() < 500 {
            v.len()
        } else {
            500
        };
        assert(v@.subrange(0, n as int) =~= v@.take(n as int));
        let mut r = string_of(&copy_range(&v, 0, n));
        r.append("...");
        r
    } else {
        String::from_str(text)
    }
}

/// The record an import makes: identifier `paper:{key}`, the title and
/// abstract given, the single author "Unknown", no year, journal or DOI, the
/// file's path, the tag "imported", and the time given.
pub fn imported_paper(key: &str, title: String, abstract_text: String, file: &str, created_at: String) -> (r: Paper)
    ensures
        r.id@ == "paper:"@ + key@,
        r.title@ == title@,
        r.abstract_text@ == abstract_text@,
        r.authors.deep_view() == seq!["Unknown"@],
        r.year is None,
        r.journal is None,
        r.doi is None,
        r.file_path matches Some(f) && f@ == file@,
        r.tags.deep_view() == seq!["imported"@],
        r.created_at@ == created_at@,
{
    let mut id = String::from_str("paper:");
    id.append(key);
    let authors = vec![String::from_str("Unknown")];
    let tags = vec![String::from_str("imported")];
    assert(authors.deep_view() =~= seq!["Unknown"@]);
    assert(tags.deep_view() =~= seq!["imported"@]);
    Paper {
        id,
        title,
        abstract_text,
        authors,
        year: None,
        journal: None,
        doi: None,
        file_path: Some(String::from_str(file)),
        tags,
        created_at,
    }
}

/// The identifier of an imported chunk: `chunk:{key}`.
pub fn chunk_record_id(key: &str) -> (r: String)
    ensures
        r@ == "chunk:"@ + key@,
{
    let mut r = String::from_str("chunk:");
    r.append(key);
    r
}

/// Whether the import reports its progress after the chunk at `index`:
/// after every tenth chunk.
pub fn progress_due(index: usize) -> (r: bool)
    requires
        index < usize::MAX,
    ensures
        r == ((index + 1) % 10 == 0),
{
    (index + 1) % 10 == 0
}

// ---------------------------------------------------------------------------
// Listing papers
// ---------------------------------------------------------------------------

/// A year as shown, 0 when unknown.
pub open spec fn shown_year(y: Option<i32>) -> Seq<char> {
    match y {
        Some(v) => signed_decimal(v as int),
        None => decimal(0),
    }
}

fn year_text(y: Option<i32>) -> (r: String)
    ensures
        r@ == shown_year(y),
{
    match y {
        Some(v) => signed_decimal_string(v as i64),
        None => decimal_string(0),
    }
}

/// The line of the `i`-th search result (from 0): `  {i+1}. "{title}" ({year})`.
pub fn search_result_line(i: usize, p: &PaperInfo) -> (r: String)
    requires
        i < u64::MAX,
    ensures
        r@ == "  "@ + decimal((i + 1) as nat) + ". \""@ + p.title@ + "\" ("@ + shown_year(p.year)
            + ")"@,
{
    let mut r = String::from_str("  ");
    r.append(decimal_string((i as u64) + 1).as_str());
    r.append(". \"");
    r.append(p.title.as_str());
    r.append("\" (");
    r.append(year_text(p.year).as_str());
    r.append(")");
    r
}

/// The line of the `i`-th listed paper (from 0):
/// `  {i+1}. "{title}" - {authors joined by ", "} ({year})`.
pub fn list_line(i: usize, p: &PaperInfo) -> (r: String)
    requires
        i < u64::MAX,
    ensures
        r@ == "  "@ + decimal((i + 1) as nat) + ". \""@ + p.title@ + "\" - "@ + join(
            p.authors.deep_view(),
            ", "@,
        ) + " ("@ + shown_year(p.year) + ")"@,
{
    let mut r = String::from_str("  ");
    r.append(decimal_string((i as u64) + 1).as_str());
    r.append(". \"");
    r.append(p.title.as_str());
    r.append("\" - ");
    r.append(join_strings(&p.authors, ", ").as_str());
    r.append(" (");
    r.append(year_text(p.year).as_str());
    r.append(")");
    r
}

} // verus!
