# xuan-agent

A research assistant library: it reads papers (PDF text, section structure,
chunks for retrieval and embedding), tags them, keeps the tools and MCP
servers an agent can use, builds the system prompt and the chat requests, and
reads the replies. Its logic is written in Verus and proved against the
contracts it states.

## Layout

- `src/` — the verified library.
  - `text.rs`: character-level helpers (trimming, splitting, replacing,
    decimal numerals) and the few standard-library calls whose results are
    named rather than restated (case mapping, `char::is_uppercase`).
  - `segment.rs`: greedy packing of paragraphs, lines and sentences into
    chunks, and the cutting of long paragraphs, with their laws.
  - `pdf.rs`, `reading/`: documents built from the extracted text, section
    structure, chunkers, and what the reading server's tools compute and
    answer.
  - `classification/`: keyword, field and method tags.
  - `config.rs`, `llm.rs`, `tools.rs`, `mcp/`, `agent.rs`: the agent's
    settings, chat requests, tool registry, MCP host and system prompt.
  - `storage/`: paper records, embedding settings and the identifiers and
    addresses the SurrealDB store uses.
  - `console.rs`, `api.rs`: what the command-line tool and the web API
    decide and show.
- `tests/` — tests of the library on concrete values.
- `app/` — the programs around the library: configuration file, PDF text
  extraction (with `pdf-extract`, whose panics on malformed files are caught
  there), HTTP, processes, database queries, the reading MCP server, the command line and
  the web server.
