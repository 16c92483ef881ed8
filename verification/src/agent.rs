//! The agent: its configuration, chat service, MCP host and tool registry,
//! and the system prompt that tells the model which tools it has.
use vstd::prelude::*;
use crate::config::{Config, DEFAULT_SYSTEM_PROMPT, DEFAULT_TOOLS_PROMPT};
use crate::error::Error;
use crate::llm::LlmService;
use crate::mcp::host::McpHost;
use crate::segment::join;
use crate::text::{replace_all, replace_str};
use crate::tools::{Tool, ToolRegistry};

verus! {

/// A tool's line in the system prompt: `- **{name}**: {description}`.
pub open spec fn tool_line(t: Tool) -> Seq<char> {
    "- **"@ + t.name@ + "**: "@ + t.description@
}

/// The lines of some tools.
pub open spec fn tool_lines(ts: Seq<Tool>) -> Seq<Seq<char>> {
    ts.map_values(|t: Tool| tool_line(t))
}

/// The base system prompt a configuration gives.
pub open spec fn base_prompt(c: Config) -> Seq<char> {
    match c.system_prompt {
        Some(p) => p.base@,
        None => DEFAULT_SYSTEM_PROMPT@,
    }
}

/// The tool template a configuration gives.
pub open spec fn tools_template(c: Config) -> Seq<char> {
    match c.system_prompt {
        Some(p) => p.tools_template@,
        None => DEFAULT_TOOLS_PROMPT@,
    }
}

/// The system prompt with the tools: the base prompt alone when there is no
/// tool; otherwise the template, with `{tools}` replaced by the tools' lines
/// joined by line feeds, followed by the base prompt.
pub open spec fn prompt_with_tools(base: Seq<char>, template: Seq<char>, ts: Seq<Tool>) -> Seq<char> {
    if ts.len() == 0 {
        base
    } else {
        replace_all(template, "{tools}"@, join(tool_lines(ts), "\n"@)) + base
    }
}

/// The agent.
pub struct XuanAgent<C> {
    config: Config,
    llm: LlmService,
    mcp_host: McpHost<C>,
    tools: ToolRegistry,
}

/// Joins the tools' lines with line feeds.
fn join_tool_lines(ts: &[Tool]) -> (r: String)
    ensures
        r@ == join(tool_lines(ts@), "\n"@),
{
    let mut r = String::new();
    let mut k: usize = 0;
    while k < ts.len()
        invariant
            k <= ts@.len(),
            r@ == join(tool_lines(ts@).take(k as int), "\n"@),
        decreases ts@.len() - k,
    {
        let ghost before = r@;
        let ghost ls = tool_lines(ts@);
        if k > 0 {
            r.append("\n");
        }
        r.append("- **");
        r.append(ts[k].name.as_str());
        r.append("**: ");
        r.append(ts[k].description.as_str());
        assert(ls.take(k + 1).drop_last() =~= ls.take(k as int));
        assert(ls[k as int] == tool_line(ts@[k as int]));
        if k > 0 {
            assert(r@ =~= before + "\n"@ + ls[k as int]);
        } else {
            assert(r@ =~= ls[0]);
        }
        k = k + 1;
    }
    assert(tool_lines(ts@).take(k as int) =~= tool_lines(ts@));
    r
}

impl<C> XuanAgent<C> {
    /// The configuration.
    pub closed spec fn settings(&self) -> Config {
        self.config
    }

    /// The chat service.
    pub closed spec fn service(&self) -> LlmService {
        self.llm
    }

    /// The MCP host.
    pub closed spec fn host(&self) -> McpHost<C> {
        self.mcp_host
    }

    /// The tool registry.
    pub closed spec fn registry(&self) -> ToolRegistry {
        self.tools
    }

    /// An agent for the configuration: a chat service for its provider whose
    /// system prompt is the configured base prompt, an empty MCP host and no
    /// tools.
    pub fn new(config: Config) -> (r: Result<Self, Error>)
        ensures
            r matches Ok(a) && {
                &&& a.settings() == config
                &&& a.service().settings().provider@ == config.ai_provider.provider@
                &&& a.service().settings().base_url@ == config.ai_provider.base_url@
                &&& a.service().settings().api_key@ == config.ai_provider.api_key@
                &&& a.service().settings().model@ == config.ai_provider.model@
                &&& a.service().settings().description.is_some()
                    == config.ai_provider.description.is_some()
                &&& a.service().settings().description.is_some()
                    ==> a.service().settings().description.unwrap()@
                    == config.ai_provider.description.unwrap()@
                &&& a.service().prompt() == base_prompt(config)
                &&& a.host().wf()
                &&& a.host().entries().len() == 0
                &&& a.host().next_id() == 1
                &&& a.registry()@.len() == 0
            },
    {
        let mut llm = LlmService::new(config.ai_provider.duplicate());
        let prompts = config.get_system_prompt();
        llm.set_system_prompt(prompts.base);
        let mcp_host = McpHost::new();
        let tools = ToolRegistry::new();
        Ok(XuanAgent { config, llm, mcp_host, tools })
    }

    /// The system prompt that lists the registered tools (see
    /// `prompt_with_tools`).
    pub fn build_prompt_with_tools(&self) -> (r: String)
        ensures
            r@ == prompt_with_tools(
                base_prompt(self.settings()),
                tools_template(self.settings()),
                self.registry()@,
            ),
    {
        let prompts = self.config.get_system_prompt();
        let tools = self.tools.list_tools();
        if tools.len() == 0 {
            return prompts.base;
        }
        let list = join_tool_lines(tools);
        proof {
            reveal_strlit("{tools}");
        }
        let mut r = replace_str(prompts.tools_template.as_str(), "{tools}", list.as_str());
        r.append(prompts.base.as_str());
        r
    }

    /// Registers a tool.
    pub fn register_tool(&mut self, tool: Tool)
        ensures
            final(self).registry()@ == old(self).registry()@.push(tool),
            final(self).settings() == old(self).settings(),
            final(self).service() == old(self).service(),
            final(self).host() == old(self).host(),
    {
        self.tools.register(tool);
    }

    /// The tool registry.
    pub fn tools(&self) -> (r: &ToolRegistry)
        ensures
            *r == self.registry(),
    {
        &self.tools
    }

    /// The tool registry, to change in place.
    pub fn tools_mut(&mut self) -> (r: &mut ToolRegistry)
        ensures
            *r == old(self).registry(),
            final(self).registry() == *final(r),
            final(self).settings() == old(self).settings(),
            final(self).service() == old(self).service(),
            final(self).host() == old(self).host(),
    {
        &mut self.tools
    }

    /// Whether the agent is ready: always.
    pub fn is_ready(&self) -> (r: bool)
        ensures
            r,
    {
        true
    }

    /// The configuration.
    pub fn config(&self) -> (r: &Config)
        ensures
            *r == self.settings(),
    {
        &self.config
    }

    /// The chat service.
    pub fn llm(&self) -> (r: &LlmService)
        ensures
            *r == self.service(),
    {
        &self.llm
    }

    /// The MCP host.
    pub fn mcp_host(&self) -> (r: &McpHost<C>)
        ensures
            *r == self.host(),
    {
        &self.mcp_host
    }

    /// The MCP host, to change in place.
    pub fn mcp_host_mut(&mut self) -> (r: &mut McpHost<C>)
        ensures
            *r == old(self).host(),
            final(self).host() == *final(r),
            final(self).settings() == old(self).settings(),
            final(self).service() == old(self).service(),
            final(self).registry() == old(self).registry(),
    {
        &mut self.mcp_host
    }
}

/// With no tool registered, the prompt is the base prompt; with tools, it
/// ends with the base prompt.
pub proof fn law_prompt_ends_with_base(base: Seq<char>, template: Seq<char>, ts: Seq<Tool>)
    ensures
        ts.len() == 0 ==> prompt_with_tools(base, template, ts) == base,
        prompt_with_tools(base, template, ts).len() >= base.len(),
        prompt_with_tools(base, template, ts).subrange(
            prompt_with_tools(base, template, ts).len() - base.len(),
            prompt_with_tools(base, template, ts).len() as int,
        ) == base,
{
    let p = prompt_with_tools(base, template, ts);
    if ts.len() > 0 {
        let head = replace_all(template, "{tools}"@, join(tool_lines(ts), "\n"@));
        assert(p.subrange(head.len() as int, p.len() as int) =~= base);
    } else {
        assert(p.subrange(0, p.len() as int) =~= base);
    }
}

} // verus!
