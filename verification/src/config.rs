//! Agent configuration.
use vstd::prelude::*;

verus! {

/// The research assistant's default system prompt.
pub const DEFAULT_SYSTEM_PROMPT: &'static str = "# XuanAgent - 科研 AI 助手\n\n你是一个专业的科研助手，专注于协助研究人员进行以下工作：\n\n## 核心能力\n- **文献管理**: 帮助检索、整理和管理学术文献\n- **学术写作**: 辅助论文写作、润色和格式化\n- **知识管理**: 协助构建和维护科研知识库\n- **数据分析**: 提供研究数据分析和可视化建议\n- **方法咨询**: 解答研究方法和实验设计相关问题\n\n## 工作原则\n1. **准确优先**: 对不确定的信息明确说明，不编造内容\n2. **学术规范**: 遵循学术写作规范和引用标准\n3. **批判思维**: 帮助用户审视研究设计和论证逻辑\n4. **效率优先**: 简洁明了地回答，避免冗长\n\n## 交互风格\n- 使用中文回复（除非用户明确要求英文）\n- 对复杂问题分步骤解答\n- 提供可操作的建议和具体示例\n- 必要时主动询问细节以提供更精准的帮助";

/// The default template that lists the tools; `{tools}` stands for the list.
pub const DEFAULT_TOOLS_PROMPT: &'static str = "\n\n## 可用工具\n\n你有以下工具可以使用：\n\n{tools}\n\n当需要使用工具时，请在回复中明确指出要调用的工具名称和参数。\n";

/// Agent configuration.
#[derive(Debug, Clone)]
pub struct Config {
    /// AI provider settings.
    pub ai_provider: AiProviderConfig,
    /// Database settings.
    pub db: DbConfig,
    /// System prompt settings, when given.
    pub system_prompt: Option<SystemPromptConfig>,
}

/// System prompt settings.
#[derive(Debug, Clone)]
pub struct SystemPromptConfig {
    /// The base system prompt.
    pub base: String,
    /// The template that lists the tools.
    pub tools_template: String,
}

/// AI provider settings.
#[derive(Debug, Clone)]
pub struct AiProviderConfig {
    /// Provider kind (openai, anthropic, siliconflow, ollama).
    pub provider: String,
    /// API base URL.
    pub base_url: String,
    /// API key.
    pub api_key: String,
    /// Model name.
    pub model: String,
    /// Description of the settings.
    pub description: Option<String>,
}

/// Database settings.
#[derive(Debug, Clone)]
pub struct DbConfig {
    /// Connection address.
    pub connect: String,
    /// User name.
    pub user: String,
    /// Password.
    pub pass: String,
    /// Namespace.
    pub namespace: String,
    /// Database name.
    pub database: String,
}

/// The system prompt settings used when none are configured.
pub open spec fn default_prompt_config(r: SystemPromptConfig) -> bool {
    r.base@ == DEFAULT_SYSTEM_PROMPT@ && r.tools_template@ == DEFAULT_TOOLS_PROMPT@
}

impl Default for SystemPromptConfig {
    /// The default prompt and tool template.
    fn default() -> (r: Self)
        ensures
            default_prompt_config(r),
    {
        Self { base: default_system_prompt(), tools_template: String::from_str(default_tools_prompt()) }
    }
}

/// The default system prompt.
pub fn default_system_prompt() -> (r: String)
    ensures
        r@ == DEFAULT_SYSTEM_PROMPT@,
{
    String::from_str(DEFAULT_SYSTEM_PROMPT)
}

/// The default tool template.
pub fn default_tools_prompt() -> (r: &'static str)
    ensures
        r@ == DEFAULT_TOOLS_PROMPT@,
{
    DEFAULT_TOOLS_PROMPT
}

/// A copy of an optional string.
fn clone_opt(s: &Option<String>) -> (r: Option<String>)
    ensures
        r.is_some() == s.is_some(),
        r.is_some() ==> r.unwrap()@ == s.unwrap()@,
{
    match s {
        Some(x) => Some(x.clone()),
        None => None,
    }
}

impl AiProviderConfig {
    /// A field-by-field copy.
    pub fn duplicate(&self) -> (r: Self)
        ensures
            r.provider@ == self.provider@,
            r.base_url@ == self.base_url@,
            r.api_key@ == self.api_key@,
            r.model@ == self.model@,
            r.description.is_some() == self.description.is_some(),
            r.description.is_some() ==> r.description.unwrap()@ == self.description.unwrap()@,
    {
        AiProviderConfig {
            provider: self.provider.clone(),
            base_url: self.base_url.clone(),
            api_key: self.api_key.clone(),
            model: self.model.clone(),
            description: clone_opt(&self.description),
        }
    }
}

impl Config {
    /// `(provider, base_url, model)` of the AI provider.
    pub fn get_llm_config(&self) -> (r: (&str, &str, &str))
        ensures
            r.0@ == self.ai_provider.provider@,
            r.1@ == self.ai_provider.base_url@,
            r.2@ == self.ai_provider.model@,
    {
        (
            self.ai_provider.provider.as_str(),
            self.ai_provider.base_url.as_str(),
            self.ai_provider.model.as_str(),
        )
    }

    /// The database URL: `{connect}/db/{database}`.
    pub fn get_db_url(&self) -> (r: String)
        ensures
            r@ == self.db.connect@ + "/db/"@ + self.db.database@,
    {
        let mut r = self.db.connect.clone();
        r.append("/db/");
        r.append(self.db.database.as_str());
        r
    }

    /// The configured system prompt settings, or the defaults.
    pub fn get_system_prompt(&self) -> (r: SystemPromptConfig)
        ensures
            match self.system_prompt {
                Some(p) => r.base@ == p.base@ && r.tools_template@ == p.tools_template@,
                None => default_prompt_config(r),
            },
    {
        match &self.system_prompt {
            Some(p) => SystemPromptConfig { base: p.base.clone(), tools_template: p.tools_template.clone() },
            None => SystemPromptConfig::default(),
        }
    }
}

} // verus!
