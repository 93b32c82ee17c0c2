//! Building an LLM agent, with or without the preset file tools.
use vstd::prelude::*;

verus! {

/// The LLM section of the configuration that agent building reads.
pub struct LlmConfig {
    /// The fast model that agents are built on.
    pub model_efficient: String,
    /// Whether the preset tools are switched off.
    pub disable_preset_tools: bool,
}

/// The configuration that agent building reads.
pub struct Config {
    pub llm: LlmConfig,
}

/// A preset tool an agent may call.
#[derive(Debug, PartialEq, Eq, Structural)]
pub enum AgentTool {
    /// Lists the files of the project.
    FileExplorer,
    /// Reads a file of the project.
    FileReader,
}

/// The agent to create: its model, its system prompt and its tools.
pub struct ProviderAgent {
    pub model: String,
    pub system_prompt: String,
    pub tools: Vec<AgentTool>,
}

/// The model of an agent.
pub struct AgentView {
    pub model: Seq<char>,
    pub system_prompt: Seq<char>,
    pub tools: Seq<AgentTool>,
}

impl View for ProviderAgent {
    type V = AgentView;

    open spec fn view(&self) -> AgentView {
        AgentView { model: self.model@, system_prompt: self.system_prompt@, tools: self.tools@ }
    }
}

/// The LLM provider agents are created with.
pub struct ProviderClient {
    preset_tools: bool,
}

impl ProviderClient {
    /// A provider, which can run the preset tools or not.
    pub fn new(supports_preset_tools: bool) -> (r: Self)
        ensures
            r.spec_supports_preset_tools() == supports_preset_tools,
    {
        ProviderClient { preset_tools: supports_preset_tools }
    }

    pub closed spec fn spec_supports_preset_tools(&self) -> bool {
        self.preset_tools
    }

    /// Whether the provider can run the preset tools.
    pub fn supports_preset_tools(&self) -> (r: bool)
        ensures
            r == self.spec_supports_preset_tools(),
    {
        self.preset_tools
    }

    /// An agent on `model` with `system_prompt` and no tools.
    pub fn create_agent(&self, model: &str, system_prompt: &str, config: &LlmConfig) -> (r: ProviderAgent)
        ensures
            r.model@ == model@,
            r.system_prompt@ == system_prompt@,
            r.tools@ == Seq::<AgentTool>::empty(),
    {
        ProviderAgent { model: model.to_owned(), system_prompt: system_prompt.to_owned(), tools: Vec::new() }
    }

    /// An agent on `model` with `system_prompt` and the file explorer and file reader tools.
    pub fn create_agent_with_tools(
        &self,
        model: &str,
        system_prompt: &str,
        config: &LlmConfig,
        file_explorer: AgentTool,
        file_reader: AgentTool,
    ) -> (r: ProviderAgent)
        ensures
            r.model@ == model@,
            r.system_prompt@ == system_prompt@,
            r.tools@ == seq![file_explorer, file_reader],
    {
        let mut tools: Vec<AgentTool> = Vec::new();
        tools.push(file_explorer);
        tools.push(file_reader);
        ProviderAgent { model: model.to_owned(), system_prompt: system_prompt.to_owned(), tools }
    }
}

/// What the system prompt of an agent with tools adds.
pub open spec fn tool_use_instruction() -> Seq<char> {
    "\nDo not fabricate non-existent code. If you need to learn more about the project structure and source code content, actively call tools to obtain more contextual information"@
}

/// Builds agents for a provider and a configuration.
pub struct AgentBuilder<'a> {
    client: &'a ProviderClient,
    config: &'a Config,
}

impl<'a> AgentBuilder<'a> {
    pub closed spec fn spec_client(&self) -> &'a ProviderClient {
        self.client
    }

    pub closed spec fn spec_config(&self) -> &'a Config {
        self.config
    }

    /// Whether agents built with tools get them: the preset tools are not switched off and the
    /// provider supports them.
    pub open spec fn uses_tools(&self) -> bool {
        !self.spec_config().llm.disable_preset_tools && self.spec_client().spec_supports_preset_tools()
    }

    /// The agent built without tools for `system_prompt`.
    pub open spec fn plain_agent(&self, system_prompt: Seq<char>) -> AgentView {
        AgentView {
            model: self.spec_config().llm.model_efficient@,
            system_prompt,
            tools: Seq::empty(),
        }
    }

    /// The agent built with tools for `system_prompt`: the tools and the request to use them
    /// where they are allowed, else the plain agent.
    pub open spec fn tool_agent(&self, system_prompt: Seq<char>) -> AgentView {
        if self.uses_tools() {
            AgentView {
                model: self.spec_config().llm.model_efficient@,
                system_prompt: system_prompt + tool_use_instruction(),
                tools: seq![AgentTool::FileExplorer, AgentTool::FileReader],
            }
        } else {
            self.plain_agent(system_prompt)
        }
    }

    /// A builder for `client` and `config`.
    pub fn new(client: &'a ProviderClient, config: &'a Config) -> (r: Self)
        ensures
            r.spec_client() == client,
            r.spec_config() == config,
    {
        AgentBuilder { client, config }
    }

    /// An agent on the efficient model: with the preset tools and a system prompt that asks
    /// to use them where the configuration and the provider allow it, else a plain agent.
    pub fn build_agent_with_tools(&self, system_prompt: &str) -> (r: ProviderAgent)
        ensures
            r@ == self.tool_agent(system_prompt@),
    {
        let llm_config = &self.config.llm;
        if !llm_config.disable_preset_tools && self.client.supports_preset_tools() {
            let mut prompt = system_prompt.to_owned();
            prompt.append(
                "\nDo not fabricate non-existent code. If you need to learn more about the project structure and source code content, actively call tools to obtain more contextual information",
            );
            self.client.create_agent_with_tools(
                llm_config.model_efficient.as_str(),
                prompt.as_str(),
                llm_config,
                AgentTool::FileExplorer,
                AgentTool::FileReader,
            )
        } else {
            self.client.create_agent(llm_config.model_efficient.as_str(), system_prompt, llm_config)
        }
    }

    /// A plain agent on the efficient model with `system_prompt` unchanged.
    pub fn build_agent_without_tools(&self, system_prompt: &str) -> (r: ProviderAgent)
        ensures
            r@ == self.plain_agent(system_prompt@),
    {
        let llm_config = &self.config.llm;
        self.client.create_agent(llm_config.model_efficient.as_str(), system_prompt, llm_config)
    }
}

/// Whatever the configuration and the provider, an agent built with tools runs on the same
/// model as the plain one; where tools are not allowed it is the plain agent, and where they
/// are, it differs only by the two preset tools and the request to use them appended to the
/// system prompt.
pub proof fn lemma_tool_agent_extends_plain_agent(builder: AgentBuilder, system_prompt: Seq<char>)
    ensures
        builder.tool_agent(system_prompt).model == builder.plain_agent(system_prompt).model,
        !builder.uses_tools() ==> builder.tool_agent(system_prompt) == builder.plain_agent(system_prompt),
        builder.uses_tools() ==> builder.tool_agent(system_prompt).system_prompt == builder.plain_agent(
            system_prompt,
        ).system_prompt + tool_use_instruction() && builder.tool_agent(system_prompt).tools == seq![
            AgentTool::FileExplorer,
            AgentTool::FileReader,
        ],
{
}

} // verus!
