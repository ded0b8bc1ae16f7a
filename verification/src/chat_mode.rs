//! How a chat request to the AI service is set up: chat or agent, which
//! tools it offers, whether tools are disabled, the thinking level, web
//! search and long context.
use vstd::prelude::*;

verus! {

/// The settings of a chat request that follow from its parameters and model.
#[derive(Debug, Clone, Copy, PartialEq, Eq, Structural)]
pub struct ChatRequestMode {
    /// Marked as a plain chat.
    pub is_chat: bool,
    /// Marked as agentic.
    pub is_agentic: bool,
    /// The MCP tool is among the supported tools.
    pub offers_mcp_tool: bool,
    /// The unified mode is the agent's (else the chat's); the mode's name
    /// follows it.
    pub agent_mode: bool,
    /// Tools are disabled.
    pub disable_tools: bool,
    /// The thinking level is high (else unspecified).
    pub thinking_high: bool,
    /// Web search is on.
    pub use_web: bool,
    /// The full input is used as context.
    pub long_context: bool,
    /// Images of the request are read: vision is not disabled for the key
    /// and the model takes images.
    pub image_support: bool,
}

/// The mode of a request in the Anthropic form, as values.
pub open spec fn spec_anthropic_mode(
    tool_count: nat,
    model_thinking: bool,
    model_web: bool,
    long_context_setting: bool,
    long_context_model: bool,
    vision_disabled: bool,
    model_image: bool,
) -> ChatRequestMode {
    ChatRequestMode {
        is_chat: tool_count == 0,
        is_agentic: tool_count != 0,
        offers_mcp_tool: tool_count != 0,
        agent_mode: tool_count != 0,
        disable_tools: tool_count == 0,
        thinking_high: model_thinking,
        use_web: model_web,
        long_context: long_context_setting || long_context_model,
        image_support: !vision_disabled && model_image,
    }
}

/// The mode of a request in the Anthropic form: a plain chat when no tool
/// is given, else an agent offering the MCP tool.  `long_context_setting`
/// is the global switch and `long_context_model` whether the model is one
/// of the long-context models.
pub fn anthropic_request_mode(
    tool_count: usize,
    model_thinking: bool,
    model_web: bool,
    long_context_setting: bool,
    long_context_model: bool,
    vision_disabled: bool,
    model_image: bool,
) -> (r: ChatRequestMode)
    ensures
        r == spec_anthropic_mode(
            tool_count as nat,
            model_thinking,
            model_web,
            long_context_setting,
            long_context_model,
            vision_disabled,
            model_image,
        ),
        r.image_support == (!vision_disabled && model_image),
        r.is_chat == (tool_count == 0),
        r.is_agentic == (tool_count != 0),
        r.offers_mcp_tool == (tool_count != 0),
        r.agent_mode == (tool_count != 0),
        r.disable_tools == (tool_count == 0),
        r.thinking_high == model_thinking,
        r.use_web == model_web,
        r.long_context == (long_context_setting || long_context_model),
{
    let is_chat = tool_count == 0;
    ChatRequestMode {
        is_chat,
        is_agentic: !is_chat,
        offers_mcp_tool: !is_chat,
        agent_mode: !is_chat,
        disable_tools: is_chat,
        thinking_high: model_thinking,
        use_web: model_web,
        long_context: long_context_setting || long_context_model,
        image_support: !vision_disabled && model_image,
    }
}

/// The mode of a request in the OpenAI form: in chat mode with tools
/// disabled, marked neither as a plain chat nor as agentic, offering no tool.
pub fn openai_request_mode(
    model_thinking: bool,
    model_web: bool,
    long_context_setting: bool,
    long_context_model: bool,
    vision_disabled: bool,
    model_image: bool,
) -> (r: ChatRequestMode)
    ensures
        r.image_support == (!vision_disabled && model_image),
        !r.is_chat && !r.is_agentic && !r.offers_mcp_tool && !r.agent_mode,
        r.disable_tools,
        r.thinking_high == model_thinking,
        r.use_web == model_web,
        r.long_context == (long_context_setting || long_context_model),
{
    ChatRequestMode {
        is_chat: false,
        is_agentic: false,
        offers_mcp_tool: false,
        agent_mode: false,
        disable_tools: true,
        thinking_high: model_thinking,
        use_web: model_web,
        long_context: long_context_setting || long_context_model,
        image_support: !vision_disabled && model_image,
    }
}

} // verus!
