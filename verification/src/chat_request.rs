//! The chat request made from a message request in the Anthropic form: its
//! instructions, turns, mode, tools and ids, and the frame it is sent in.
use crate::adapter_error::Error;
use crate::chat_mode::{anthropic_request_mode, spec_anthropic_mode, ChatRequestMode};
use crate::conversation::{
    conversation, conversation_turns, spec_system_text, system_text, turns_view, MessageParam,
    SystemContent, Turn,
};
use crate::proto_encode::{encode_message_framed, spec_encode_message_framed, ExceedSizeLimit};
use vstd::prelude::*;
use vstd::string::StringExecFns;

verus! {

/// A tool that a request offers: its name, description and the JSON text of
/// its input schema.
pub struct ToolParam {
    pub name: String,
    pub description: Option<String>,
    pub input_schema: String,
}

/// A tool as the service is told of it: its name, description (empty where
/// none is given) and the JSON text of its parameters.
pub struct McpTool {
    pub name: String,
    pub description: String,
    pub parameters: String,
}

/// A tool kind the client runs for the model.
#[derive(Debug, Clone, Copy, PartialEq, Eq, Structural)]
pub enum SupportedTool {
    Mcp,
}

/// A message request in the Anthropic form.
pub struct MessageCreateParams {
    pub messages: Vec<MessageParam>,
    pub system: Option<SystemContent>,
    pub tools: Vec<ToolParam>,
}

/// What the request needs of its model.
pub struct ModelInfo {
    pub id: String,
    pub is_image: bool,
    pub is_thinking: bool,
    pub web: bool,
    pub max: bool,
    /// The model is one of the long-context models.
    pub long_context: bool,
}

/// A chat request, ready to be encoded.
pub struct ChatRequest {
    pub instructions: String,
    pub turns: Vec<Turn>,
    /// The tools the last turn offers; the turns before it offer none.
    pub last_turn_tools: Vec<SupportedTool>,
    pub mode: ChatRequestMode,
    pub supported_tools: Vec<SupportedTool>,
    pub mcp_tools: Vec<McpTool>,
    pub conversation_id: String,
    pub model_name: String,
    pub max_mode: bool,
    pub enable_slow_pool: bool,
}

/// The tools a request supports: the MCP tool for an agentic request, none
/// otherwise.
pub open spec fn supported_tools(is_agentic: bool) -> Seq<SupportedTool> {
    if is_agentic {
        seq![SupportedTool::Mcp]
    } else {
        Seq::empty()
    }
}

/// `t` is the service's form of the tool `p`.
pub open spec fn mcp_tool_of(t: McpTool, p: ToolParam) -> bool {
    &&& t.name@ == p.name@
    &&& t.description@ == match p.description {
        Some(d) => d@,
        None => Seq::empty(),
    }
    &&& t.parameters@ == p.input_schema@
}

fn mcp_tools(tools: &Vec<ToolParam>) -> (r: Vec<McpTool>)
    ensures
        r@.len() == tools@.len(),
        forall|i: int| 0 <= i < tools@.len() ==> mcp_tool_of(#[trigger] r@[i], tools@[i]),
{
    let mut out: Vec<McpTool> = Vec::new();
    let mut i: usize = 0;
    while i < tools.len()
        invariant
            i <= tools@.len(),
            out@.len() == i,
            forall|k: int| 0 <= k < i ==> mcp_tool_of(#[trigger] out@[k], tools@[k]),
        decreases tools.len() - i,
    {
        let t = &tools[i];
        let description = match &t.description {
            Some(d) => d.clone(),
            None => String::new(),
        };
        out.push(
            McpTool { name: t.name.clone(), description, parameters: t.input_schema.clone() },
        );
        i = i + 1;
    }
    out
}

fn supported_tools_of(is_agentic: bool) -> (r: Vec<SupportedTool>)
    ensures
        r@ == supported_tools(is_agentic),
{
    if is_agentic {
        let r = vec![SupportedTool::Mcp];
        assert(r@ =~= seq![SupportedTool::Mcp]);
        r
    } else {
        let r: Vec<SupportedTool> = Vec::new();
        assert(r@ =~= Seq::<SupportedTool>::empty());
        r
    }
}

/// The chat request for a message request: the system text (or
/// `default_instructions`) as instructions; the turns of the messages; the
/// mode its tools and model give; the MCP tool supported, and offered by
/// the last turn, when tools are given; the tools in the service's form;
/// `msg_id` as the conversation id.  Images are read only where vision is
/// not disabled for the key and the model takes images.
pub fn encode_create_params(
    params: MessageCreateParams,
    default_instructions: String,
    model: &ModelInfo,
    msg_id: &str,
    long_context_setting: bool,
    vision_disabled: bool,
    enable_slow_pool: bool,
) -> (r: ChatRequest)
    ensures
        ({
            let k = params.tools@.len();
            let is_agentic = k > 0;
            let image_support = !vision_disabled && model.is_image;
            &&& r.instructions@ == spec_system_text(params.system, default_instructions@)
            &&& turns_view(r.turns@) == conversation(params.messages@, image_support, is_agentic)
            &&& r.mode == spec_anthropic_mode(
                k,
                model.is_thinking,
                model.web,
                long_context_setting,
                model.long_context,
                vision_disabled,
                model.is_image,
            )
            &&& r.supported_tools@ == supported_tools(is_agentic)
            &&& r.last_turn_tools@ == supported_tools(is_agentic)
            &&& r.mcp_tools@.len() == k
            &&& forall|i: int| 0 <= i < k ==> mcp_tool_of(#[trigger] r.mcp_tools@[i], params.tools@[i])
            &&& r.conversation_id@ == msg_id@
            &&& r.model_name@ == model.id@
            &&& r.max_mode == model.max
            &&& r.enable_slow_pool == enable_slow_pool
        }),
{
    let k = params.tools.len();
    let mode = anthropic_request_mode(
        k,
        model.is_thinking,
        model.web,
        long_context_setting,
        model.long_context,
        vision_disabled,
        model.is_image,
    );
    let is_agentic = k > 0;
    let image_support = !vision_disabled && model.is_image;
    let tools = mcp_tools(&params.tools);
    let MessageCreateParams { messages, system, tools: _ } = params;
    let instructions = system_text(system, default_instructions);
    let turns = conversation_turns(messages, image_support, is_agentic);
    ChatRequest {
        instructions,
        turns,
        last_turn_tools: supported_tools_of(is_agentic),
        mode,
        supported_tools: supported_tools_of(is_agentic),
        mcp_tools: tools,
        conversation_id: String::from_str(msg_id),
        model_name: model.id.clone(),
        max_mode: model.max,
        enable_slow_pool,
    }
}

/// The frame an encoded chat request is sent in: that of
/// `encode_message_framed`; a request too large is refused with
/// `Error::ExceedSizeLimit`.
pub fn frame_request(encoded: Vec<u8>) -> (r: Result<Vec<u8>, Error>)
    ensures
        match r {
            Ok(f) => spec_encode_message_framed(encoded@) == Ok::<Seq<u8>, ExceedSizeLimit>(f@),
            Err(e) => e == Error::ExceedSizeLimit && spec_encode_message_framed(encoded@) is Err,
        },
{
    match encode_message_framed(encoded) {
        Ok(f) => Ok(f),
        Err(_) => Err(Error::ExceedSizeLimit),
    }
}

} // verus!
