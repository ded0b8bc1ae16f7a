use cursor_api::adapter_error::Error;
use cursor_api::chat_request::{
    encode_create_params, frame_request, MessageCreateParams, ModelInfo, SupportedTool, ToolParam,
};
use cursor_api::conversation::{Content, MessageParam, Role, SystemContent, Turn};

fn model() -> ModelInfo {
    ModelInfo {
        id: "model-a".to_string(),
        is_image: true,
        is_thinking: true,
        web: false,
        max: true,
        long_context: false,
    }
}

fn text(role: Role, t: &str) -> MessageParam {
    MessageParam { role, content: Content::Text(t.to_string()) }
}

#[test]
fn a_chat_without_tools() {
    let params = MessageCreateParams {
        messages: vec![text(Role::Assistant, "hi"), text(Role::User, "q")],
        system: Some(SystemContent::Text("sys".to_string())),
        tools: vec![],
    };
    let r = encode_create_params(params, "default".to_string(), &model(), "msg-1", false, false, true);
    assert_eq!(r.instructions, "sys");
    assert_eq!(r.turns.len(), 3);
    assert!(matches!(&r.turns[0], Turn::Message { marks, text, .. } if marks.human && text.is_empty()));
    assert!(matches!(&r.turns[1], Turn::Message { marks, text, .. } if !marks.human && text == "hi"));
    assert!(matches!(&r.turns[2], Turn::Message { marks, text, .. } if marks.human && text == "q"));
    assert!(r.mode.is_chat && !r.mode.is_agentic && r.mode.thinking_high && r.mode.image_support);
    assert!(r.supported_tools.is_empty() && r.last_turn_tools.is_empty() && r.mcp_tools.is_empty());
    assert_eq!(r.conversation_id, "msg-1");
    assert_eq!(r.model_name, "model-a");
    assert!(r.max_mode && r.enable_slow_pool);
}

#[test]
fn an_agent_with_tools() {
    let params = MessageCreateParams {
        messages: vec![],
        system: None,
        tools: vec![
            ToolParam { name: "a".to_string(), description: None, input_schema: "{}".to_string() },
            ToolParam {
                name: "b".to_string(),
                description: Some("does b".to_string()),
                input_schema: "{\"type\":\"object\"}".to_string(),
            },
        ],
    };
    let r = encode_create_params(params, "default".to_string(), &model(), "m", true, true, false);
    assert_eq!(r.instructions, "default");
    assert_eq!(r.turns.len(), 1);
    assert!(r.mode.is_agentic && !r.mode.is_chat && r.mode.long_context && !r.mode.image_support);
    assert_eq!(r.supported_tools, vec![SupportedTool::Mcp]);
    assert_eq!(r.last_turn_tools, vec![SupportedTool::Mcp]);
    assert_eq!(r.mcp_tools.len(), 2);
    assert_eq!(r.mcp_tools[0].description, "");
    assert_eq!(r.mcp_tools[1].description, "does b");
    assert_eq!(r.mcp_tools[1].parameters, "{\"type\":\"object\"}");
}

#[test]
fn frames_and_the_size_limit() {
    let f = frame_request(vec![1, 2, 3]).unwrap();
    assert_eq!(f, vec![0, 0, 0, 0, 3, 1, 2, 3]);
    assert_eq!(frame_request(vec![0; 4 * 1024 * 1024 + 1]), Err(Error::ExceedSizeLimit));
}
