use cursor_api::adapter_error::Error;
use cursor_api::conversation::{
    assistant_content, conversation_turns, convert_messages, Turn, image_step, join_lines, lead_with_user, merge_thinking, system_text,
    tool_pair, tool_result_content, turn_marks, user_content, Block, Content, ImageSource,
    ImageStep, MediaType, MessageParam, Role, SystemContent, Thinking, ToolResultContent,
    VisionAbility,
};

fn b64() -> ImageSource {
    ImageSource::Base64 { media_type: MediaType::Png, data: "AAAA".to_string() }
}

fn url() -> ImageSource {
    ImageSource::Url { url: "https://example.com/a.png".to_string() }
}

fn text(s: &str) -> Block {
    Block::Text(s.to_string())
}

#[test]
fn image_steps_follow_the_vision_ability() {
    assert_eq!(image_step(VisionAbility::Disabled, &b64()), ImageStep::Refuse(Error::VisionDisabled));
    assert_eq!(image_step(VisionAbility::Disabled, &url()), ImageStep::Refuse(Error::VisionDisabled));
    assert_eq!(image_step(VisionAbility::Base64, &b64()), ImageStep::Decode);
    assert_eq!(image_step(VisionAbility::Base64, &url()), ImageStep::Refuse(Error::Base64Only));
    assert_eq!(image_step(VisionAbility::All, &b64()), ImageStep::Decode);
    assert_eq!(image_step(VisionAbility::All, &url()), ImageStep::Fetch);
}

#[test]
fn lines_are_joined_by_line_breaks() {
    assert_eq!(join_lines(&vec![]), "");
    assert_eq!(join_lines(&vec!["a".to_string()]), "a");
    assert_eq!(join_lines(&vec!["a".to_string(), "".to_string(), "c".to_string()]), "a\n\nc");
}

#[test]
fn system_text_choices() {
    assert_eq!(system_text(None, "default".to_string()), "default");
    assert_eq!(system_text(Some(SystemContent::Text("sys".to_string())), "d".to_string()), "sys");
    let parts = SystemContent::Parts(vec!["one".to_string(), "two".to_string()]);
    assert_eq!(system_text(Some(parts), "d".to_string()), "one\ntwo");
}

#[test]
fn an_assistant_first_gets_an_empty_user_before_it() {
    let mut inputs = vec![
        MessageParam { role: Role::Assistant, content: Content::Text("hi".to_string()) },
        MessageParam { role: Role::User, content: Content::Text("q".to_string()) },
    ];
    lead_with_user(&mut inputs);
    assert_eq!(inputs.len(), 3);
    assert_eq!(inputs[0].role, Role::User);
    assert!(matches!(&inputs[0].content, Content::Text(t) if t.is_empty()));
    assert_eq!(inputs[1].role, Role::Assistant);

    let mut user_first =
        vec![MessageParam { role: Role::User, content: Content::Text("q".to_string()) }];
    lead_with_user(&mut user_first);
    assert_eq!(user_first.len(), 1);

    let mut none: Vec<MessageParam> = vec![];
    lead_with_user(&mut none);
    assert!(none.is_empty());
}

#[test]
fn user_content_keeps_texts_and_images() {
    let blocks = vec![text("a"), Block::Image(b64()), Block::Other, text("b"), Block::Image(url())];
    let (t, images) = user_content(&blocks, true);
    assert_eq!(t, "a\nb");
    assert_eq!(images.len(), 2);
    assert!(matches!(images[0], ImageSource::Base64 { .. }));
    assert!(matches!(images[1], ImageSource::Url { .. }));
    let (t2, none) = user_content(&blocks, false);
    assert_eq!(t2, "a\nb");
    assert!(none.is_empty());
}

#[test]
fn tool_result_contents() {
    let (t, i) = tool_result_content(&None, true);
    assert_eq!(t, "");
    assert!(i.is_empty());
    let (t, i) = tool_result_content(&Some(ToolResultContent::Text("out".to_string())), true);
    assert_eq!(t, "out");
    assert!(i.is_empty());
    let blocks = ToolResultContent::Blocks(vec![text("x"), Block::Image(b64()), text("y")]);
    let (t, i) = tool_result_content(&Some(blocks), true);
    assert_eq!(t, "x\ny");
    assert_eq!(i.len(), 1);
}

#[test]
fn assistant_content_keeps_texts_and_thinking() {
    let blocks = vec![
        Block::Thinking { thinking: "think".to_string(), signature: "sig".to_string() },
        text("answer"),
        Block::RedactedThinking("hidden".to_string()),
        Block::ToolUse { id: "t1".to_string(), name: "n".to_string(), input: "{}".to_string() },
    ];
    let (t, thinking) = assistant_content(&blocks);
    assert_eq!(t, "answer");
    assert_eq!(thinking.len(), 2);
    assert_eq!(thinking[0].text, "think");
    assert_eq!(thinking[0].signature, "sig");
    assert_eq!(thinking[0].redacted, "");
    assert_eq!(thinking[1].text, "");
    assert_eq!(thinking[1].redacted, "hidden");
}

fn thinking(t: &str, s: &str) -> Thinking {
    Thinking { text: t.to_string(), signature: s.to_string(), redacted: String::new() }
}

#[test]
fn thinking_blocks_merge() {
    assert!(merge_thinking(vec![]).is_none());
    let one = merge_thinking(vec![thinking("a", "s")]).unwrap();
    assert_eq!(one.text, "a");
    assert_eq!(one.signature, "s");
    let many = merge_thinking(vec![thinking("a", "s"), thinking("", "t"), thinking("b", "u")])
        .unwrap();
    assert_eq!(many.text, "ab");
    assert_eq!(many.signature, "");
    assert_eq!(many.redacted, "");
}

fn tool_call() -> Block {
    Block::ToolUse { id: "c".to_string(), name: "n".to_string(), input: "{}".to_string() }
}

fn tool_result() -> MessageParam {
    MessageParam {
        role: Role::User,
        content: Content::Blocks(vec![Block::ToolResult {
            tool_use_id: "c".to_string(),
            content: None,
            is_error: false,
        }]),
    }
}

#[test]
fn a_tool_call_pairs_with_a_lone_tool_result() {
    let calls = vec![text("x"), tool_call()];
    assert!(tool_pair(&calls, Some(&tool_result())));
    assert!(!tool_pair(&calls, None));
    assert!(!tool_pair(&vec![tool_call(), text("x")], Some(&tool_result())));
    assert!(!tool_pair(&vec![], Some(&tool_result())));
    let two = MessageParam {
        role: Role::User,
        content: Content::Blocks(vec![text("y"), Block::Other]),
    };
    assert!(!tool_pair(&calls, Some(&two)));
    let mut from_assistant = tool_result();
    from_assistant.role = Role::Assistant;
    assert!(!tool_pair(&calls, Some(&from_assistant)));
    let plain = MessageParam { role: Role::User, content: Content::Text("t".to_string()) };
    assert!(!tool_pair(&calls, Some(&plain)));
}

#[test]
fn turns_are_marked_by_role_and_mode() {
    let u = turn_marks(Role::User, true);
    assert!(u.human && !u.server_bubble && u.agentic && u.agent_mode);
    let a = turn_marks(Role::Assistant, true);
    assert!(!a.human && a.server_bubble && !a.agentic && a.agent_mode);
    let c = turn_marks(Role::User, false);
    assert!(c.human && !c.agentic && !c.agent_mode);
}

fn msg(role: Role, blocks: Vec<Block>) -> MessageParam {
    MessageParam { role, content: Content::Blocks(blocks) }
}

#[test]
fn no_message_gives_one_empty_user_turn_in_chat_mode() {
    let turns = conversation_turns(vec![], true, true);
    assert_eq!(turns.len(), 1);
    match &turns[0] {
        Turn::Message { marks, text, images, thinking } => {
            assert!(marks.human && !marks.agentic && !marks.agent_mode);
            assert!(text.is_empty() && images.is_empty() && thinking.is_none());
        }
        _ => panic!("a message was expected"),
    }
}

#[test]
fn assistant_first_conversation_starts_with_the_user() {
    let inputs = vec![MessageParam { role: Role::Assistant, content: Content::Text("hi".to_string()) }];
    let turns = conversation_turns(inputs, false, false);
    assert_eq!(turns.len(), 2);
    assert!(matches!(&turns[0], Turn::Message { marks, text, .. } if marks.human && text.is_empty()));
    assert!(matches!(&turns[1], Turn::Message { marks, text, .. } if !marks.human && text == "hi"));
}

#[test]
fn a_paired_tool_call_becomes_an_exchange() {
    let result = Block::ToolResult {
        tool_use_id: "call-1".to_string(),
        content: Some(ToolResultContent::Blocks(vec![text("r1"), text("r2")])),
        is_error: true,
    };
    let inputs = vec![
        msg(Role::User, vec![text("question"), Block::Image(url())]),
        msg(
            Role::Assistant,
            vec![
                Block::Thinking { thinking: "t".to_string(), signature: "s".to_string() },
                text("calling"),
                Block::ToolUse {
                    id: "call-1".to_string(),
                    name: "search".to_string(),
                    input: "{\"q\":1}".to_string(),
                },
            ],
        ),
        msg(Role::User, vec![result]),
        MessageParam { role: Role::User, content: Content::Text("thanks".to_string()) },
    ];
    let turns = convert_messages(&inputs, true, true);
    assert_eq!(turns.len(), 4);
    match &turns[0] {
        Turn::Message { marks, text, images, .. } => {
            assert!(marks.human && marks.agentic && marks.agent_mode);
            assert_eq!(text, "question");
            assert_eq!(images.len(), 1);
        }
        _ => panic!("a message was expected"),
    }
    match &turns[1] {
        Turn::Message { marks, text, thinking, .. } => {
            assert!(!marks.human && marks.server_bubble && !marks.agentic);
            assert_eq!(text, "calling");
            let t = thinking.as_ref().unwrap();
            assert_eq!(t.text, "t");
            assert_eq!(t.signature, "s");
        }
        _ => panic!("a message was expected"),
    }
    match &turns[2] {
        Turn::ToolExchange { call_id, name, input, result_id, result_text, is_error, agent_mode, .. } => {
            assert_eq!(call_id, "call-1");
            assert_eq!(name, "search");
            assert_eq!(input, "{\"q\":1}");
            assert_eq!(result_id, "call-1");
            assert_eq!(result_text, "r1\nr2");
            assert!(*is_error && *agent_mode);
        }
        _ => panic!("an exchange was expected"),
    }
    assert!(matches!(&turns[3], Turn::Message { text, .. } if text == "thanks"));
}

#[test]
fn an_unanswered_tool_call_stays_in_its_turn() {
    let inputs = vec![
        msg(Role::User, vec![text("q")]),
        msg(Role::Assistant, vec![text("a"), tool_call()]),
        msg(Role::User, vec![text("not a result")]),
    ];
    let turns = convert_messages(&inputs, false, false);
    assert_eq!(turns.len(), 3);
    assert!(matches!(&turns[1], Turn::Message { text, .. } if text == "a"));
}
