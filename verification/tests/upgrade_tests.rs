use cursor_api::chat_mode::{anthropic_request_mode, openai_request_mode};
use cursor_api::client_headers::{
    amzn_trace_value, build_client_request, build_service_request, HttpMethod, HttpVersion,
    ReverseProxies, ServiceHeader as H, SessionValues,
};
use cursor_api::token_upgrade::{
    build_token_upgrade_request, upgrade_step, usage_poll_step, UpgradeAction, UpgradeEvent,
    UpgradeState, UsagePoll, POLL_MAX_ATTEMPTS,
};

#[test]
fn upgrade_request_texts() {
    let uuid = "0f1e2d3c-4b5a-4978-8695-a4b3c2d1e0f9";
    let challenge = "abcdefghijklmnopqrstuvwxyzABCDEFGHIJKLMNOPQ";
    let r = build_token_upgrade_request(uuid, challenge);
    assert_eq!(r.body, format!("{{\"uuid\":\"{uuid}\",\"challenge\":\"{challenge}\"}}"));
    assert_eq!(
        r.referer,
        format!("https://cursor.com/loginDeepControl?challenge={challenge}&uuid={uuid}&mode=login")
    );
}

#[test]
fn upgrade_polls() {
    assert_eq!(upgrade_step(UpgradeState::Requested, UpgradeEvent::Status(403)), (UpgradeState::Failed, UpgradeAction::GiveUp));
    assert_eq!(upgrade_step(UpgradeState::Requested, UpgradeEvent::SendFailed), (UpgradeState::Failed, UpgradeAction::GiveUp));
    let (mut state, action) = upgrade_step(UpgradeState::Requested, UpgradeEvent::Status(204));
    assert_eq!(action, UpgradeAction::Poll);
    assert_eq!(state, UpgradeState::Polling { left: POLL_MAX_ATTEMPTS });
    // four answers of 404 keep polling, the fifth ends it
    let mut polls = 1;
    loop {
        let (next, action) = upgrade_step(state, UpgradeEvent::Status(404));
        state = next;
        if action == UpgradeAction::WaitThenGiveUp {
            break;
        }
        assert_eq!(action, UpgradeAction::WaitThenPoll);
        polls += 1;
    }
    assert_eq!(polls, POLL_MAX_ATTEMPTS);
    assert_eq!(state, UpgradeState::Failed);
    assert_eq!(
        upgrade_step(UpgradeState::Polling { left: 3 }, UpgradeEvent::Status(200)),
        (UpgradeState::Done, UpgradeAction::ReadToken)
    );
    assert_eq!(
        upgrade_step(UpgradeState::Polling { left: 3 }, UpgradeEvent::Status(500)),
        (UpgradeState::Failed, UpgradeAction::GiveUp)
    );
}

#[test]
fn usage_polls() {
    assert!(matches!(usage_poll_step::<u32>(5, None), UsagePoll::NotFound));
    assert!(matches!(usage_poll_step(5, Some(Some(7u32))), UsagePoll::Found(7)));
    assert!(matches!(usage_poll_step::<u32>(5, Some(None)), UsagePoll::Again { left: 4 }));
    assert!(matches!(usage_poll_step::<u32>(1, Some(None)), UsagePoll::NotFound));
}

#[test]
fn service_headers_in_order() {
    let plain = build_client_request(false, true, false, false, false);
    assert_eq!(&plain[..4], &[H::Host, H::AcceptEncoding, H::ContentEncoding, H::Authorization]);
    assert_eq!(plain[5], H::ContentType { streaming: false });
    assert_eq!(plain.len(), 4 + 8 + 6);
    let stream = build_client_request(true, true, true, true, true);
    assert_eq!(
        &stream[..4],
        &[H::Host, H::Authorization, H::ConnectAcceptEncoding, H::ConnectContentEncoding]
    );
    assert!(stream.contains(&H::ConfigVersion) && stream.contains(&H::FsClientKey));
    assert!(stream.contains(&H::Cookie { present: true }));
    assert_eq!(*stream.last().unwrap(), H::SessionId);
    let id = *b"1-67a2b3c4-0123456789abcdef01234567x";
    let v = amzn_trace_value(&id);
    assert_eq!(&v[..5], b"Root=");
    assert_eq!(&v[5..], &id[..]);
}

#[test]
fn chat_request_modes() {
    let chat = anthropic_request_mode(0, true, false, false, true, false, true);
    assert!(chat.is_chat && !chat.is_agentic && chat.disable_tools && !chat.offers_mcp_tool);
    assert!(chat.thinking_high && !chat.use_web && chat.long_context);
    let agent = anthropic_request_mode(2, false, true, false, false, true, true);
    assert!(!agent.is_chat && agent.is_agentic && agent.agent_mode && agent.offers_mcp_tool);
    assert!(!agent.disable_tools && agent.use_web && !agent.long_context);
    let openai = openai_request_mode(false, false, true, false, false, false);
    assert!(!openai.is_chat && !openai.is_agentic && openai.disable_tools && openai.long_context);
    assert!(chat.image_support && !agent.image_support && !openai.image_support);
}

fn session(cookie: Option<&str>) -> SessionValues {
    SessionValues {
        authorization: "Bearer t".to_string(),
        cookie: cookie.map(|c| c.to_string()),
        user_agent: "agent".to_string(),
        client_key: "ck".to_string(),
        checksum: "sum".to_string(),
        client_version: "1.0".to_string(),
        config_version: None,
        timezone: "UTC".to_string(),
        fs_client_key: None,
        session_id: "sid".to_string(),
    }
}

#[test]
fn service_request_values() {
    let proxies = ReverseProxies { private_host: None, public_host: Some("proxy.example".to_string()) };
    let trace = "00000000-0000-4000-8000-000000000000";
    let r = build_service_request(
        "https://api2.example/x", "api2.example", false, &proxies, true, false, trace, &session(None),
    );
    assert_eq!(r.method, HttpMethod::Post);
    assert_eq!(r.version, HttpVersion::Http2);
    assert_eq!(r.url, "https://api2.example/x");
    assert_eq!(r.proxy_host.as_deref(), Some("api2.example"));
    let get = |h: H| r.headers.iter().find(|(k, _)| *k == h).map(|(_, v)| v.as_str());
    assert_eq!(r.headers[0], (H::Host, "proxy.example".to_string()));
    assert_eq!(get(H::ContentType { streaming: true }), Some("application/connect+proto"));
    assert_eq!(get(H::ConnectAcceptEncoding), Some("gzip"));
    assert_eq!(get(H::Cookie { present: false }), Some(""));
    assert_eq!(get(H::AmznTraceId).unwrap(), format!("Root={trace}"));
    assert_eq!(get(H::RequestId), Some(trace));
    assert_eq!(get(H::Authorization), Some("Bearer t"));
    assert_eq!(get(H::GhostMode), Some("true"));
    assert_eq!(get(H::NewOnboardingCompleted), Some("false"));
    assert_eq!(get(H::AcceptEncoding), None);

    let plain = build_service_request(
        "u", "api2.example", true, &proxies, false, true, trace, &session(Some("c=1")),
    );
    assert!(plain.proxy_host.is_none());
    assert_eq!(plain.headers[0].1, "api2.example");
    assert_eq!(plain.headers[1], (H::AcceptEncoding, "gzip".to_string()));
    assert_eq!(plain.headers[2], (H::ContentEncoding, "gzip".to_string()));
    assert!(plain.headers.contains(&(H::ContentType { streaming: false }, "application/proto".to_string())));
    assert!(plain.headers.contains(&(H::Cookie { present: true }, "c=1".to_string())));
}
