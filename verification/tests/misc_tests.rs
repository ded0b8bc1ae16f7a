use cursor_api::adapter_error::Error as AdapterError;
use cursor_api::config::{ConfiguredKey, KeyConfig, Token as ConfigToken, Type, UsageCheckModel};
use cursor_api::env_value::{
    parse_env_bool, parse_env_str, parse_env_u64, parse_env_usize, parse_from_env, service_timeout_secs,
    tcp_keepalive_secs, trim,
};
use cursor_api::manually_init::ManuallyInit;
use cursor_api::model::{is_default, ApiStatus, ChatError, LogsLimit, TriState};
use cursor_api::ntp::{
    filter_count, ntp_to_unix_timestamp, system_time_to_ntp_timestamp, validate_ntp_response,
    NtpError,
};
use cursor_api::proto_encode::ExceedSizeLimit;
use cursor_api::text_scan::{has_space_after_separator, TrimNewlines};
use cursor_api::time::{corrected_nanos, BuildAge, ProjectAge, DURATION_MAX_NANOS};
use cursor_api::usage::{default_window, FilteredUsageArgs, UsageEventKind};
use cursor_api::userinfo::{LimitType, MembershipType};
use cursor_api::version::{preview, preview_build, release, ParseError, ReleaseStage, Version};
use cursor_api::wire_type::{check_wire_type, WireType, WireTypeError};

#[test]
fn version_text_roundtrip_and_order() {
    let v = preview_build(1, 2, 3, 4, 5);
    assert_eq!(v.to_string(), "1.2.3-pre.4+build.5");
    assert_eq!(Version::from_str("1.2.3-pre.4+build.5"), Ok(v));
    assert_eq!(Version::from_str("1.2.3"), Ok(release(1, 2, 3)));
    assert_eq!(Version::from_str("1.2"), Err(ParseError::InvalidFormat));
    assert_eq!(Version::from_str("1.x.3"), Err(ParseError::InvalidNumber));
    assert_eq!(Version::from_str("1.2.3-beta"), Err(ParseError::InvalidPreRelease));
    assert_eq!(Version::from_str("1.2.3-pre.1+x"), Err(ParseError::InvalidBuild));
    assert!(preview(1, 2, 3, 9) < release(1, 2, 3));
    assert!(release(1, 2, 3) < release(1, 3, 0));
    let mut out = Vec::new();
    v.write_to(&mut out);
    assert_eq!(Version::read_from(&out), Ok((v, out.len())));
}

#[test]
fn names_of_limit_types_and_plans() {
    assert_eq!(LimitType::from_str("user"), Some(LimitType::User));
    assert_eq!(LimitType::from_str(LimitType::Team.as_str()), Some(LimitType::Team));
    assert_eq!(LimitType::from_str("User"), None);
    for m in [
        MembershipType::Free,
        MembershipType::FreeTrial,
        MembershipType::Pro,
        MembershipType::ProPlus,
        MembershipType::Ultra,
        MembershipType::Enterprise,
    ] {
        assert_eq!(MembershipType::from_str(m.as_str()), Some(m));
    }
    assert_eq!(MembershipType::ProPlus.as_str(), "pro_plus");
    assert_eq!(MembershipType::from_str("gold"), None);
    assert_eq!(MembershipType::default(), MembershipType::Free);
}

#[test]
fn wire_types_from_tags() {
    assert_eq!(WireType::try_from_tag((5 << 3) | 2), Ok((WireType::LengthDelimited, 5)));
    assert_eq!(WireType::try_from_tag(7), Err(WireTypeError::InvalidValue(7)));
    assert_eq!(WireType::try_from_u32(5), Ok(WireType::ThirtyTwoBit));
    assert_eq!(WireType::try_from_u32(6), Err(WireTypeError::InvalidValue(6)));
    assert_eq!(WireType::EndGroup.value(), 4);
    assert_eq!(check_wire_type(WireType::Varint, WireType::Varint), Ok(()));
    assert_eq!(
        check_wire_type(WireType::Varint, WireType::SixtyFourBit),
        Err(WireTypeError::Mismatch { actual: WireType::SixtyFourBit, expected: WireType::Varint })
    );
}

#[test]
fn models_and_errors() {
    assert_eq!(LogsLimit::from_usize(0), LogsLimit::Disabled);
    assert!(!LogsLimit::from_usize(0).should_log());
    assert_eq!(LogsLimit::from_usize(5).get_limit(), 5);
    assert!(LogsLimit::from_usize(5).should_log());
    assert!(TriState::<u8>::default().is_undefined());
    assert!(!TriState::<u8>::Null(true).is_undefined());
    assert!(!TriState::Value(3u8).is_undefined());
    assert_eq!(ApiStatus::Error.as_str(), "error");
    assert!(is_default(&0u32));
    assert!(!is_default(&1u32));
    let e = ChatError::ModelNotSupported("gpt".to_string());
    assert_eq!(e.error_type(), "model_not_supported");
    assert_eq!(e.to_string(), "Model 'gpt' is not supported");
    assert_eq!(ChatError::EmptyMessages.to_string(), "Message array cannot be empty");
    assert_eq!(ChatError::RequestFailed("x".to_string()).to_string(), "Request failed: x");
}

#[test]
fn adapter_error_parts() {
    assert_eq!(
        AdapterError::VisionDisabled.to_parts(),
        (403, "permission_denied", "Vision feature is disabled")
    );
    assert_eq!(AdapterError::RequestFailed.to_parts().0, 502);
    let e: AdapterError = ExceedSizeLimit.into();
    assert_eq!(e, AdapterError::ExceedSizeLimit);
    assert_eq!(e.to_parts(), (413, "resource_exhausted", "Message exceeds 4 MiB size limit"));
    assert_eq!(e.to_log_error(), ("resource_exhausted", "Message exceeds 4 MiB size limit"));
}

#[test]
fn configured_key_settings_move() {
    let mut key = ConfiguredKey {
        token_info: None,
        secret: None,
        disable_vision: Some(true),
        enable_slow_pool: None,
        include_web_references: Some(false),
        usage_check_models: Some(UsageCheckModel { kind: Type::All, model_ids: vec![] }),
    };
    let mut config = KeyConfig::new();
    config.enable_slow_pool = Some(true);
    key.move_without_auth_token(&mut config);
    assert_eq!(config.disable_vision, Some(true));
    assert_eq!(config.enable_slow_pool, Some(true));
    assert_eq!(config.include_web_references, Some(false));
    assert!(config.usage_check_models.is_some());
    assert!(key.disable_vision.is_none() && key.usage_check_models.is_none());
    config.with_global(false, false, true);
    assert_eq!(config.disable_vision, Some(false));
    assert_eq!(config.enable_slow_pool, Some(false));
    assert_eq!(config.include_web_references, Some(true));
}

#[test]
fn config_token_roundtrip() {
    let known = vec!["github".to_string()];
    let token = ConfigToken {
        provider: "github".to_string(),
        sub_id: [1; 16],
        randomness: [2; 8],
        start: 1,
        end: 2,
        signature: [3; 32],
        is_session: false,
    };
    let raw = token.clone().into_raw(&known).unwrap();
    let back = ConfigToken::from_raw(raw);
    assert_eq!(back.sub_id, token.sub_id);
    assert_eq!(back.randomness, token.randomness);
    assert_eq!(back.provider, "github");
    // In a fixed byte order: big-endian bytes 0,..,0,1 are the number 1.
    let mut be = token.clone();
    be.sub_id = [0; 16];
    be.sub_id[15] = 1;
    let raw = be.clone().into_raw_in(&known, false).unwrap();
    assert_eq!(raw.subject.id.as_u128(), 1);
    assert_eq!(raw.randomness.as_u64(), 0x0202_0202_0202_0202);
    let again = ConfigToken::from_raw_in(raw, false);
    assert_eq!(again.sub_id, be.sub_id);
    let le = ConfigToken::from_raw_in(be.clone().into_raw_in(&known, true).unwrap(), true);
    assert_eq!(le.sub_id, be.sub_id);
    let mut unknown = token;
    unknown.provider = "gitlab".to_string();
    assert!(unknown.clone().into_raw_in(&known, true).is_none());
    assert!(unknown.into_raw(&known).is_none());
}

#[test]
fn env_values() {
    assert!(parse_env_bool(Some(" TRUE "), false));
    assert!(parse_env_bool(Some("1"), false));
    assert!(!parse_env_bool(Some("False"), true));
    assert!(parse_env_bool(Some("yes"), true));
    assert!(!parse_env_bool(None, false));
    assert_eq!(parse_env_u64(Some(" 42\n"), 7), 42);
    assert_eq!(parse_env_u64(Some("x"), 7), 7);
    assert_eq!(parse_env_str(Some("  "), "d"), "d");
    assert_eq!(parse_env_str(Some(" v "), "d"), "v");
    assert_eq!(trim("\u{3000}a b\t"), "a b");
    assert_eq!(parse_from_env(Some("0"), true), false);
    assert_eq!(parse_from_env(Some("9"), 1u64), 9);
}

#[test]
fn ntp_helpers() {
    let mut packet = [0u8; 48];
    packet[0] = (4 << 3) | 4;
    packet[1] = 2;
    assert!(validate_ntp_response(packet).is_ok());
    packet[1] = 16;
    assert!(matches!(validate_ntp_response(packet), Err(NtpError::Protocol(_))));
    packet[1] = 2;
    packet[0] = (4 << 3) | 3;
    assert!(validate_ntp_response(packet).is_err());
    let ts = system_time_to_ntp_timestamp(1_700_000_000, 500_000_000);
    assert_eq!(ts >> 32, 1_700_000_000 + 0x83AA7E80);
    let (secs, nanos) = ntp_to_unix_timestamp(ts);
    assert_eq!(secs, 1_700_000_000);
    assert!(nanos == 500_000_000 || nanos == 499_999_999);
    assert_eq!(filter_count(3), 0);
    assert_eq!(filter_count(5), 2);
    assert_eq!(filter_count(8), 3);
}

#[test]
fn ages_in_words() {
    assert_eq!(BuildAge::since_build(59).to_string(), "just now");
    assert_eq!(BuildAge::since_build(60).to_string(), "1 minute");
    assert_eq!(BuildAge { minutes: 61 }.to_string(), "1 hour and 1 minute");
    assert_eq!(BuildAge { minutes: 120 }.to_string(), "2 hours");
    assert_eq!(BuildAge { minutes: 1440 + 60 * 5 }.to_string(), "1 day and 5 hours");
    assert_eq!(BuildAge { minutes: 2880 }.to_string(), "2 days");
    let zero = ProjectAge { years: 0, months: 0, days: 0 };
    assert_eq!(zero.to_string(), "less than 1 day");
    assert_eq!(ProjectAge { years: 1, months: 2, days: 3 }.to_string(), "1 year, 2 months, and 3 days");
    assert_eq!(ProjectAge { years: 0, months: 1, days: 0 }.to_string(), "1 month");
    assert_eq!(ProjectAge::from_date(2025, 1, 22, 31), ProjectAge { years: 0, months: 0, days: 30 });
    assert_eq!(ProjectAge::from_date(2025, 12, 23, 30), ProjectAge { years: 1, months: 0, days: 0 });
    assert_eq!(ProjectAge::since_epoch(0), zero);
    assert_eq!(ProjectAge::since_epoch(86400 * 366).years, 1);
}

#[test]
fn text_scans() {
    assert!(has_space_after_separator(b"{\"a\": 1}"));
    assert!(!has_space_after_separator(b"{\"a\":1}"));
    assert!(!has_space_after_separator(b"\"no separator\""));
    assert!(!has_space_after_separator(b"{\"a:b\":1}"));
    assert!(has_space_after_separator(b"{\"a\\\":\": 1}"));
    assert_eq!("\n\nabc".trim_leading_newlines(), "abc");
    assert_eq!("\nabc".trim_leading_newlines(), "\nabc");
    assert_eq!(String::from("\n\n\nx").trim_leading_newlines(), "\nx");
}

#[test]
fn usage_requests() {
    let day = 86_400_000i64;
    let zone = 16 * 3_600_000i64;
    let now = 20_000 * day + zone + 5;
    let (start, end) = default_window(now);
    assert_eq!(start, 20_000 * day + zone - 7 * day);
    assert_eq!(end, 20_001 * day + zone - 1);
    let req = FilteredUsageArgs { start: Some(3), end: None, model_id: Some("m"), size: None }
        .into_request(now);
    assert_eq!(req.start_date, Some(3));
    assert_eq!(req.end_date, Some(end));
    assert_eq!(req.page, 1);
    assert_eq!(req.page_size, 100);
    assert_eq!(req.model_id, Some("m"));
    assert_eq!(UsageEventKind::default(), UsageEventKind::Unspecified);

    // Before the zone's first midnight the day counts down from -1.
    assert_eq!(default_window(0), (-633_600_000, 57_599_999));
    // With both ends given the time is not used.
    let both = FilteredUsageArgs { start: Some(1), end: Some(2), model_id: None, size: Some(7) }
        .into_request(i64::MAX);
    assert_eq!((both.start_date, both.end_date, both.page_size), (Some(1), Some(2), 7));
}

#[test]
fn connection_settings_bounded() {
    assert_eq!(tcp_keepalive_secs(None), 90);
    assert_eq!(tcp_keepalive_secs(Some(" 120 ")), 120);
    assert_eq!(tcp_keepalive_secs(Some("100000")), 600);
    assert_eq!(tcp_keepalive_secs(Some("-5")), 90);
    assert_eq!(service_timeout_secs(None), 30);
    assert_eq!(service_timeout_secs(Some("45")), 45);
    assert_eq!(service_timeout_secs(Some("601")), 600);
    assert_eq!(service_timeout_secs(Some("soon")), 30);
    assert_eq!(parse_env_usize(Some("+7"), 3), 7);
    assert_eq!(parse_from_env(Some("12"), 5usize), 12);
    assert_eq!(parse_from_env(None, 5usize), 5);
}

#[test]
fn manually_init_cells() {
    let cell = ManuallyInit::new_with(42);
    assert_eq!(*cell.get(), 42);

    let mut cell = ManuallyInit::new();
    cell.init(42);
    cell.init(100);
    assert_eq!(*cell.get(), 100);

    let cell = ManuallyInit::new_with(String::from("hello"));
    assert_eq!(cell.into_inner(), "hello");

    let mut cell = ManuallyInit::new_with(String::from("hello"));
    let s = cell.take();
    assert_eq!(s, "hello");
    cell.init(String::from("world"));
    assert_eq!(cell.get(), "world");
}

#[test]
fn release_stage_texts() {
    assert_eq!(ReleaseStage::Release.to_string(), "");
    assert_eq!(ReleaseStage::Preview { version: 6, build: None }.to_string(), "-pre.6");
    assert_eq!(ReleaseStage::Preview { version: 6, build: Some(8) }.to_string(), "-pre.6+build.8");
}

#[test]
fn clock_offset_corrections() {
    assert_eq!(corrected_nanos(1_000, -400), Some(600));
    assert_eq!(corrected_nanos(1_000, 400), Some(1_400));
    assert_eq!(corrected_nanos(1_000, -1_000), Some(0));
    assert_eq!(corrected_nanos(1_000, -1_001), None);
    assert_eq!(corrected_nanos(DURATION_MAX_NANOS, 0), Some(DURATION_MAX_NANOS));
    assert_eq!(corrected_nanos(DURATION_MAX_NANOS, 1), None);
    assert_eq!(corrected_nanos(0, i64::MIN), None);
    assert_eq!(corrected_nanos(0, i64::MAX), Some(i64::MAX as u128));
}

#[test]
fn chat_error_answer_forms() {
    let e = ChatError::ModelNotSupported("gpt".to_string());
    let g = e.to_generic();
    assert_eq!(g.status, ApiStatus::Error);
    assert_eq!(g.code, None);
    assert_eq!(g.error, Some("model_not_supported"));
    assert_eq!(g.message.as_deref(), Some("Model 'gpt' is not supported"));
    let o = ChatError::ProcessingFailed("boom".to_string()).to_openai();
    assert_eq!(o.code, Some("processing_failed"));
    assert_eq!(o.message, "Processing failed: boom");
    let a = ChatError::EmptyMessages.to_anthropic();
    assert_eq!(a.error_type, "empty_messages");
    assert_eq!(a.message, "Message array cannot be empty");
}
