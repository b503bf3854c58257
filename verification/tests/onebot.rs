use miyu::config::{OneBotConfig, PlatformsConfig};
use miyu::platforms::commands::{parse, ParsedPlatformCommand};
use miyu::platforms::onebot::{
    admission_for, decode_cq_text, group_trigger_text, legacy_session_name_for, parse_cq_string,
    parse_message, sanitize_file_name, session_name_for, ConnectionRegistry, InboundMessage,
    InboundPayload, InboundSegment, MediaRef, Target, MAX_INBOUND_FILES, MAX_INBOUND_IMAGES,
};

fn text_message(text: &str) -> InboundMessage {
    InboundMessage { text: text.to_string(), images: Vec::new(), files: Vec::new(), at_self: false }
}

fn some(s: &str) -> Option<String> {
    Some(s.to_string())
}

#[test]
fn group_trigger_matrix() {
    let at_only = OneBotConfig::default();
    let mut parsed = text_message("/cmd 查询");
    assert!(group_trigger_text(&at_only, &parsed).is_none());
    parsed.at_self = true;
    assert_eq!(group_trigger_text(&at_only, &parsed).as_deref(), Some("/cmd 查询"));

    let mut prefix = OneBotConfig::default();
    prefix.group_chats.trigger_keywords = vec!["/cmd".into()];
    parsed.at_self = false;
    assert_eq!(group_trigger_text(&prefix, &parsed).as_deref(), Some("查询"));
    parsed.text = "无前缀".into();
    assert!(group_trigger_text(&prefix, &parsed).is_none());

    // An empty keyword list never fires (avoids always-on).
    let empty_prefix = OneBotConfig::default();
    assert!(group_trigger_text(&empty_prefix, &parsed).is_none());

    let mut either = OneBotConfig::default();
    either.group_chats.trigger_keywords = vec!["喵".into(), "喵喵".into()];
    parsed.text = "喵喵：早上好".into();
    assert_eq!(group_trigger_text(&either, &parsed).as_deref(), Some("早上好"));
}

#[test]
fn group_trigger_ignores_leading_whitespace_and_separators() {
    let mut config = OneBotConfig::default();
    config.group_chats.trigger_keywords = vec!["喵".into()];
    let parsed = text_message("  喵 ，, 在吗");
    assert_eq!(group_trigger_text(&config, &parsed).as_deref(), Some("在吗"));
}

#[test]
fn admission_matrix_uses_private_and_group_conversation_buckets() {
    let mut config = OneBotConfig::default();
    config.admin_users.push(1);
    config.private_chats.whitelist.push(2);
    config.group_chats.whitelist.push(10);

    let admin = admission_for(&config, Target::Group { group_id: 99 }, 100, 1);
    assert!(admin.allowed);
    assert!(admin.rate_key.is_none());

    let private_whitelist = admission_for(&config, Target::Private { user_id: 2 }, 100, 2);
    assert!(private_whitelist.allowed);
    assert!(private_whitelist.rate_key.is_none());

    let private_guest = admission_for(&config, Target::Private { user_id: 3 }, 100, 3);
    assert!(private_guest.allowed);
    assert_eq!(private_guest.rate_limit, 3);
    assert_eq!(private_guest.rate_key.as_deref(), Some("qq:100:private:3"));

    let group_whitelist = admission_for(&config, Target::Group { group_id: 10 }, 100, 2);
    assert!(group_whitelist.allowed);
    assert_eq!(group_whitelist.rate_limit, 30);
    assert_eq!(group_whitelist.rate_key.as_deref(), Some("qq:100:group:10"));

    let group_guest = admission_for(&config, Target::Group { group_id: 11 }, 100, 3);
    assert!(group_guest.allowed);
    assert_eq!(group_guest.rate_limit, 10);
    assert_eq!(group_guest.rate_key.as_deref(), Some("qq:100:group:11"));

    config.private_chats.allow_non_whitelist = false;
    config.group_chats.allow_non_whitelist = false;
    assert!(!admission_for(&config, Target::Private { user_id: 3 }, 100, 3).allowed);
    assert!(!admission_for(&config, Target::Group { group_id: 11 }, 100, 3).allowed);
}

#[test]
fn session_names_keep_accounts_apart() {
    let group = Target::Group { group_id: 42 };
    assert_eq!(session_name_for(group, Some(100)), "qq:100:group:42");
    assert_eq!(session_name_for(Target::Private { user_id: -7 }, None), "qq:0:private:-7");
    assert_eq!(legacy_session_name_for(group), "qq:group:42");
    assert_eq!(group.kind(), "group");
    assert_eq!(group.conversation_id(), 42);
}

#[test]
fn onebot_sanitizes_file_names() {
    assert_eq!(sanitize_file_name("../../etc/passwd"), "passwd");
    assert_eq!(sanitize_file_name("C:\\evil\\x.exe"), "x.exe");
    assert_eq!(sanitize_file_name(".."), "file");
    assert_eq!(sanitize_file_name("  "), "file");
    assert_eq!(sanitize_file_name("报告 v2.pdf"), "报告 v2.pdf");
}

#[test]
fn files_sanitizes_file_names() {
    assert_eq!(sanitize_file_name("../../etc/passwd"), "passwd");
    assert_eq!(sanitize_file_name("C:\\evil\\x.exe"), "x.exe");
    assert_eq!(sanitize_file_name(".."), "file");
    assert_eq!(sanitize_file_name("  "), "file");
    assert_eq!(sanitize_file_name("报告 v2.pdf"), "报告 v2.pdf");
}

#[test]
fn sanitized_names_drop_line_controls_and_are_capped() {
    assert_eq!(sanitize_file_name("a\nb\r\0c.txt"), "abc.txt");
    assert_eq!(sanitize_file_name("dir/"), "file");
    let long = "x".repeat(200);
    assert_eq!(sanitize_file_name(&long).chars().count(), 120);
}

#[test]
fn parses_segment_arrays_with_mixed_content() {
    let message = InboundPayload::Segments(vec![
        InboundSegment::At { qq: some("10001") },
        InboundSegment::Text { text: some(" 你好") },
        InboundSegment::Image { file: some("x.jpg"), url: some("https://img.example/x.jpg") },
        InboundSegment::Image { file: some("base64://aGk="), url: None },
        InboundSegment::File {
            file_id: some("f1"),
            file_name: some("报告.pdf"),
            name: None,
            file: None,
            url: None,
        },
        InboundSegment::Other,
    ]);
    let parsed = parse_message(&message, &None, 10001);
    assert!(parsed.at_self);
    assert_eq!(parsed.text, " 你好");
    assert_eq!(parsed.images.len(), 2);
    assert!(matches!(&parsed.images[0], MediaRef::Url(url) if url == "https://img.example/x.jpg"));
    assert!(matches!(&parsed.images[1], MediaRef::Bytes(bytes) if bytes == b"hi"));
    assert_eq!(parsed.files.len(), 1);
    assert_eq!(parsed.files[0].name, "报告.pdf");
    assert_eq!(parsed.files[0].file_id.as_deref(), Some("f1"));

    // Someone else being @-ed does not wake the bot.
    let other = InboundPayload::Segments(vec![InboundSegment::At { qq: some("999") }]);
    assert!(!parse_message(&other, &None, 10001).at_self);
}

#[test]
fn invalid_or_oversized_inline_images_are_dropped() {
    let message = InboundPayload::Segments(vec![
        InboundSegment::Image { file: some("base64://@@@"), url: some("https://ignored") },
        InboundSegment::Image { file: some("ftp://x"), url: None },
        InboundSegment::Image { file: some("http://from-file"), url: some("nope") },
    ]);
    let parsed = parse_message(&message, &None, 1);
    assert_eq!(parsed.images.len(), 1);
    assert!(matches!(&parsed.images[0], MediaRef::Url(url) if url == "http://from-file"));
}

#[test]
fn falls_back_to_raw_string_messages() {
    let message = InboundPayload::Text("纯文本消息".to_string());
    let parsed = parse_message(&message, &None, 1);
    assert_eq!(parsed.text, "纯文本消息");

    let parsed = parse_message(&InboundPayload::Missing, &some("raw 兜底"), 1);
    assert_eq!(parsed.text, "raw 兜底");

    let reply_command = InboundPayload::Text("[CQ:reply,id=5][CQ:at,qq=10001] /reset".to_string());
    let parsed = parse_message(&reply_command, &None, 10001);
    assert!(parsed.at_self);
    assert_eq!(parsed.text, " /reset");
    assert_eq!(
        parse(&PlatformsConfig::default(), &parsed.text),
        Some(ParsedPlatformCommand::Reset { has_arguments: false })
    );

    let escaped_literal = InboundPayload::Text("&#91;CQ:reply,id=5&#93;/reset".to_string());
    let parsed = parse_message(&escaped_literal, &None, 1);
    assert_eq!(parsed.text, "[CQ:reply,id=5]/reset");
}

#[test]
fn cq_codes_unescape_and_keep_unterminated_codes() {
    assert_eq!(decode_cq_text("a &amp;#91; b"), "a &#91; b");
    let parsed = parse_cq_string("hi [CQ:at,qq=7", 7);
    assert_eq!(parsed.text, "hi [CQ:at,qq=7");
    assert!(!parsed.at_self);
    let parsed = parse_cq_string("[CQ:at,name=x,qq=7]ok", 7);
    assert!(parsed.at_self);
    assert_eq!(parsed.text, "ok");
    assert!(!parse_cq_string("[CQ:at,qq=70]", 7).at_self);
}

#[test]
fn inbound_parser_caps_media_segment_counts() {
    let mut segments = Vec::new();
    for index in 0..8 {
        segments.push(InboundSegment::Image {
            file: None,
            url: Some(format!("https://img.example/{index}.png")),
        });
        segments.push(InboundSegment::File {
            file_id: Some(format!("f{index}")),
            file_name: some("x.txt"),
            name: None,
            file: None,
            url: None,
        });
    }
    let parsed = parse_message(&InboundPayload::Segments(segments), &None, 1);
    assert_eq!(parsed.images.len(), MAX_INBOUND_IMAGES);
    assert_eq!(parsed.files.len(), MAX_INBOUND_FILES);
}

#[test]
fn late_identity_binding_cannot_replace_a_newer_connection() {
    let mut registry: ConnectionRegistry<&str> = ConnectionRegistry::new();
    let older_generation = registry.register(0, "older");
    let newer_generation = registry.register(0, "newer");

    assert!(registry.bind(10000, newer_generation, "newer"));
    assert!(!registry.bind(10000, older_generation, "older"));
    assert!(registry.is_current(10000, newer_generation));
    assert!(!registry.is_current(10000, older_generation));
    assert_eq!(registry.handle(10000), Some(&"newer"));
}

#[test]
fn registry_lists_accounts_in_order_and_removes_only_the_live_generation() {
    let mut registry: ConnectionRegistry<u8> = ConnectionRegistry::new();
    let g3 = registry.register(30, 3);
    let g1 = registry.register(10, 1);
    let _g2 = registry.register(20, 2);
    assert_eq!(registry.connected_accounts(), vec![10, 20, 30]);
    registry.remove(30, g1);
    assert!(registry.is_current(30, g3));
    registry.remove(30, g3);
    assert_eq!(registry.connected_accounts(), vec![10, 20]);
    assert_eq!(registry.disconnect_all(), vec![1, 2]);
    assert!(registry.connected_accounts().is_empty());
}

use miyu::platforms::onebot::{connection_authorized, token_matches};

#[test]
fn token_check_accepts_bearer_and_rejects_wrong() {
    assert!(token_matches(None, ""));
    assert!(!token_matches(None, "secret"));
    assert!(token_matches(Some("Bearer secret"), "secret"));
    assert!(!token_matches(Some("Bearer secret"), "other"));
    assert!(token_matches(Some("Token secret"), "secret"));
    assert!(token_matches(Some("secret"), "secret"));
}

#[test]
fn empty_token_only_authorizes_loopback_connections() {
    // 127.0.0.1:1234 and [::1]:1234 are loopback peers; 192.168.1.5:1234 is not.
    assert!(connection_authorized(None, "", true));
    assert!(connection_authorized(None, "  ", true));
    assert!(!connection_authorized(None, "", false));
    // With a token the peer's address does not matter.
    assert!(connection_authorized(Some("Bearer t"), "t", false));
    assert!(!connection_authorized(None, "t", true));
}
