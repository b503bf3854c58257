use miyu::i18n::Language;
use miyu::platforms::turn::{
    after_primary_send, chunk_fits, claim_outcome, declared_too_large, host_tools_allowed,
    legacy_adoption, plugin_enabled, queued_prompt_attachments, size_limit_message,
    AfterPrimarySend, Adoption, ClaimOutcome, FinalReplyMark, ImageAttachment,
    QueuedPromptAttachment, SessionCandidate, TurnCollector, TurnDispatch, TurnEvent,
};
use miyu::platforms::ConversationKind;
use miyu::text::parse_i64;

fn delta(s: &str) -> TurnEvent {
    TurnEvent::AssistantDelta { delta: Some(s.to_string()) }
}

#[test]
fn turn_collector_folds_a_run_into_its_reply() {
    let mut c = TurnCollector::new();
    assert!(c.step(delta("首条回答"), Language::Chinese).is_none());
    assert!(c.step(TurnEvent::ToolImage { asset_id: Some("asset-1".to_string()) }, Language::Chinese).is_none());
    assert!(c.step(TurnEvent::ToolFinished { direct_send: true }, Language::Chinese).is_none());
    assert!(c.step(delta("工具确认"), Language::Chinese).is_none());
    assert!(c.step(TurnEvent::QueueConsumed, Language::Chinese).is_none());
    assert!(c.step(delta("排队消息的回答"), Language::Chinese).is_none());
    assert!(c.step(TurnEvent::Unrelated, Language::Chinese).is_none());
    match c.step(TurnEvent::RunCompleted, Language::Chinese) {
        Some(TurnDispatch::Completed(outcome)) => {
            assert_eq!(outcome.text, "首条回答工具确认排队消息的回答");
            assert_eq!(outcome.image_assets, vec!["asset-1".to_string()]);
            let start = "首条回答".len();
            let end = start + "工具确认".len();
            assert_eq!(outcome.suppressed_reply_ranges, vec![(start, end)]);
            assert!(!outcome.final_reply_already_sent);
        },
        _ => panic!("the run completed"),
    }
}

#[test]
fn turn_collector_reports_failures_in_the_users_language() {
    let cases = [
        (TurnEvent::TimedOut, "the reply timed out"),
        (TurnEvent::Closed, "Miyu core stopped"),
        (TurnEvent::ResyncRequired, "event history was exhausted; the turn was cancelled"),
        (TurnEvent::RunCancelled, "the turn was cancelled"),
        (TurnEvent::RunFailed { message: None }, "unknown error"),
        (TurnEvent::RunFailed { message: Some("boom".to_string()) }, "boom"),
    ];
    for (event, expected) in cases {
        let mut c = TurnCollector::new();
        match c.step(event, Language::English) {
            Some(TurnDispatch::Failed(m)) => assert_eq!(m, expected),
            _ => panic!("the turn failed"),
        }
    }
    let mut c = TurnCollector::new();
    match c.step(TurnEvent::TimedOut, Language::Chinese) {
        Some(TurnDispatch::Failed(m)) => assert_eq!(m, "回复超时，本轮已取消"),
        _ => panic!("the turn failed"),
    }
}

#[test]
fn direct_send_at_the_end_marks_the_reply_sent() {
    let mut c = TurnCollector::new();
    c.step(delta("answer"), Language::English);
    c.step(TurnEvent::ToolFinished { direct_send: true }, Language::English);
    match c.step(TurnEvent::RunCompleted, Language::English) {
        Some(TurnDispatch::Completed(outcome)) => {
            assert!(outcome.suppressed_reply_ranges.is_empty());
            assert!(outcome.final_reply_already_sent);
        },
        _ => panic!("the run completed"),
    }
}

#[test]
fn queued_platform_images_keep_binary_and_path_attachments() {
    let attachments = queued_prompt_attachments(&vec![
        Some(ImageAttachment::Binary { mime: "image/png".to_string(), data: b"png".to_vec() }),
        None,
        Some(ImageAttachment::Path { path: "/tmp/input.jpg".to_string() }),
    ]);
    assert_eq!(
        attachments,
        vec![
            QueuedPromptAttachment::Binary {
                mime: "image/png".to_string(),
                data_base64: "cG5n".to_string(),
            },
            QueuedPromptAttachment::Path { path: "/tmp/input.jpg".to_string() },
        ]
    );
}

#[test]
fn host_tools_follow_admin_and_private_whitelist_policy() {
    let mut whitelist: Vec<i64> = Vec::new();
    assert!(!host_tools_allowed(false, ConversationKind::Private, false, "20000", &whitelist));
    assert!(host_tools_allowed(true, ConversationKind::Private, false, "20000", &whitelist));
    assert!(!host_tools_allowed(false, ConversationKind::Private, true, "20000", &whitelist));
    whitelist.push(20_000);
    assert!(host_tools_allowed(false, ConversationKind::Private, true, "20000", &whitelist));
    assert!(!host_tools_allowed(false, ConversationKind::Group, true, "20000", &whitelist));
    assert!(!host_tools_allowed(false, ConversationKind::Private, true, " 20000", &whitelist));
}

#[test]
fn sender_ids_parse_like_str_parse() {
    assert_eq!(parse_i64("20000"), Some(20000));
    assert_eq!(parse_i64("+7"), Some(7));
    assert_eq!(parse_i64("-9223372036854775808"), Some(i64::MIN));
    assert_eq!(parse_i64("9223372036854775807"), Some(i64::MAX));
    assert_eq!(parse_i64("9223372036854775808"), None);
    assert_eq!(parse_i64(""), None);
    assert_eq!(parse_i64("-"), None);
    assert_eq!(parse_i64("12a"), None);
    assert_eq!(parse_i64(" 1"), None);
}

#[test]
fn plugin_switches_fall_back_to_their_defaults() {
    let settings = vec![
        ("real_context".to_string(), Some(false)),
        ("group_management".to_string(), None),
        ("real_context".to_string(), Some(true)),
    ];
    assert!(!plugin_enabled(&settings, "real_context", true));
    assert!(plugin_enabled(&settings, "group_management", true));
    assert!(!plugin_enabled(&settings, "group_management", false));
    assert!(plugin_enabled(&settings, "other", true));
}

#[test]
fn downloads_are_capped() {
    let max = 20 * 1024 * 1024;
    assert!(declared_too_large(Some(max as u64 + 1), max));
    assert!(!declared_too_large(Some(max as u64), max));
    assert!(!declared_too_large(None, max));
    assert!(chunk_fits(max - 10, 10, max));
    assert!(!chunk_fits(max - 10, 11, max));
    assert!(!chunk_fits(usize::MAX, 1, max));
    assert_eq!(size_limit_message(max), "the file is larger than the 20MB limit");
}

fn session(id: &str, name: &str, kind: &str) -> SessionCandidate {
    SessionCandidate { session_id: id.to_string(), name: name.to_string(), kind: kind.to_string(), archived: false }
}

#[test]
fn legacy_sessions_are_adopted_only_when_unambiguous() {
    let sessions = vec![
        session("s1", "QQ 群 1", "user"),
        session("s2", "qq-old-1", "user"),
        session("s3", "QQ 群 1", "job"),
    ];
    assert_eq!(legacy_adoption(&sessions, "QQ 群 1", None), Adoption::Adopt(0));
    assert_eq!(legacy_adoption(&sessions, "QQ 群 1", Some("qq-old-1")), Adoption::Ambiguous);
    assert_eq!(legacy_adoption(&sessions, "new", Some("qq-old-1")), Adoption::Adopt(1));
    assert_eq!(legacy_adoption(&sessions, "new", None), Adoption::NoCandidate);
    assert_eq!(claim_outcome(Some("s1"), "s1"), ClaimOutcome::Ours);
    assert_eq!(claim_outcome(Some("s9"), "s1"), ClaimOutcome::Theirs);
    assert_eq!(claim_outcome(None, "s1"), ClaimOutcome::Failed);
}

#[test]
fn direct_final_suppression_requires_primary_send_success() {
    let mut mark = FinalReplyMark::new();
    match after_primary_send(true, true, true, true) {
        AfterPrimarySend::Delivered { suppress_final_reply: true } => mark.mark(),
        other => panic!("unexpected {other:?}"),
    }
    assert!(mark.take());
    assert!(!mark.take());

    let mut fallback = FinalReplyMark::new();
    assert_eq!(after_primary_send(false, true, true, true), AfterPrimarySend::SendFallback);
    assert!(!fallback.take());
    assert_eq!(after_primary_send(false, false, true, true), AfterPrimarySend::Failed);
    assert_eq!(
        after_primary_send(true, false, true, false),
        AfterPrimarySend::Delivered { suppress_final_reply: false }
    );
}
