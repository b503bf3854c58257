use miyu::platforms::connection::{
    api_failure_message, api_outcome, api_timeout_message, plan_listener, unmatched_response_failed,
    ListenerState, PendingCalls, ReverseWsConfig,
};
use miyu::platforms::files::{
    add_chunk, candidate_name, file_url_source, storage_check, FileUrlSource, StorageError,
    StoredEntry, StreamError,
};
use miyu::platforms::onebot::Target;
use miyu::platforms::outbound::{
    base64_source, check_base64_fallback, check_upload, forward_action, message_action,
    plan_forward, plan_segments, upload_action, upload_name, ForwardNode, OutboundError,
    SendSegment, UploadError, WireSegment,
};

fn texts(frame: &[WireSegment]) -> Vec<String> {
    frame
        .iter()
        .map(|w| match w {
            WireSegment::Text(t) => format!("text:{t}"),
            WireSegment::At(u) => format!("at:{u}"),
            WireSegment::Image(f) => format!("image:{f}"),
            WireSegment::Reply(id) => format!("reply:{id}"),
        })
        .collect()
}

#[test]
fn adapter_smoke_test_sends_replies_images_and_forward_nodes() {
    let target = Target::Group { group_id: 42 };
    let plan = plan_segments(
        vec![SendSegment::Text("hello".to_string()), SendSegment::Image(vec![1, 2, 3])],
        0,
        target,
        Some("99"),
    )
    .unwrap();
    assert_eq!(message_action(target), "send_group_msg");
    assert_eq!(plan.frames.len(), 1);
    assert_eq!(texts(&plan.frames[0]), vec!["reply:99", "text:hello", "image:base64://AQID"]);
    assert!(plan.files.is_empty());

    let nodes = plan_forward(vec![ForwardNode {
        user_id: "10000".to_string(),
        display_name: "Miyu".to_string(),
        segments: vec![SendSegment::Markdown("**long**".to_string())],
    }])
    .unwrap();
    assert_eq!(forward_action(target), "send_group_forward_msg");
    assert_eq!(nodes.len(), 1);
    assert_eq!(nodes[0].user_id, "10000");
    assert_eq!(texts(&nodes[0].content), vec!["text:long"]);
}

#[test]
fn long_text_splits_into_frames_and_files_follow() {
    let plan = plan_segments(
        vec![
            SendSegment::Text("第一段落。\n\n第二段落。".to_string()),
            SendSegment::Mention("123".to_string()),
            SendSegment::File { path: "/tmp/a.pdf".to_string(), name: Some("报告.pdf".to_string()) },
            SendSegment::Text("after".to_string()),
        ],
        10,
        Target::Private { user_id: 7 },
        Some("5"),
    )
    .unwrap();
    assert_eq!(plan.frames.len(), 3);
    assert_eq!(texts(&plan.frames[0]), vec!["text:第一段落。"]);
    assert_eq!(texts(&plan.frames[1]), vec!["text:第二段落。", "at:123"]);
    assert_eq!(texts(&plan.frames[2]), vec!["text:after"]);
    assert_eq!(plan.files, vec![("/tmp/a.pdf".to_string(), Some("报告.pdf".to_string()))]);
    assert_eq!(message_action(Target::Private { user_id: 7 }), "send_private_msg");
}

#[test]
fn outbound_images_are_capped_and_forward_nodes_refuse_files() {
    let big = vec![0u8; 20 * 1024 * 1024 + 1];
    assert_eq!(
        plan_segments(vec![SendSegment::Image(big)], 0, Target::Group { group_id: 1 }, None).err(),
        Some(OutboundError::ImageTooLarge)
    );
    assert_eq!(
        plan_segments(
            vec![SendSegment::ImageFile { path: "/x.png".to_string(), bytes: Err("missing".to_string()) }],
            0,
            Target::Group { group_id: 1 },
            None,
        )
        .err(),
        Some(OutboundError::ImageUnreadable("missing".to_string()))
    );
    assert_eq!(
        plan_segments(
            vec![SendSegment::ImageFile { path: "/x.png".to_string(), bytes: Ok(b"not an image".to_vec()) }],
            0,
            Target::Group { group_id: 1 },
            None,
        )
        .err(),
        Some(OutboundError::ImageUndecodable("/x.png".to_string()))
    );
    let png: Vec<u8> = vec![
        137, 80, 78, 71, 13, 10, 26, 10, 0, 0, 0, 13, 73, 72, 68, 82, 0, 0, 0, 1, 0, 0, 0, 1, 8, 0, 0, 0, 0, 58,
        126, 155, 85, 0, 0, 0, 10, 73, 68, 65, 84, 120, 156, 99, 96, 0, 0, 0, 2, 0, 1, 72, 175, 164, 113, 0, 0, 0,
        0, 73, 69, 78, 68, 174, 66, 96, 130,
    ];
    match plan_segments(
        vec![SendSegment::ImageFile { path: "/x.png".to_string(), bytes: Ok(png.clone()) }],
        0,
        Target::Group { group_id: 1 },
        None,
    ) {
        Ok(plan) => {
            assert_eq!(plan.frames.len(), 1);
            match &plan.frames[0][0] {
                WireSegment::Image(file) => assert_eq!(file, &base64_source(&png)),
                _ => panic!("an image segment"),
            }
        },
        Err(e) => panic!("a decodable image is sent: {:?}", e),
    }
    assert_eq!(plan_forward(Vec::new()).err(), Some(OutboundError::EmptyForward));
    let with_file = vec![ForwardNode {
        user_id: "1".to_string(),
        display_name: "a".to_string(),
        segments: vec![SendSegment::File { path: "/x".to_string(), name: None }],
    }];
    assert_eq!(plan_forward(with_file).err(), Some(OutboundError::FileInForward));
}

#[test]
fn file_upload_falls_back_to_base64_after_url_failure() {
    assert_eq!(upload_action(Target::Private { user_id: 42 }), "upload_private_file");
    assert_eq!(upload_action(Target::Group { group_id: 42 }), "upload_group_file");
    assert_eq!(check_upload(true, 5), Ok(()));
    assert_eq!(check_upload(false, 5), Err(UploadError::NotAFile));
    assert_eq!(check_upload(true, 50 * 1024 * 1024 + 1), Err(UploadError::TooLarge));
    // The temporary URL upload failed with retcode 100 ...
    assert_eq!(api_outcome(Some(100)), Err(100));
    // ... so the small file goes inline.
    assert_eq!(check_base64_fallback(5), Ok(()));
    assert_eq!(check_base64_fallback(16 * 1024 * 1024 + 1), Err(UploadError::FallbackTooLarge));
    assert_eq!(base64_source(&b"hello".to_vec()), "base64://aGVsbG8=");
    assert_eq!(upload_name(None, "/tmp/sample.txt"), "sample.txt");
    assert_eq!(upload_name(Some("  "), "/tmp/sample.txt"), "sample.txt");
    assert_eq!(upload_name(Some(" ../x.pdf "), "/tmp/sample.txt"), "x.pdf");
    assert_eq!(upload_name(None, "/"), "file");
}

#[test]
fn api_calls_wait_for_the_matching_echo() {
    let mut pending: PendingCalls<u32> = PendingCalls::new();
    assert!(pending.is_empty());
    assert_eq!(pending.insert("act-1", 7), None);
    assert!(!pending.is_empty());
    // An unrelated response resolves nothing.
    assert_eq!(pending.remove("other"), None);
    assert_eq!(pending.remove("act-1"), Some(7));
    assert!(pending.is_empty());
    assert_eq!(pending.insert("a", 1), None);
    assert_eq!(pending.insert("a", 2), Some(1));
    assert_eq!(pending.remove("a"), Some(2));
    assert_eq!(pending.remove("a"), None);
    assert_eq!(api_outcome(Some(0)), Ok(()));
    assert_eq!(api_outcome(None), Err(-1));
    assert!(unmatched_response_failed(Some(3)));
    assert!(!unmatched_response_failed(None));
    assert_eq!(api_failure_message("send_group_msg", -1), "OneBot API send_group_msg failed with retcode -1");
    assert_eq!(api_timeout_message("get_login_info"), "OneBot API get_login_info timed out");
}

fn ws(enabled: bool, port: u16) -> ReverseWsConfig {
    ReverseWsConfig { enabled, port, access_token: String::new() }
}

#[test]
fn listener_rebind_is_transactional_and_reuses_the_web_port() {
    let web_port = 8300;
    let mut listener = ListenerState::new();

    let shared = ws(true, web_port);
    let plan = plan_listener(None, &shared, web_port, listener.active_port());
    assert!(!plan.dedicated_bind);
    listener.commit(&plan, false);
    assert_eq!(listener.active_port(), Some(web_port));
    assert!(!listener.has_task());

    let dedicated = ws(true, 9300);
    let plan = plan_listener(Some(&shared), &dedicated, web_port, listener.active_port());
    assert!(plan.dedicated_bind);
    assert!(plan.disconnect_connections);
    listener.commit(&plan, true);
    assert_eq!(listener.active_port(), Some(9300));
    assert!(listener.has_task());

    // The bind of an occupied port fails: nothing is committed.
    let conflict = ws(true, 9400);
    let plan = plan_listener(Some(&dedicated), &conflict, web_port, listener.active_port());
    assert!(plan.dedicated_bind);
    assert_eq!(listener.active_port(), Some(9300));
    assert!(listener.has_task());

    let disabled = ws(false, 9300);
    let plan = plan_listener(Some(&dedicated), &disabled, web_port, listener.active_port());
    let commit = listener.commit(&plan, false);
    assert!(commit.stop_previous);
    assert_eq!(listener.active_port(), None);
    assert!(!listener.has_task());
    assert!(!listener.shutdown());
}

#[test]
fn onebot_inbound_file_store_enforces_a_total_capacity() {
    let existing = vec![StoredEntry { is_file: true, len: 8, expired: false }];
    assert_eq!(storage_check(&existing, 2, 10, 10).1, Ok(()));
    assert_eq!(storage_check(&existing, 3, 10, 10).1, Err(StorageError::Full));
    let mixed = vec![
        StoredEntry { is_file: true, len: 100, expired: true },
        StoredEntry { is_file: false, len: 100, expired: false },
        StoredEntry { is_file: true, len: 4, expired: false },
    ];
    let (removed, verdict) = storage_check(&mixed, 2, 10, 1);
    assert_eq!(removed, vec![0]);
    assert_eq!(verdict, Err(StorageError::Full));
    let overflow = vec![
        StoredEntry { is_file: true, len: u64::MAX, expired: false },
        StoredEntry { is_file: true, len: 1, expired: false },
        StoredEntry { is_file: true, len: 1, expired: true },
    ];
    let (removed, verdict) = storage_check(&overflow, 0, 10, 10);
    assert!(removed.is_empty());
    assert_eq!(verdict, Err(StorageError::Overflow));
}

#[test]
fn onebot_concurrent_inbound_files_with_the_same_name_do_not_overwrite() {
    assert_eq!(candidate_name("report.txt", 0), "report.txt");
    assert_eq!(candidate_name("report.txt", 1), "report-1.txt");
    assert_ne!(candidate_name("report.txt", 1), candidate_name("report.txt", 2));
    assert_eq!(candidate_name("archive.tar.gz", 3), "archive.tar-3.gz");
    assert_eq!(candidate_name(".env", 2), ".env-2");
    assert_eq!(candidate_name("noext", 5), "noext-5");
}

#[test]
fn inbound_file_urls_and_streaming_cap() {
    match file_url_source(Some("https://x/y".to_string()), Some("id".to_string()), Target::Group { group_id: 1 }) {
        FileUrlSource::Direct(u) => assert_eq!(u, "https://x/y"),
        _ => panic!("a direct URL is used"),
    }
    match file_url_source(None, Some("id".to_string()), Target::Group { group_id: 9 }) {
        FileUrlSource::Lookup { action, file_id, group_id } => {
            assert_eq!(action, "get_group_file_url");
            assert_eq!(file_id, "id");
            assert_eq!(group_id, Some(9));
        },
        _ => panic!("a group lookup"),
    }
    match file_url_source(None, Some("id".to_string()), Target::Private { user_id: 9 }) {
        FileUrlSource::Lookup { action, group_id, .. } => {
            assert_eq!(action, "get_private_file_url");
            assert_eq!(group_id, None);
        },
        _ => panic!("a private lookup"),
    }
    assert!(matches!(file_url_source(None, None, Target::Private { user_id: 9 }), FileUrlSource::Missing));
    assert_eq!(add_chunk(5, 5, 10), Ok(10));
    assert_eq!(add_chunk(5, 6, 10), Err(StreamError::TooLarge));
    assert_eq!(add_chunk(usize::MAX, 1, 10), Err(StreamError::Overflow));
}

use miyu::i18n::Language;
use miyu::platforms::outbound::{delivery, Delivery, LoadedImage, OutboundSegment};
use miyu::platforms::turn::TurnDispatch;
use miyu::platforms::TurnOutcome;

fn outcome(text: &str, ranges: Vec<(usize, usize)>, sent: bool) -> TurnOutcome {
    TurnOutcome {
        text: text.to_string(),
        image_assets: Vec::new(),
        suppressed_reply_ranges: ranges,
        final_reply_already_sent: sent,
    }
}

#[test]
fn finished_turns_deliver_reply_images_or_a_placeholder() {
    match delivery(TurnDispatch::Queued, Vec::new(), Language::Chinese) {
        Delivery::Notice(t) => assert_eq!(t, "收到，上一条还在处理中，稍后一起回复。"),
        _ => panic!("a queued message gets a notice"),
    }
    match delivery(TurnDispatch::Failed("boom".to_string()), Vec::new(), Language::English) {
        Delivery::Notice(t) => assert_eq!(t, "Something went wrong: boom"),
        _ => panic!("a failure is reported"),
    }
    let image = LoadedImage { mime: "image/png".to_string(), data: vec![1], alt: "a".to_string() };
    match delivery(
        TurnDispatch::Completed(outcome("答案工具确认", vec![(6, 18)], false)),
        vec![None, Some(image)],
        Language::Chinese,
    ) {
        Delivery::Reply(segs) => {
            assert_eq!(segs.len(), 2);
            assert!(matches!(&segs[0], OutboundSegment::Markdown(t) if t == "答案"));
            assert!(matches!(&segs[1], OutboundSegment::ImageBytes { mime, .. } if mime == "image/png"));
        },
        _ => panic!("the reply is sent"),
    }
    assert!(matches!(
        delivery(TurnDispatch::Completed(outcome("  ", Vec::new(), true)), Vec::new(), Language::English),
        Delivery::Nothing
    ));
    match delivery(TurnDispatch::Completed(outcome("", Vec::new(), false)), Vec::new(), Language::English) {
        Delivery::Reply(segs) => {
            assert!(matches!(&segs[0], OutboundSegment::Text(t) if t == "(this turn produced no text reply)"))
        },
        _ => panic!("a placeholder is sent"),
    }
}

use miyu::platforms::connection::{frame_kind, ConnectionIdentity, FrameKind, IdentityVerdict};
use miyu::platforms::onebot::ConnectionRegistry;

#[test]
fn connections_bind_their_identity_from_events() {
    let mut registry: ConnectionRegistry<&str> = ConnectionRegistry::new();
    let generation = registry.register(0, "conn");
    let mut identity = ConnectionIdentity { bound_self_id: 0, generation };
    assert!(identity.still_current(&registry));
    assert_eq!(identity.on_event_self_id(&mut registry, None, "conn"), IdentityVerdict::Continue);
    assert_eq!(identity.on_event_self_id(&mut registry, Some(0), "conn"), IdentityVerdict::Continue);
    assert_eq!(identity.on_event_self_id(&mut registry, Some(10000), "conn"), IdentityVerdict::Continue);
    assert_eq!(identity.bound_self_id, 10000);
    assert!(identity.still_current(&registry));
    assert_eq!(identity.on_event_self_id(&mut registry, Some(10000), "conn"), IdentityVerdict::Continue);
    assert_eq!(identity.on_event_self_id(&mut registry, Some(20000), "conn"), IdentityVerdict::SelfIdChanged);

    // A newer connection for the same account replaces the old one.
    let newer = registry.register(10000, "newer");
    assert!(!identity.still_current(&registry));
    let mut late = ConnectionIdentity { bound_self_id: 0, generation };
    assert_eq!(late.on_event_self_id(&mut registry, Some(10000), "late"), IdentityVerdict::IdentityTaken);
    assert!(registry.is_current(10000, newer));

    assert_eq!(frame_kind(false, None), FrameKind::ApiResponse);
    assert_eq!(frame_kind(true, Some("message")), FrameKind::Message);
    assert_eq!(frame_kind(true, Some("notice")), FrameKind::Ignored);
    assert_eq!(frame_kind(true, None), FrameKind::Ignored);
}

#[test]
fn files_inbound_file_store_enforces_a_total_capacity() {
    let existing = vec![StoredEntry { is_file: true, len: 8, expired: false }];
    assert_eq!(storage_check(&existing, 2, 10, 10).1, Ok(()));
    assert_eq!(storage_check(&existing, 3, 10, 10).1, Err(StorageError::Full));
}

#[test]
fn files_concurrent_inbound_files_with_the_same_name_do_not_overwrite() {
    let first = candidate_name("report.txt", 0);
    let second = candidate_name("report.txt", 1);
    assert_ne!(first, second);
    assert_eq!(first, "report.txt");
    assert_eq!(second, "report-1.txt");
}
