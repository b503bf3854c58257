use miyu::i18n::Language;
use miyu::platforms::inbound::{
    append_file_note, conversation_for, conversation_instructions, file_failure_notice,
    image_attachment, images_to_fetch, is_admin, sender_display_name, turn_text,
};
use miyu::platforms::onebot::{MediaRef, Target};
use miyu::platforms::outbound::{
    OutboundBody, OutboundForwardNode, OutboundMessage, OutboundOrigin, OutboundSegment,
};
use miyu::platforms::reply::{
    intermediate_reply_text, message_is_parenthetical_only, outbound_text_for_history,
    ReplySuppression,
};
use miyu::platforms::tool::{
    attachment_alt, attachment_name, attachment_path, check_tool_send, mention_ids,
    missing_members, tool_text_segment, MentionError, ToolSendError,
};
use miyu::platforms::turn::ImageAttachment;
use miyu::platforms::ConversationKind;

#[test]
fn conversations_and_senders() {
    let c = conversation_for(Target::Group { group_id: 20000 }, 10000);
    assert_eq!(c.platform, "onebot");
    assert_eq!(c.account_id, "10000");
    assert_eq!(c.kind, ConversationKind::Group);
    assert_eq!(c.conversation_id, "20000");
    assert_eq!(c.scope_key(), "onebot:10000:group:20000");
    let p = conversation_for(Target::Private { user_id: 7 }, 1);
    assert_eq!(p.kind, ConversationKind::Private);
    assert_eq!(p.conversation_id, "7");
    assert_eq!(sender_display_name(Some("群名片"), Some("昵称")), "群名片");
    assert_eq!(sender_display_name(Some("  "), Some("昵称")), "昵称");
    assert_eq!(sender_display_name(None, None), "?");
    assert!(is_admin(&vec![1, 2, 3], 2));
    assert!(!is_admin(&vec![1, 2, 3], 4));
}

#[test]
fn turn_input_from_an_accepted_message() {
    let images = (0..6).map(|i| MediaRef::Url(format!("https://x/{i}"))).collect();
    let kept = images_to_fetch(images);
    assert_eq!(kept.len(), 4);
    assert!(matches!(&kept[3], MediaRef::Url(u) if u == "https://x/3"));
    match image_attachment(b"GIF89a".to_vec()) {
        ImageAttachment::Binary { mime, data } => {
            assert_eq!(mime, "image/gif");
            assert_eq!(data, b"GIF89a".to_vec());
        },
        _ => panic!("bytes are a binary attachment"),
    }
    let mut content = String::new();
    append_file_note(&mut content, "报告.pdf", "/data/platform_files/报告.pdf", Language::Chinese);
    assert_eq!(content, "[用户发来文件 报告.pdf 已保存于 /data/platform_files/报告.pdf]");
    append_file_note(&mut content, "b", "/p/b", Language::English);
    assert_eq!(
        content,
        "[用户发来文件 报告.pdf 已保存于 /data/platform_files/报告.pdf]\n[the user sent a file b saved at /p/b]"
    );
    assert_eq!(file_failure_notice("x.zip", Language::Chinese), "文件接收失败：x.zip");
    assert_eq!(turn_text(String::new(), false, false, None, Language::English), None);
    assert_eq!(
        turn_text(String::new(), false, true, None, Language::English).as_deref(),
        Some("(they @-mentioned you without any text)")
    );
    assert_eq!(
        turn_text("早上好".to_string(), false, false, Some(("小明", 12345)), Language::Chinese).as_deref(),
        Some("[群成员 小明(12345)] 早上好")
    );
    assert_eq!(turn_text(String::new(), true, false, None, Language::English).as_deref(), Some(""));
    assert_eq!(
        conversation_instructions(Some("  说中文  ")).as_deref(),
        Some("<qq-conversation-instructions>\n说中文\n</qq-conversation-instructions>")
    );
    assert_eq!(conversation_instructions(Some("   ")), None);
    assert_eq!(conversation_instructions(None), None);
}

fn segments(segs: Vec<OutboundSegment>) -> OutboundMessage {
    OutboundMessage { body: OutboundBody::Segments(segs), reply_to: None, origin: OutboundOrigin::FinalReply }
}

#[test]
fn parenthetical_asides_are_recognized() {
    let text = |t: &str| segments(vec![OutboundSegment::Text(t.to_string())]);
    assert!(message_is_parenthetical_only(&text("（小声）")));
    assert!(message_is_parenthetical_only(&text("  （外（内）外）  ")));
    assert!(!message_is_parenthetical_only(&text("（一）（二）")));
    assert!(!message_is_parenthetical_only(&text("（没关")));
    assert!(!message_is_parenthetical_only(&text("好（笑）")));
    assert!(!message_is_parenthetical_only(&text("   ")));
    assert!(message_is_parenthetical_only(&segments(vec![
        OutboundSegment::Mention("1".to_string()),
        OutboundSegment::Markdown("（".to_string()),
        OutboundSegment::Text("嗯）".to_string()),
    ])));
    assert!(!message_is_parenthetical_only(&segments(vec![
        OutboundSegment::Text("（嗯）".to_string()),
        OutboundSegment::ImagePath { path: "/a.png".to_string(), alt: String::new() },
    ])));
    let forward = OutboundMessage {
        body: OutboundBody::Forward(Vec::new()),
        reply_to: None,
        origin: OutboundOrigin::Plugin,
    };
    assert!(!message_is_parenthetical_only(&forward));
}

#[test]
fn history_text_of_outbound_messages() {
    let message = segments(vec![
        OutboundSegment::Mention("123".to_string()),
        OutboundSegment::Text("  ".to_string()),
        OutboundSegment::Markdown(" **hi** ".to_string()),
        OutboundSegment::ImagePath { path: "/a.png".to_string(), alt: String::new() },
    ]);
    assert_eq!(outbound_text_for_history(&message), "@123\n **hi**");
    let forward = OutboundMessage {
        body: OutboundBody::Forward(vec![
            OutboundForwardNode { user_id: "1".to_string(), display_name: "a".to_string(), segments: vec![OutboundSegment::Text("one".to_string())] },
            OutboundForwardNode { user_id: "2".to_string(), display_name: "b".to_string(), segments: vec![OutboundSegment::Text("two".to_string())] },
        ]),
        reply_to: None,
        origin: OutboundOrigin::Plugin,
    };
    assert_eq!(outbound_text_for_history(&forward), "one\ntwo");
}

#[test]
fn intermediate_replies_skip_directly_sent_text() {
    let mut suppression = ReplySuppression::new();
    assert_eq!(intermediate_reply_text(" 先说一句 ", &suppression).as_deref(), Some("先说一句"));
    suppression.direct_send_succeeded(3);
    assert_eq!(intermediate_reply_text("abcdef", &suppression).as_deref(), Some("abc"));
    suppression.direct_send_succeeded(0);
    assert_eq!(intermediate_reply_text("abcdef", &suppression), None);
}

#[test]
fn mention_ids_are_validated_and_deduplicated() {
    let ids = |v: &[&str]| v.iter().map(|s| Some(s.to_string())).collect::<Vec<_>>();
    assert_eq!(mention_ids(false, &ids(&["12345"])), Err(MentionError::NotAGroup));
    assert_eq!(mention_ids(true, &Vec::new()), Err(MentionError::Empty));
    assert_eq!(
        mention_ids(true, &ids(&["12345", "678901", "12345"])),
        Ok(vec!["12345".to_string(), "678901".to_string()])
    );
    assert_eq!(mention_ids(true, &ids(&["12345", "01234"])), Err(MentionError::BadId(1)));
    assert_eq!(mention_ids(true, &ids(&["1234"])), Err(MentionError::BadId(0)));
    assert_eq!(mention_ids(true, &ids(&["1234567890123"])), Err(MentionError::BadId(0)));
    assert_eq!(mention_ids(true, &vec![Some("12345".to_string()), None]), Err(MentionError::NotAString(1)));
    assert_eq!(mention_ids(true, &ids(&[""])), Err(MentionError::NotAString(0)));
    let many: Vec<Option<String>> = (0..33).map(|i| Some(format!("{}", 10000 + i))).collect();
    assert_eq!(mention_ids(true, &many), Err(MentionError::TooMany));
    assert_eq!(
        missing_members(&vec!["1".to_string(), "2".to_string(), "3".to_string()], &vec!["2".to_string()]),
        vec!["1".to_string(), "3".to_string()]
    );
}

#[test]
fn send_tool_arguments() {
    assert_eq!(check_tool_send(true, 0, 0, false), Ok(()));
    assert_eq!(check_tool_send(false, 0, 0, true), Err(ToolSendError::NothingToSend));
    assert_eq!(check_tool_send(true, 1, 0, false), Err(ToolSendError::AttachmentsNotAllowed));
    assert_eq!(check_tool_send(true, 5, 0, true), Err(ToolSendError::TooManyImages));
    assert_eq!(check_tool_send(true, 0, 5, true), Err(ToolSendError::TooManyFiles));
    assert!(matches!(tool_text_segment(Some(" hi ")), Some(OutboundSegment::Markdown(t)) if t == " hi "));
    assert!(tool_text_segment(Some("  ")).is_none());
    assert_eq!(attachment_path(Some(" ~/a.png "), Some("/home/u"), "/w").as_deref(), Some("/home/u/a.png"));
    assert_eq!(attachment_path(Some("~/a.png"), None, "/w").as_deref(), Some("/w/~/a.png"));
    assert_eq!(attachment_path(Some("b/c.txt"), None, "/w").as_deref(), Some("/w/b/c.txt"));
    assert_eq!(attachment_path(Some("/abs"), None, "/w").as_deref(), Some("/abs"));
    assert_eq!(attachment_path(Some("  "), None, "/w"), None);
    assert_eq!(attachment_path(None, None, "/w"), None);
    assert_eq!(attachment_alt(Some(" cat ")), "cat");
    assert_eq!(attachment_alt(None), "");
    assert_eq!(attachment_name(Some(" r.pdf ")).as_deref(), Some("r.pdf"));
    assert_eq!(attachment_name(Some(" ")), None);
}
