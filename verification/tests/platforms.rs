use miyu::config::{PlatformCommandPermission, PlatformsConfig};
use miyu::platforms::commands::{
    descriptor, is_allowed, parse, ParsedPlatformCommand, RESET_COMMAND_ID,
};
use miyu::platforms::rate::{RateDecision, RateWindow};
use miyu::platforms::{
    final_reply_text, markdown_to_plain, sniff_image_mime, split_reply, strip_inline_markup,
    ReplySuppression, TurnOutcome,
};

#[test]
fn parses_default_and_custom_prefixes_with_command_boundaries() {
    let mut config = PlatformsConfig::default();
    assert_eq!(
        parse(&config, "/reset"),
        Some(ParsedPlatformCommand::Reset {
            has_arguments: false
        })
    );
    assert_eq!(
        parse(&config, "  /RESET  "),
        Some(ParsedPlatformCommand::Reset {
            has_arguments: false
        })
    );
    assert_eq!(
        parse(&config, "/reset now"),
        Some(ParsedPlatformCommand::Reset {
            has_arguments: true
        })
    );
    assert_eq!(
        parse(&config, "/resetting"),
        Some(ParsedPlatformCommand::Unknown)
    );
    assert_eq!(
        parse(&config, "/ reset"),
        Some(ParsedPlatformCommand::Unknown)
    );
    assert_eq!(parse(&config, "please /reset"), None);

    config.command_prefix = "喵".to_string();
    assert_eq!(
        parse(&config, "喵reset"),
        Some(ParsedPlatformCommand::Reset {
            has_arguments: false
        })
    );
    assert_eq!(parse(&config, "/reset"), None);
}

#[test]
fn reset_defaults_to_admin_and_supports_an_everyone_override() {
    let mut config = PlatformsConfig::default();
    let reset = descriptor(RESET_COMMAND_ID).unwrap();
    assert!(is_allowed(&config, &reset, true));
    assert!(!is_allowed(&config, &reset, false));

    config.set_command_permission(RESET_COMMAND_ID, PlatformCommandPermission::Everyone);
    assert!(is_allowed(&config, &reset, false));
}

#[test]
fn rate_window_allows_then_drops_with_single_notice() {
    let start = 5_000u64;
    let mut window = RateWindow::new(start);
    for _ in 0..3 {
        assert_eq!(window.check_at(start, "group:1", 3), RateDecision::Allow);
    }
    assert_eq!(
        window.check_at(start, "group:1", 3),
        RateDecision::DropWithNotice
    );
    assert_eq!(
        window.check_at(start, "group:1", 3),
        RateDecision::DropSilently
    );
    // Another conversation is unaffected by the first group's quota.
    assert_eq!(window.check_at(start, "group:2", 3), RateDecision::Allow);
    // The window resets after a minute.
    let later = start + 61_000;
    assert_eq!(window.check_at(later, "group:1", 3), RateDecision::Allow);
}

#[test]
fn rate_window_zero_is_unlimited() {
    let start = 0u64;
    let mut unlimited = RateWindow::new(start);
    for i in 0..100 {
        assert_eq!(
            unlimited.check_at(start, &format!("group:{i}"), 0),
            RateDecision::Allow
        );
    }
}

#[test]
fn markdown_to_plain_strips_decoration_keeps_content() {
    let input = "# 标题\n\n**加粗** 与 `代码` 和 [链接](https://a.b)\n\n```rust\nlet x = 1; // **不动**\n```\n\n- 列表项\n> 引用";
    let plain = markdown_to_plain(input);
    assert_eq!(
        plain,
        "标题\n\n加粗 与 代码 和 链接 (https://a.b)\n\nlet x = 1; // **不动**\n\n- 列表项\n引用"
    );
}

#[test]
fn markdown_link_edge_cases() {
    assert_eq!(strip_inline_markup("[a](b"), "[a](b");
    assert_eq!(strip_inline_markup("纯 [文本] 括号"), "纯 [文本] 括号");
    // Identical text/url collapses to one copy.
    assert_eq!(
        strip_inline_markup("[https://x.y](https://x.y)"),
        "https://x.y"
    );
}

#[test]
fn split_reply_paragraph_line_and_hard_boundaries() {
    assert_eq!(split_reply("短", 10), vec!["短"]);
    assert!(split_reply("  ", 10).is_empty());
    // 0 disables splitting.
    let long = "a".repeat(50);
    assert_eq!(split_reply(&long, 0), vec![long.clone()]);

    let text = "第一段落。\n\n第二段落。";
    let chunks = split_reply(text, 6);
    assert_eq!(chunks, vec!["第一段落。", "第二段落。"]);

    // CJK hard split never panics and keeps every char.
    let cjk = "汉".repeat(25);
    let chunks = split_reply(&cjk, 10);
    assert_eq!(chunks.len(), 3);
    assert_eq!(chunks.join(""), cjk);
}

#[test]
fn sniff_image_mime_by_magic() {
    assert_eq!(sniff_image_mime(&[0x89, b'P', b'N', b'G', 0]), "image/png");
    assert_eq!(sniff_image_mime(&[0xFF, 0xD8, 0xFF, 0xE0]), "image/jpeg");
    assert_eq!(sniff_image_mime(b"GIF89a"), "image/gif");
    assert_eq!(sniff_image_mime(b"RIFF\0\0\0\0WEBPVP8 "), "image/webp");
    assert_eq!(sniff_image_mime(b"????"), "image/png");
}

#[test]
fn queued_prompt_closes_only_text_already_emitted_after_direct_send() {
    let mut suppression = ReplySuppression::new();
    suppression.direct_send_succeeded(8);
    suppression.queued_prompt_consumed(8);
    let (ranges, already_sent) = suppression.finish(24);
    assert!(ranges.is_empty());
    assert!(!already_sent);

    let mut suppression = ReplySuppression::new();
    suppression.direct_send_succeeded(8);
    suppression.queued_prompt_consumed(14);
    let (ranges, already_sent) = suppression.finish(24);
    assert_eq!(ranges, vec![(8, 14)]);
    assert!(!already_sent);
}

#[test]
fn direct_send_without_later_prompt_covers_an_empty_final_reply() {
    let mut suppression = ReplySuppression::new();
    suppression.direct_send_succeeded(8);
    let (ranges, already_sent) = suppression.finish(8);
    assert!(ranges.is_empty());
    assert!(already_sent);
}

#[test]
fn confirmed_direct_send_only_suppresses_later_assistant_text() {
    let outcome = TurnOutcome {
        text: "首条消息的回答\n工具发送后的重复确认".to_string(),
        image_assets: Vec::new(),
        suppressed_reply_ranges: vec![(
            "首条消息的回答".len(),
            "首条消息的回答\n工具发送后的重复确认".len(),
        )],
        final_reply_already_sent: true,
    };
    assert_eq!(final_reply_text(&outcome), "首条消息的回答");

    let unsuppressed = TurnOutcome {
        suppressed_reply_ranges: Vec::new(),
        final_reply_already_sent: false,
        ..outcome
    };
    assert_eq!(
        final_reply_text(&unsuppressed),
        "首条消息的回答\n工具发送后的重复确认"
    );
}

#[test]
fn direct_send_suppression_keeps_a_later_queued_answer() {
    let prefix = "首条回答";
    let duplicate = "工具确认";
    let queued = "排队消息的回答";
    let text = format!("{prefix}{duplicate}{queued}");
    let outcome = TurnOutcome {
        text,
        image_assets: Vec::new(),
        suppressed_reply_ranges: vec![(prefix.len(), prefix.len() + duplicate.len())],
        final_reply_already_sent: false,
    };
    assert_eq!(final_reply_text(&outcome), format!("{prefix}{queued}"));
}

#[test]
fn split_chunks_put_back_together_keep_every_visible_character() {
    let text = "第一段内容比较长。\n\n第二段\n有两行，其中一行特别特别特别特别长长长长长长长长长\n\n  尾巴  ";
    let chunks = split_reply(text, 8);
    assert!(!chunks.is_empty());
    assert!(chunks.iter().all(|c| !c.is_empty() && c.chars().count() <= 8));
    let visible = |s: &str| s.chars().filter(|c| !c.is_whitespace()).collect::<String>();
    assert_eq!(visible(&chunks.concat()), visible(text));
}
