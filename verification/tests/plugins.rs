use miyu::platforms::plugins::{
    enabled_in_order, merge_before_send, prepared_unchanged, run_order, PlatformPluginRegistry,
    PluginDescriptor, PreparedSend,
};

fn plugin(id: &str, priority: i32) -> PluginDescriptor {
    PluginDescriptor { id: id.to_string(), priority, default_enabled: true }
}

#[test]
fn registry_orders_by_priority_then_stable_id() {
    let plugins = vec![plugin("z-last", 1), plugin("b-second", 10), plugin("a-first", 10)];
    let order = run_order(&plugins);
    let ids: Vec<&str> = order.iter().map(|&i| plugins[i].id.as_str()).collect();
    assert_eq!(ids, vec!["a-first", "b-second", "z-last"]);

    let registry = PlatformPluginRegistry::new(vec![
        (plugin("z-last", 1), 'z'),
        (plugin("b-second", 10), 'b'),
        (plugin("a-first", 10), 'a'),
    ]);
    let held: Vec<(&str, char)> = registry.plugins().iter().map(|(d, p)| (d.id.as_str(), *p)).collect();
    assert_eq!(held, vec![("a-first", 'a'), ("b-second", 'b'), ("z-last", 'z')]);
}

#[test]
fn run_order_is_stable_and_handles_negative_priorities() {
    let plugins = vec![plugin("x", -5), plugin("x", 3), plugin("x", 3), plugin("ab", 3), plugin("a", 3)];
    assert_eq!(run_order(&plugins), vec![4, 3, 1, 2, 0]);
    assert!(run_order(&Vec::new()).is_empty());
}

#[test]
fn only_enabled_plugins_run() {
    let plugins = vec![
        plugin("reply_processor", 5),
        PluginDescriptor { id: "quiet".to_string(), priority: 9, default_enabled: false },
        plugin("other", 1),
    ];
    let order = run_order(&plugins);
    assert_eq!(order, vec![1, 0, 2]);
    let settings = vec![("other".to_string(), Some(false))];
    assert_eq!(enabled_in_order(&plugins, &order, &settings), vec![0]);
    let settings = vec![("quiet".to_string(), Some(true)), ("other".to_string(), None)];
    assert_eq!(enabled_in_order(&plugins, &order, &settings), vec![1, 0, 2]);
}

#[test]
fn before_send_answers_combine() {
    let prepared = prepared_unchanged("hello".to_string());
    // A plugin that rewrote the message and changed its metadata: the
    // message it was given becomes the fallback.
    let next = PreparedSend {
        primary: "HELLO".to_string(),
        after_success: vec!["follow-up".to_string()],
        fallback: None,
        suppress_final_reply: true,
    };
    let merged = merge_before_send(prepared, "hello".to_string(), Some((next, true)));
    assert_eq!(merged.primary, "HELLO");
    assert_eq!(merged.fallback.as_deref(), Some("hello"));
    assert_eq!(merged.after_success, vec!["follow-up".to_string()]);
    assert!(merged.suppress_final_reply);
    // A later failing hook leaves its input in place; the first fallback stays.
    let merged = merge_before_send(merged, "HELLO".to_string(), None);
    assert_eq!(merged.primary, "HELLO");
    assert_eq!(merged.fallback.as_deref(), Some("hello"));
    let next = PreparedSend {
        primary: "HELLO!".to_string(),
        after_success: vec!["second".to_string()],
        fallback: Some("other".to_string()),
        suppress_final_reply: false,
    };
    let merged = merge_before_send(merged, "HELLO".to_string(), Some((next, false)));
    assert_eq!(merged.primary, "HELLO!");
    assert_eq!(merged.fallback.as_deref(), Some("hello"));
    assert_eq!(merged.after_success, vec!["follow-up".to_string(), "second".to_string()]);
    assert!(merged.suppress_final_reply);
    // Unchanged metadata without a fallback leaves none.
    let plain = merge_before_send(prepared_unchanged(1u8), 1u8, Some((prepared_unchanged(2u8), false)));
    assert_eq!(plain.fallback, None);
}
