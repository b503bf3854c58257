use miyu::platforms::plugins::real_context::history_summary::{summary_due, summary_timeout_message};
use miyu::platforms::plugins::real_context::history_summary::{
    bounded_summary, fold_candidates, merge_summary, record_counts, summary_key,
    summary_max_tokens, summary_request, summary_scope, HistorySummaryRecord,
    SUMMARY_KEY_PREFIX,
};

fn record(text: &str, upto: i64, covered: u64) -> HistorySummaryRecord {
    HistorySummaryRecord { summary_text: text.to_string(), upto_row_id: upto, covered_messages: covered, updated_at: 1 }
}

#[test]
fn summaries_are_trimmed_and_capped() {
    assert_eq!(bounded_summary("  短摘要  ", 10), "短摘要");
    assert_eq!(bounded_summary("一二三四五", 3), "一二三…");
    assert_eq!(bounded_summary("   ", 3), "");
}

#[test]
fn fold_takes_rows_between_watermark_and_window() {
    let rows = vec![3, 5, 8, 13, 21];
    assert_eq!(fold_candidates(&rows, 3, 21), vec![1, 2, 3]);
    assert_eq!(fold_candidates(&rows, 21, 100), Vec::<usize>::new());
    assert_eq!(fold_candidates(&rows, 0, 4), vec![0]);
}

#[test]
fn summarizer_budget_and_request() {
    assert_eq!(summary_max_tokens(100), 256);
    assert_eq!(summary_max_tokens(2000), 1000);
    assert_eq!(summary_max_tokens(100_000), 4096);
    assert_eq!(
        summary_request(800, &HistorySummaryRecord::empty(), "A: hi"),
        "字数上限 800 字。\n\n<chat-log>\nA: hi\n</chat-log>"
    );
    assert_eq!(
        summary_request(800, &record("旧摘要", 5, 2), "A: hi"),
        "字数上限 800 字。\n\n<previous-summary>\n旧摘要\n</previous-summary>\n\n<chat-log>\nA: hi\n</chat-log>"
    );
}

#[test]
fn the_watermark_never_moves_back() {
    let current = record("摘要", 10, 4);
    assert!(merge_summary(&current, 10, 3, "新".to_string(), 9).is_none());
    assert!(merge_summary(&current, 7, 3, "新".to_string(), 9).is_none());
    let merged = merge_summary(&current, 15, 3, "新".to_string(), 9).unwrap();
    assert_eq!(merged.upto_row_id, 15);
    assert_eq!(merged.covered_messages, 7);
    assert_eq!(merged.summary_text, "新");
    assert_eq!(merged.updated_at, 9);
    // A blank summary at the same row may still be written.
    let blank = record("  ", 10, u64::MAX);
    let merged = merge_summary(&blank, 8, 3, "新".to_string(), 9).unwrap();
    assert_eq!(merged.upto_row_id, 10);
    assert_eq!(merged.covered_messages, u64::MAX);
}

#[test]
fn summary_records_and_keys() {
    assert!(!record_counts(&HistorySummaryRecord::empty()));
    assert!(record_counts(&record("", 3, 0)));
    assert!(record_counts(&record("x", 0, 0)));
    assert_eq!(summary_key("persona:default"), "history_summary:persona:default");
    let scope = summary_scope("real_context", "onebot", "10000", "20000");
    assert_eq!(scope.conversation_kind, SUMMARY_KEY_PREFIX);
    assert_eq!(scope.conversation_id, "20000");
    assert_eq!(scope.plugin_id, "real_context");
}

#[test]
fn folds_are_summarized_only_past_the_trigger_and_when_visible() {
    assert!(!summary_due(3, 4, "a\nb\nc"));
    assert!(summary_due(4, 4, "a\nb\nc\nd"));
    assert!(!summary_due(9, 4, " \n\t "));
    assert_eq!(summary_timeout_message(30), "group history summary timed out after 30s");
}
