use miyu::platforms::plugins::group_management::{
    aggregate_target_results, append_kick, ban_duration, bounded_reason, check_member_role,
    check_not_self, check_title, external_operation_result, failure, humanize_seconds,
    management_note, management_note_key, new_ban_record, notice_step, optional_id, query_kicks,
    query_limit, resolve_targets, split_ids, title_duration, trim_vec, update_offender, valid_id,
    BanBook, BanStatus, GroupManagementSettings, GroupNotice, KickRecord, NoticeStep,
    OffenderHistory, TargetResult, MAX_BAN_SECONDS,
};
use miyu::platforms::plugins::group_management::{offender_sort, query_offenders, OffenderSort};

#[test]
fn target_parser_accepts_only_qq_sized_numeric_ids() {
    assert_eq!(split_ids("12345, 12345 @678901 and invalid-12"), vec!["12345", "12345", "678901"]);
    assert!(valid_id("12345"));
    assert!(!valid_id("1234"));
    assert!(!valid_id("12a45"));
}

#[test]
fn mute_duration_is_spelled_in_seconds_and_reads_back_in_words() {
    assert_eq!(humanize_seconds(0), "解禁");
    assert_eq!(humanize_seconds(600), "10分钟");
    assert_eq!(humanize_seconds(3_600), "1小时");
    assert_eq!(humanize_seconds(86_400), "1天");
    assert_eq!(humanize_seconds(1_440), "24分钟");
    assert_eq!(humanize_seconds(MAX_BAN_SECONDS), "30天");
    assert_eq!(humanize_seconds(90), "1分钟30秒");
}

#[test]
fn kick_targets_accept_an_array_and_still_fall_back_to_a_scalar() {
    let listed = resolve_targets(
        &vec!["12345".to_string(), "678901".to_string()],
        &None,
        &Vec::new(),
        &None,
        "10000",
    )
    .unwrap();
    assert_eq!(listed, vec!["12345".to_string(), "678901".to_string()]);
    assert_eq!(split_ids("12345 678901"), vec!["12345", "678901"]);
}

#[test]
fn targets_fall_back_to_mentions_then_the_replied_author() {
    let mentioned = resolve_targets(
        &Vec::new(),
        &Some("  ".to_string()),
        &vec!["22222".to_string(), "22222".to_string(), "10000".to_string()],
        &Some("33333".to_string()),
        "10000",
    )
    .unwrap();
    assert_eq!(mentioned, vec!["22222".to_string()]);
    let replied =
        resolve_targets(&Vec::new(), &None, &Vec::new(), &Some("33333".to_string()), "10000")
            .unwrap();
    assert_eq!(replied, vec!["33333".to_string()]);
    assert_eq!(
        resolve_targets(&Vec::new(), &Some("abc".to_string()), &Vec::new(), &None, "1").err(),
        Some("未找到有效的目标 QQ 号".to_string())
    );
    let many: Vec<String> = (0..40).map(|i| format!("{}", 100000 + i)).collect();
    assert_eq!(resolve_targets(&many, &None, &Vec::new(), &None, "1").unwrap().len(), 32);
}

#[test]
fn batch_results_tell_the_model_which_targets_may_be_retried() {
    let aggregate = aggregate_target_results(vec![
        TargetResult { user_id: "12345".into(), outcome: external_operation_result(Vec::new()) },
        TargetResult { user_id: "678901".into(), outcome: failure("目标不在当前群中".into()) },
    ]);
    assert_eq!(aggregate.success_count, 1);
    assert_eq!(aggregate.failed_count, 1);
    assert!(!aggregate.do_not_retry);
    assert!(aggregate.do_not_retry_successful_targets);
    assert!(aggregate.retry_failed_targets_only);
    assert_eq!(aggregate.failed_target_ids, vec!["678901".to_string()]);
    assert_eq!(aggregate.results.len(), 2);
    assert_eq!(aggregate.results[1].user_id, "678901");
    assert!(!aggregate.results[1].outcome.operation_succeeded);
    assert_eq!(
        aggregate.message,
        "外部操作成功 1 个、失败 1 个；成功目标不得重试，失败目标可单独重试"
    );

    let all_good = aggregate_target_results(vec![TargetResult {
        user_id: "12345".into(),
        outcome: external_operation_result(Vec::new()),
    }]);
    assert!(all_good.do_not_retry);
    assert_eq!(all_good.message, "成功 1 个，失败 0 个");
}

#[test]
fn astrbot_defaults_are_preserved() {
    let settings = GroupManagementSettings::default();
    assert_eq!(settings.default_duration_seconds, 600);
    assert_eq!(settings.max_reason_length, 500);
    assert_eq!(settings.max_records_per_group, 500);
}

#[test]
fn audit_failure_reports_partial_success_and_forbids_retry() {
    let response = external_operation_result(vec!["injected audit failure".to_string()]);
    assert!(response.success);
    assert!(response.operation_succeeded);
    assert!(!response.audit_succeeded);
    assert!(response.do_not_retry);
    assert!(response.message.contains("请勿重试"));
}

#[test]
fn external_failure_remains_retryable() {
    let response = failure("injected external failure".to_string());
    assert!(!response.success);
    assert!(!response.operation_succeeded);
    assert!(!response.do_not_retry);
}

#[test]
fn mute_lengths_reasons_and_titles_are_checked() {
    assert_eq!(ban_duration(Some(3600), Some(60), 600), Ok(3600));
    assert_eq!(ban_duration(None, Some(60), 600), Ok(60));
    assert_eq!(ban_duration(None, None, 600), Ok(600));
    assert_eq!(
        ban_duration(Some(MAX_BAN_SECONDS + 1), None, 600).unwrap_err(),
        "禁言时长上限 2592000 秒（30 天），收到 2592001 秒；注意该参数的单位是秒"
    );
    assert_eq!(bounded_reason(Some("  spam "), 10).unwrap(), "spam");
    assert!(bounded_reason(Some("toolong"), 3).is_err());
    assert_eq!(bounded_reason(None, 0).unwrap(), "");
    assert_eq!(title_duration(None, 100), -1);
    assert_eq!(title_duration(Some(500), 100), 100);
    assert_eq!(title_duration(Some(500), 0), 500);
    assert_eq!(check_title(2, "x", 6).unwrap_err(), "群头衔操作必须且只能指定一个目标");
    assert_eq!(check_title(1, " 1234567 ", 6).unwrap_err(), "群头衔超过配置长度限制");
    assert_eq!(check_title(1, " 头衔 ", 6).unwrap(), "头衔");
    assert_eq!(query_limit(None), 20);
    assert_eq!(query_limit(Some(0)), 1);
    assert_eq!(query_limit(Some(500)), 100);
    assert_eq!(optional_id(Some(" 12345 ")).as_deref(), Some("12345"));
    assert_eq!(optional_id(Some("12")), None);
    assert!(check_not_self("10000", "10000").is_err());
    assert!(check_member_role("admin", true).is_err());
    assert!(check_member_role("admin", false).is_ok());
    assert!(check_member_role("member", true).is_ok());
}

fn ban(record_id: &str, user: &str, duration: u64, now: i64) -> miyu::platforms::plugins::group_management::BanRecord {
    new_ban_record(
        record_id.into(),
        "g1".into(),
        user.into(),
        "name".into(),
        duration,
        now,
        "op".into(),
        String::new(),
        "llm_tool".into(),
    )
}

#[test]
fn mute_logs_override_expire_and_list_newest_first() {
    let mut book = BanBook::new();
    book.record_action("qq:1:group:7", ban("r1", "22222", 600, 1_000), 500);
    book.record_action("qq:1:group:7", ban("r2", "22222", 60, 1_100), 500);
    book.record_action("qq:1:group:8", ban("r3", "33333", 60, 1_100), 500);
    let active = book.query("qq:1:group:7", 1_120, false, &None, 20);
    assert_eq!(active.len(), 1);
    assert_eq!(active[0].record_id, "r2");
    let all = book.query("qq:1:group:7", 1_200, true, &None, 20);
    assert_eq!(all.iter().map(|r| r.record_id.as_str()).collect::<Vec<_>>(), vec!["r2", "r1"]);
    assert_eq!(all[0].status, BanStatus::Expired);
    assert_eq!(all[1].status, BanStatus::Overridden);
    book.record_action("qq:1:group:8", ban("r4", "33333", 0, 1_110), 500);
    let history = book.query("qq:1:group:8", 1_111, true, &Some("33333".into()), 1);
    assert_eq!(history.len(), 1);
    assert_eq!(history[0].status, BanStatus::Unmuted);
    assert_eq!(BanStatus::Overridden.as_str(), "overridden");
}

#[test]
fn histories_keep_their_newest_entries() {
    let mut v = vec![1, 2, 3, 4];
    trim_vec(&mut v, 2);
    assert_eq!(v, vec![3, 4]);
    trim_vec(&mut v, 0);
    assert_eq!(v, vec![4]);

    let mut kicks = Vec::new();
    for (i, name) in ["Alice", "bob", "Carol"].iter().enumerate() {
        append_kick(
            &mut kicks,
            KickRecord {
                record_id: format!("k{i}"),
                group_id: "g".into(),
                user_id: format!("1000{i}0"),
                user_name: name.to_string(),
                kicked_at: i as i64,
                operator_id: "op".into(),
                reason: "spam".into(),
                reject_add_request: false,
                source: "llm_tool".into(),
            },
            2,
        );
    }
    assert_eq!(kicks.len(), 2);
    let found = query_kicks(&kicks, &None, "CAROL", 20);
    assert_eq!(found.len(), 1);
    assert_eq!(found[0].record_id, "k2");
    assert_eq!(query_kicks(&kicks, &None, "", 1)[0].record_id, "k2");
}

#[test]
fn offender_statistics_count_and_evict_the_least() {
    let mut items: Vec<OffenderHistory> = Vec::new();
    update_offender(&mut items, &ban("r1", "22222", 60, 10), 2);
    update_offender(&mut items, &ban("r2", "22222", 120, 20), 2);
    update_offender(&mut items, &ban("r3", "33333", 60, 30), 2);
    assert_eq!(items.len(), 2);
    assert_eq!(items[0].ban_count, 2);
    assert_eq!(items[0].total_duration, 180);
    assert_eq!(items[0].first_ban_at, 10);
    assert_eq!(items[0].reason_history.len(), 2);
    update_offender(&mut items, &ban("r4", "44444", 60, 40), 2);
    let ids: Vec<&str> = items.iter().map(|i| i.user_id.as_str()).collect();
    assert_eq!(ids, vec!["22222", "44444"]);
}

#[test]
fn notes_and_notices() {
    let note = management_note("禁言", "10000", "Bob", "22222", "", Some(600), "abc");
    assert_eq!(
        note,
        "[System:群管理行为]\n操作：禁言\n执行者：Miyu（10000）\n对象：Bob（22222）\n时长：600 秒\n记录 ID：abc"
    );
    assert_eq!(management_note_key("abc"), "qq-management-abc");
    let settings = GroupManagementSettings::default();
    assert_eq!(
        notice_step(&GroupNotice::Ban { duration: Some(60) }, false, &settings),
        NoticeStep::RecordBan { duration: 60 }
    );
    assert_eq!(notice_step(&GroupNotice::Ban { duration: Some(60) }, true, &settings), NoticeStep::Ignore);
    assert_eq!(
        notice_step(&GroupNotice::Decrease { kicked: false }, false, &settings),
        NoticeStep::ForgetMember { record_kick: false }
    );
}

fn offender(user_id: &str, name: &str, count: u64, total: u64, last: i64, reason: &str) -> OffenderHistory {
    OffenderHistory {
        user_id: user_id.to_string(),
        user_name: name.to_string(),
        ban_count: count,
        total_duration: total,
        first_ban_at: 1,
        last_ban_at: last,
        last_reason: reason.to_string(),
        reason_history: vec![],
    }
}

#[test]
fn offender_listing_filters_sorts_stably_and_limits() {
    let items = vec![
        offender("1001", "Alice", 3, 600, 30, "spam"),
        offender("1002", "Bob", 1, 60, 50, "Flood"),
        offender("1003", "Carol", 3, 120, 10, "ads"),
        offender("1004", "Dave", 2, 6000, 40, "spam links"),
    ];
    assert_eq!(offender_sort("ban_count"), OffenderSort::BanCount);
    assert_eq!(offender_sort("total_duration"), OffenderSort::TotalDuration);
    assert_eq!(offender_sort("last_ban_at"), OffenderSort::LastBanAt);
    assert_eq!(offender_sort("whatever"), OffenderSort::BanCount);
    // Descending by count: equal counts come out in reverse stored order.
    assert_eq!(query_offenders(&items, &None, "", 1, OffenderSort::BanCount, false, 10), vec![2, 0, 3, 1]);
    assert_eq!(query_offenders(&items, &None, "", 1, OffenderSort::BanCount, true, 10), vec![1, 3, 0, 2]);
    assert_eq!(query_offenders(&items, &None, "", 2, OffenderSort::TotalDuration, false, 2), vec![3, 0]);
    assert_eq!(query_offenders(&items, &None, "", 1, OffenderSort::LastBanAt, true, 10), vec![2, 0, 3, 1]);
    assert_eq!(query_offenders(&items, &None, "SPAM", 1, OffenderSort::BanCount, false, 10), vec![0, 3]);
    assert_eq!(query_offenders(&items, &None, "flood", 1, OffenderSort::BanCount, false, 10), vec![1]);
    assert_eq!(query_offenders(&items, &Some("1003".to_string()), "", 1, OffenderSort::BanCount, false, 10), vec![2]);
    assert!(query_offenders(&items, &None, "", 4, OffenderSort::BanCount, false, 10).is_empty());
    assert!(query_offenders(&items, &None, "", 1, OffenderSort::BanCount, false, 0).is_empty());
}

#[test]
fn every_split_id_is_valid() {
    for id in split_ids("1234 12345 1234567890123 999999999999 a98765b x00000") {
        assert!(valid_id(&id), "{id}");
    }
}
