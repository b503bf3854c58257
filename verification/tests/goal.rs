use miyu::tools::goal::{
    execute_goal_command, is_armed, set_armed, take_pending_wrapup, GoalActivation, GoalOp,
    GoalPhase, GoalRecord, TurnOrigin,
};
use miyu::tools::goal_update::{
    authorize_goal_update, finish_goal_update, goal_round_prompt, needs_current_goal,
    parse_goal_update, wrapup_text, GoalAction, GoalChangeKind, GoalUpdateArgs, GoalUpdateError,
    BAD_GOAL_REFERENCE, ONLY_WITH_BLOCKED, ONLY_WITH_EDIT, ONLY_WITH_EDIT_OR_BLOCKED,
    REASON_REQUIRED,
};

fn record(objective: &str, phase: GoalPhase, rounds: i64) -> GoalRecord {
    GoalRecord {
        goal_id: "g1".to_string(),
        revision: 2,
        objective: objective.to_string(),
        phase,
        rounds_started: rounds,
        max_rounds: 10,
        blocked_code: None,
        blocked_message: None,
    }
}

fn args(goal_id: Option<&str>, revision: Option<i64>, action: Option<&str>) -> GoalUpdateArgs {
    GoalUpdateArgs {
        goal_id: goal_id.map(|s| s.to_string()),
        revision,
        action: action.map(|s| s.to_string()),
        objective: None,
        max_goal_rounds: None,
        blocked_reason: None,
    }
}

fn refusal(r: Result<miyu::tools::goal_update::GoalChange, GoalUpdateError>) -> String {
    match r {
        Err(GoalUpdateError::Refused(m)) => m,
        Err(GoalUpdateError::NotFound) => "<not found>".to_string(),
        Ok(_) => "<accepted>".to_string(),
    }
}

fn round_origin(round: i64) -> TurnOrigin {
    TurnOrigin::GoalRound { goal_id: "g1".to_string(), revision: 2, round }
}

#[test]
fn goal_command_sets_pauses_resumes_and_clears() {
    let mut activation = GoalActivation::new();
    let text = execute_goal_command(&mut activation, "s", "  ship it  ", None, |op| match op {
        GoalOp::Create { objective } => Ok(record(&objective, GoalPhase::Active, 0)),
        _ => Err("unexpected".to_string()),
    });
    assert_eq!(
        text,
        "目标已设定\n目标：ship it\n阶段：active · 轮次 0/10\n自动续跑：已武装"
    );
    assert!(is_armed(&activation, "s"));

    let text = execute_goal_command(
        &mut activation,
        "s",
        "pause",
        Some(record("ship it", GoalPhase::Active, 0)),
        |op| match op {
            GoalOp::Pause { goal_id, revision } => {
                assert_eq!((goal_id.as_str(), revision), ("g1", 2));
                Ok(record("ship it", GoalPhase::Paused, 0))
            },
            _ => Err("unexpected".to_string()),
        },
    );
    assert_eq!(
        text,
        "已暂停\n目标：ship it\n阶段：paused · 轮次 0/10\n自动续跑：未武装（/goal resume 重新授权）"
    );
    assert!(!is_armed(&activation, "s"));

    let text = execute_goal_command(
        &mut activation,
        "s",
        "clear",
        Some(record("ship it", GoalPhase::Paused, 0)),
        |_| Ok(record("ship it", GoalPhase::Paused, 0)),
    );
    assert_eq!(text, "目标已清除");

    let text = execute_goal_command(&mut activation, "s", "pause", None, |_| {
        Err("unexpected".to_string())
    });
    assert_eq!(text, "本会话没有目标");
    let text = execute_goal_command(&mut activation, "s", "edit   ", None, |_| {
        Err("unexpected".to_string())
    });
    assert_eq!(text, "用法: /goal [<objective>|clear|edit <objective>|pause|resume]");
    let text = execute_goal_command(
        &mut activation,
        "s",
        "another",
        Some(record("ship it", GoalPhase::Active, 0)),
        |_| Err("unexpected".to_string()),
    );
    assert_eq!(text, "本会话已有未完成的目标；先 /goal edit 改它，或 /goal clear 清掉");
}

#[test]
fn arming_reads_back_per_session() {
    let mut activation = GoalActivation::new();
    set_armed(&mut activation, "a", true);
    set_armed(&mut activation, "b", true);
    set_armed(&mut activation, "a", false);
    assert!(!is_armed(&activation, "a"));
    assert!(is_armed(&activation, "b"));
    assert!(take_pending_wrapup(&mut activation, "a").is_none());
}

#[test]
fn update_goal_arguments_are_checked_before_the_action() {
    match parse_goal_update(&args(None, Some(2), Some("pause"))) {
        Err(e) => assert_eq!(e, BAD_GOAL_REFERENCE),
        Ok(_) => panic!("a missing id is refused"),
    }
    match parse_goal_update(&args(Some("   "), Some(2), Some("pause"))) {
        Err(e) => assert_eq!(e, BAD_GOAL_REFERENCE),
        Ok(_) => panic!("a blank id is refused"),
    }
    match parse_goal_update(&args(Some("g1"), Some(0), Some("nope"))) {
        Err(e) => assert_eq!(e, BAD_GOAL_REFERENCE),
        Ok(_) => panic!("revision 0 is refused"),
    }
    match parse_goal_update(&args(Some("g1"), Some(2), Some("nope"))) {
        Err(e) => assert_eq!(e, "unknown goal action: nope"),
        Ok(_) => panic!("an unknown action is refused"),
    }
    match parse_goal_update(&args(Some("g1"), Some(2), None)) {
        Err(e) => assert_eq!(e, "unknown goal action: "),
        Ok(_) => panic!("a missing action is refused"),
    }
    let mut a = args(Some("  g1 "), Some(2), Some("edit"));
    a.objective = Some("   ".to_string());
    a.max_goal_rounds = Some(0);
    a.blocked_reason = Some("  stuck ".to_string());
    let req = parse_goal_update(&a).ok().unwrap();
    assert_eq!(req.goal_id, "g1");
    assert_eq!(req.revision, 2);
    assert_eq!(req.action, GoalAction::Edit);
    assert_eq!(req.objective, None);
    assert_eq!(req.max_rounds, None);
    assert_eq!(req.blocked_reason, Some("stuck".to_string()));
    assert!(!needs_current_goal(&req));
}

#[test]
fn update_goal_permissions_follow_the_turn_origin() {
    let current = record("ship it", GoalPhase::Active, 2);
    let req = |action: &str, reason: Option<&str>, objective: Option<&str>| {
        let mut a = args(Some("g1"), Some(2), Some(action));
        a.blocked_reason = reason.map(|s| s.to_string());
        a.objective = objective.map(|s| s.to_string());
        parse_goal_update(&a).ok().unwrap()
    };

    assert_eq!(
        refusal(authorize_goal_update(req("edit", None, Some("x")), &round_origin(2), Some(&current))),
        "goal edit requires a direct human turn (this turn was started automatically)"
    );
    assert_eq!(
        refusal(authorize_goal_update(req("edit", Some("r"), None), &TurnOrigin::Human, None)),
        ONLY_WITH_BLOCKED
    );
    assert_eq!(
        refusal(authorize_goal_update(req("pause", None, Some("x")), &TurnOrigin::Human, None)),
        ONLY_WITH_EDIT_OR_BLOCKED
    );
    assert_eq!(
        refusal(authorize_goal_update(req("resume", None, None), &TurnOrigin::Other, None)),
        "goal resume requires a direct human turn (this turn was started automatically)"
    );
    assert_eq!(
        refusal(authorize_goal_update(req("complete", None, None), &TurnOrigin::Human, None)),
        "<not found>"
    );
    assert_eq!(
        refusal(authorize_goal_update(req("complete", None, None), &round_origin(1), Some(&current))),
        "goal complete requires a direct human turn (this turn was started automatically)"
    );
    assert_eq!(
        refusal(authorize_goal_update(req("complete", None, Some("x")), &TurnOrigin::Human, Some(&current))),
        ONLY_WITH_EDIT
    );
    assert_eq!(
        refusal(authorize_goal_update(req("blocked", None, None), &round_origin(2), Some(&current))),
        REASON_REQUIRED
    );
    assert_eq!(
        refusal(authorize_goal_update(req("blocked", Some("no key"), None), &round_origin(2), Some(&current))),
        "blocked requires at least 3 consecutive goal rounds; current round is 2"
    );
    match authorize_goal_update(req("blocked", Some("no key"), None), &TurnOrigin::Human, Some(&current)) {
        Ok(change) => match change.kind {
            GoalChangeKind::Block { reason, autonomous } => {
                assert_eq!(reason, "no key");
                assert!(!autonomous);
            },
            _ => panic!("a block"),
        },
        Err(_) => panic!("a human may block at any round"),
    }
    match authorize_goal_update(req("complete", None, None), &round_origin(2), Some(&current)) {
        Ok(change) => {
            assert_eq!(change.goal_id, "g1");
            assert_eq!(change.revision, 2);
            assert!(matches!(change.kind, GoalChangeKind::Complete { autonomous: true }));
        },
        Err(_) => panic!("the current round may complete its goal"),
    }
}

#[test]
fn an_autonomous_completion_disarms_and_leaves_the_closing_instruction() {
    let mut activation = GoalActivation::new();
    set_armed(&mut activation, "s", true);
    let current = record("ship it", GoalPhase::Active, 3);
    let mut a = args(Some("g1"), Some(2), Some("complete"));
    a.blocked_reason = None;
    let req = parse_goal_update(&a).ok().unwrap();
    assert!(needs_current_goal(&req));
    let change = authorize_goal_update(req, &round_origin(3), Some(&current)).ok().unwrap();
    finish_goal_update(&mut activation, "s", &change, &record("ship it", GoalPhase::Complete, 3));
    assert!(!is_armed(&activation, "s"));
    let text = take_pending_wrapup(&mut activation, "s").unwrap();
    assert_eq!(text, wrapup_text("ship it", None));
    assert!(text.starts_with("<goal_complete>\nObjective: \"ship it\"\nThe goal is marked complete"));
    assert!(text.ends_with("further work waits for the user's next instruction.\n</goal_complete>"));
    assert!(take_pending_wrapup(&mut activation, "s").is_none());
}

#[test]
fn closing_instructions_quote_the_objective_as_json() {
    let text = wrapup_text("say \"hi\"\n", Some("no\\key"));
    assert!(text.starts_with("<goal_blocked>\nObjective: \"say \\\"hi\\\"\\n\"\nBlocked: \"no\\\\key\"\nThe goal is marked blocked"));
    assert!(text.contains("Report only what earlier rounds and tool results in this session actually establish;"));
    assert!(text.ends_with("</goal_blocked>"));
}

#[test]
fn round_prompt_names_the_round_and_the_objective() {
    let text = goal_round_prompt("ship it", 2, 10);
    assert!(text.starts_with("<goal_round>\nThis is an automatic continuation round"));
    assert!(text.contains("with `/goal`.\nObjective: \"ship it\"\nRound 2 of 10.\nThe objective may have nothing to do with the messages just above \u{2014} a standing"));
    assert!(text.ends_with("next concrete step of progress in this round.\n</goal_round>"));
}

#[test]
fn only_a_human_turn_creates_a_goal() {
    assert_eq!(miyu::tools::goal_update::authorize_create_goal(&TurnOrigin::Human, Some(0)), Ok(None));
    assert_eq!(miyu::tools::goal_update::authorize_create_goal(&TurnOrigin::Human, Some(5)), Ok(Some(5)));
    assert_eq!(
        miyu::tools::goal_update::authorize_create_goal(&round_origin(1), None),
        Err("goal create requires a direct human turn (this turn was started automatically)".to_string())
    );
}
