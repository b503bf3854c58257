//! Same-session long-running goals: activation, permissions and the `/goal`
//! command.
//!
//! Whether a goal continues automatically ("armed") lives in memory only and
//! never in storage: after a restart a human must re-authorise it with
//! `/goal resume`, so a crash can never make the machine keep starting rounds
//! on its own.

use vstd::prelude::*;
use crate::text::{
    chars_of, i64_decimal, push_all, push_range, push_str, signed_decimal, skip_ws, str_eq,
    string_of, trim, trim_bounds, trim_start, is_ws, is_whitespace,
};

verus! {

/// Minimum number of consecutive automatic rounds before the model may
/// declare a goal blocked on its own.
pub const BLOCKED_AFTER_CONSECUTIVE_ROUNDS: i64 = 3;

/// Phase of a goal.
#[derive(Clone, Copy, Debug, PartialEq, Eq, Structural)]
pub enum GoalPhase {
    Active,
    Paused,
    Complete,
    Blocked,
}

pub open spec fn phase_str(p: GoalPhase) -> Seq<char> {
    match p {
        GoalPhase::Active => "active"@,
        GoalPhase::Paused => "paused"@,
        GoalPhase::Complete => "complete"@,
        GoalPhase::Blocked => "blocked"@,
    }
}

impl GoalPhase {
    pub fn as_str(self) -> (r: &'static str)
        ensures
            r@ == phase_str(self),
    {
        match self {
            GoalPhase::Active => "active",
            GoalPhase::Paused => "paused",
            GoalPhase::Complete => "complete",
            GoalPhase::Blocked => "blocked",
        }
    }
}

/// A persisted goal as the store returns it.
pub struct GoalRecord {
    pub goal_id: String,
    pub revision: i64,
    pub objective: String,
    pub phase: GoalPhase,
    pub rounds_started: i64,
    pub max_rounds: i64,
    pub blocked_code: Option<String>,
    pub blocked_message: Option<String>,
}

/// Who started the current turn.
pub enum TurnOrigin {
    Human,
    GoalRound { goal_id: String, revision: i64, round: i64 },
    Other,
}

/// The turn is exactly the claimed automatic round of this goal: same goal,
/// same revision, same round number.
pub open spec fn origin_matches_goal_spec(origin: TurnOrigin, goal: GoalRecord) -> bool {
    match origin {
        TurnOrigin::GoalRound { goal_id, revision, round } => goal_id@ == goal.goal_id@
            && revision == goal.revision && round == goal.rounds_started,
        _ => false,
    }
}

pub fn origin_matches_goal(origin: &TurnOrigin, goal: &GoalRecord) -> (r: bool)
    ensures
        r == origin_matches_goal_spec(*origin, *goal),
{
    match origin {
        TurnOrigin::GoalRound { goal_id, revision, round } => str_eq(
            goal_id.as_str(),
            goal.goal_id.as_str(),
        ) && *revision == goal.revision && *round == goal.rounds_started,
        _ => false,
    }
}

/// Refuses a goal action `verb` unless a human started the turn.
pub fn require_human(origin: &TurnOrigin, verb: &str) -> (r: Result<(), String>)
    ensures
        r is Ok <==> origin is Human,
        r matches Err(e) ==> e@ == "goal "@ + verb@
            + " requires a direct human turn (this turn was started automatically)"@,
{
    match origin {
        TurnOrigin::Human => Ok(()),
        _ => {
            let mut v = chars_of("goal ");
            push_str(&mut v, verb);
            push_str(&mut v, " requires a direct human turn (this turn was started automatically)");
            Err(string_of(&v))
        },
    }
}

/// A text field counts only when something is left after trimming.
pub fn meaningful_text(value: Option<&str>) -> (r: Option<String>)
    ensures
        r matches Some(t) ==> value matches Some(v) && t@ == trim(v@) && t@.len() > 0,
        r is None ==> (value is None || trim(value->0@).len() == 0),
{
    match value {
        None => None,
        Some(v) => {
            let c = chars_of(v);
            let (a, b) = trim_bounds(&c, 0, c.len());
            proof {
                assert(c@.subrange(0, c@.len() as int) =~= c@);
            }
            if a == b {
                None
            } else {
                let mut t = Vec::new();
                push_range(&mut t, &c, a, b);
                Some(string_of(&t))
            }
        },
    }
}

/// A round limit of 0 counts as not given.
pub fn meaningful_rounds(value: Option<i64>) -> (r: Option<i64>)
    ensures
        r == match value {
            Some(n) => if n != 0 {
                Some(n)
            } else {
                None
            },
            None => None,
        },
{
    match value {
        Some(n) => if n != 0 {
            Some(n)
        } else {
            None
        },
        None => None,
    }
}

// ------------------------------ activation ------------------------------

/// In-memory goal activation: the armed sessions and the pending closing
/// instructions per session.
pub struct GoalActivation {
    armed: Vec<String>,
    wrapups: Vec<(String, String)>,
}

pub open spec fn seq_keys(s: Seq<String>) -> Set<Seq<char>> {
    Set::new(|k: Seq<char>| exists|i: int| 0 <= i < s.len() && #[trigger] s[i]@ == k)
}

pub open spec fn wrapup_map(s: Seq<(String, String)>) -> Map<Seq<char>, Seq<char>>
    decreases s.len(),
{
    if s.len() == 0 {
        Map::empty()
    } else {
        wrapup_map(s.drop_last()).insert(s.last().0@, s.last().1@)
    }
}

impl GoalActivation {
    pub closed spec fn armed_set(&self) -> Set<Seq<char>> {
        seq_keys(self.armed@)
    }

    pub closed spec fn wrapups(&self) -> Map<Seq<char>, Seq<char>> {
        wrapup_map(self.wrapups@)
    }

    pub fn new() -> (r: Self)
        ensures
            r.armed_set() == Set::<Seq<char>>::empty(),
            r.wrapups() == Map::<Seq<char>, Seq<char>>::empty(),
            r.wf(),
    {
        let r = GoalActivation { armed: Vec::new(), wrapups: Vec::new() };
        assert(r.armed_set() =~= Set::<Seq<char>>::empty());
        r
    }

    fn armed_index(&self, session_id: &str) -> (r: Option<usize>)
        ensures
            r matches Some(i) ==> i < self.armed@.len() && self.armed@[i as int]@ == session_id@,
            r is None ==> forall|i: int| 0 <= i < self.armed@.len() ==> self.armed@[i]@ != session_id@,
    {
        let mut i: usize = 0;
        while i < self.armed.len()
            invariant
                i <= self.armed@.len(),
                forall|j: int| 0 <= j < i ==> self.armed@[j]@ != session_id@,
            decreases self.armed.len() - i,
        {
            if str_eq(self.armed[i].as_str(), session_id) {
                return Some(i);
            }
            i = i + 1;
        }
        None
    }

    proof fn lemma_wrapup_absent(s: Seq<(String, String)>, k: Seq<char>)
        requires
            forall|i: int| 0 <= i < s.len() ==> s[i].0@ != k,
        ensures
            !wrapup_map(s).contains_key(k),
        decreases s.len(),
    {
        if s.len() > 0 {
            Self::lemma_wrapup_absent(s.drop_last(), k);
        }
    }

    proof fn lemma_wrapup_remove(s: Seq<(String, String)>, i: int, k: Seq<char>)
        requires
            0 <= i < s.len(),
            s[i].0@ == k,
            forall|j: int| 0 <= j < s.len() && j != i ==> s[j].0@ != k,
        ensures
            wrapup_map(s).contains_key(k),
            wrapup_map(s)[k] == s[i].1@,
            wrapup_map(s.remove(i)) == wrapup_map(s).remove(k),
        decreases s.len(),
    {
        if i == s.len() - 1 {
            assert(s.remove(i) =~= s.drop_last());
            Self::lemma_wrapup_absent(s.drop_last(), k);
            assert(wrapup_map(s.drop_last()) =~= wrapup_map(s).remove(k));
        } else {
            Self::lemma_wrapup_remove(s.drop_last(), i, k);
            assert(s.remove(i).drop_last() =~= s.drop_last().remove(i));
            assert(s.remove(i).last() == s.last());
            assert(wrapup_map(s.remove(i)) =~= wrapup_map(s).remove(k));
        }
    }

    /// Keys of the pending closing instructions occur at most once.
    pub closed spec fn wf(&self) -> bool {
        forall|i: int, j: int|
            0 <= i < j < self.wrapups@.len() ==> self.wrapups@[i].0@ != self.wrapups@[j].0@
    }

    /// Records the closing instruction for `session_id`, replacing an earlier one.
    pub fn put_pending_wrapup(&mut self, session_id: &str, text: String)
        requires
            old(self).wf(),
        ensures
            final(self).wf(),
            final(self).wrapups() == old(self).wrapups().insert(session_id@, text@),
            final(self).armed_set() == old(self).armed_set(),
    {
        let _ = take_pending_wrapup(self, session_id);
        let ghost w = self.wrapups@;
        let key = string_of(&chars_of(session_id));
        proof {
            assert forall|i: int| 0 <= i < w.len() implies w[i].0@ != session_id@ by {
                if w[i].0@ == session_id@ {
                    assert(wrapup_map(w).contains_key(session_id@)) by {
                        assert forall|j: int| 0 <= j < w.len() && j != i implies w[j].0@ != session_id@ by {}
                        Self::lemma_wrapup_remove(w, i, session_id@);
                    }
                }
            }
        }
        self.wrapups.push((key, text));
        proof {
            assert(self.wrapups@.drop_last() =~= w);
            assert forall|i: int, j: int|
                0 <= i < j < self.wrapups@.len() implies self.wrapups@[i].0@ != self.wrapups@[j].0@ by {
                if j == w.len() {
                    assert(self.wrapups@[i] == w[i]);
                }
            }
        }
    }
}

/// Whether automatic continuation is armed for `session_id`.
pub fn is_armed(activation: &GoalActivation, session_id: &str) -> (r: bool)
    ensures
        r == activation.armed_set().contains(session_id@),
{
    let r = activation.armed_index(session_id);
    proof {
        if r is Some {
            assert(activation.armed@[r->0 as int]@ == session_id@);
        }
    }
    r.is_some()
}

/// Arms or disarms automatic continuation for `session_id`.
pub fn set_armed(activation: &mut GoalActivation, session_id: &str, armed: bool)
    ensures
        armed ==> final(activation).armed_set() == old(activation).armed_set().insert(session_id@),
        !armed ==> final(activation).armed_set() == old(activation).armed_set().remove(session_id@),
        final(activation).wrapups() == old(activation).wrapups(),
        final(activation).wf() == old(activation).wf(),
{
    let ghost old_armed = activation.armed@;
    let found = activation.armed_index(session_id);
    if armed {
        if found.is_none() {
            activation.armed.push(string_of(&chars_of(session_id)));
            assert forall|k: Seq<char>| #[trigger] seq_keys(activation.armed@).contains(k) == seq_keys(old_armed).insert(session_id@).contains(k) by {
                if seq_keys(old_armed).contains(k) {
                    let i = choose|i: int| 0 <= i < old_armed.len() && #[trigger] old_armed[i]@ == k;
                    assert(activation.armed@[i] == old_armed[i]);
                }
                if k == session_id@ {
                    assert(activation.armed@[old_armed.len() as int]@ == k);
                }
            }
            assert(seq_keys(activation.armed@) =~= seq_keys(old_armed).insert(session_id@));
        } else {
            let i = found.unwrap();
            assert(seq_keys(old_armed).contains(session_id@)) by {
                assert(old_armed[i as int]@ == session_id@);
            }
            assert(seq_keys(old_armed) =~= seq_keys(old_armed).insert(session_id@));
        }
    } else {
        let mut kept: Vec<String> = Vec::new();
        let mut i: usize = 0;
        while i < activation.armed.len()
            invariant
                old_armed == activation.armed@,
                i <= old_armed.len(),
                forall|k: Seq<char>| #[trigger] seq_keys(kept@).contains(k) <==> (k != session_id@
                    && exists|j: int| 0 <= j < i && #[trigger] old_armed[j]@ == k),
            decreases activation.armed.len() - i,
        {
            let ghost before = kept@;
            if !str_eq(activation.armed[i].as_str(), session_id) {
                kept.push(activation.armed[i].clone());
                assert forall|k: Seq<char>| #[trigger] seq_keys(kept@).contains(k) <==> (k
                    != session_id@ && exists|j: int| 0 <= j < i + 1 && #[trigger] old_armed[j]@
                    == k) by {
                    if seq_keys(kept@).contains(k) {
                        let m = choose|m: int| 0 <= m < kept@.len() && #[trigger] kept@[m]@ == k;
                        if m < before.len() {
                            assert(before[m]@ == k);
                            assert(seq_keys(before).contains(k));
                        }
                    }
                    if k != session_id@ && exists|j: int| 0 <= j < i + 1 && #[trigger] old_armed[j]@ == k {
                        let j = choose|j: int| 0 <= j < i + 1 && #[trigger] old_armed[j]@ == k;
                        if j < i {
                            assert(seq_keys(before).contains(k));
                            let m = choose|m: int| 0 <= m < before.len() && #[trigger] before[m]@ == k;
                            assert(kept@[m] == before[m]);
                        } else {
                            assert(kept@[before.len() as int]@ == k);
                        }
                    }
                }
            } else {
                assert forall|k: Seq<char>| #[trigger] seq_keys(kept@).contains(k) <==> (k
                    != session_id@ && exists|j: int| 0 <= j < i + 1 && #[trigger] old_armed[j]@
                    == k) by {
                    if k != session_id@ && exists|j: int| 0 <= j < i + 1 && #[trigger] old_armed[j]@ == k {
                        let j = choose|j: int| 0 <= j < i + 1 && #[trigger] old_armed[j]@ == k;
                        assert(j < i);
                    }
                }
            }
            i = i + 1;
        }
        activation.armed = kept;
        assert(seq_keys(activation.armed@) =~= seq_keys(old_armed).remove(session_id@));
    }
}

/// Takes (and removes) the pending closing instruction for `session_id`.
pub fn take_pending_wrapup(activation: &mut GoalActivation, session_id: &str) -> (r: Option<String>)
    requires
        old(activation).wf(),
    ensures
        final(activation).wf(),
        r matches Some(t) ==> old(activation).wrapups().contains_key(session_id@) && t@
            == old(activation).wrapups()[session_id@],
        r is None ==> !old(activation).wrapups().contains_key(session_id@),
        final(activation).wrapups() == old(activation).wrapups().remove(session_id@),
        final(activation).armed_set() == old(activation).armed_set(),
{
    let ghost w = activation.wrapups@;
    let ghost a0 = activation.armed@;
    let mut i: usize = 0;
    while i < activation.wrapups.len()
        invariant
            w == activation.wrapups@,
            w == old(activation).wrapups@,
            a0 == old(activation).armed@,
            a0 == activation.armed@,
            activation.wf(),
            i <= w.len(),
            forall|j: int| 0 <= j < i ==> w[j].0@ != session_id@,
        decreases activation.wrapups.len() - i,
    {
        if str_eq(activation.wrapups[i].0.as_str(), session_id) {
            proof {
                assert forall|j: int| 0 <= j < w.len() && j != i implies w[j].0@ != session_id@ by {
                    if j > i {
                        assert(w[i as int].0@ != w[j].0@);
                    }
                }
                GoalActivation::lemma_wrapup_remove(w, i as int, session_id@);
            }
            let removed = activation.wrapups.remove(i);
            assert(removed == w[i as int]);
            assert(activation.wrapups@ == w.remove(i as int));
            assert(wrapup_map(activation.wrapups@) == wrapup_map(w).remove(session_id@));
            let text = removed.1;
            proof {
                assert forall|a: int, b: int|
                    0 <= a < b < activation.wrapups@.len() implies activation.wrapups@[a].0@
                    != activation.wrapups@[b].0@ by {
                    let aa = if a < i { a } else { a + 1 };
                    let bb = if b < i { b } else { b + 1 };
                    assert(activation.wrapups@[a] == w[aa]);
                    assert(activation.wrapups@[b] == w[bb]);
                }
            }
            return Some(text);
        }
        i = i + 1;
    }
    proof {
        GoalActivation::lemma_wrapup_absent(w, session_id@);
        assert(wrapup_map(w) =~= wrapup_map(w).remove(session_id@));
    }
    None
}

/// Arming and then reading a session's activation sees the arming; the same
/// holds for disarming. Other sessions are unaffected.
pub proof fn armed_reads_back(before: Set<Seq<char>>, session: Seq<char>, other: Seq<char>, armed: bool)
    requires
        other != session,
    ensures
        (if armed {
            before.insert(session)
        } else {
            before.remove(session)
        }).contains(session) == armed,
        (if armed {
            before.insert(session)
        } else {
            before.remove(session)
        }).contains(other) == before.contains(other),
{
}

// ------------------------------ the /goal command ------------------------------

pub const GOAL_USAGE: &'static str = "用法: /goal [<objective>|clear|edit <objective>|pause|resume]";

pub open spec fn activation_line(armed: bool) -> Seq<char> {
    if armed {
        "自动续跑：已武装"@
    } else {
        "自动续跑：未武装（/goal resume 重新授权）"@
    }
}

pub open spec fn blocker_line(code: Option<String>, message: Option<String>) -> Seq<char> {
    match (code, message) {
        (Some(c), Some(m)) => "\n受阻（"@ + c@ + "）："@ + m@,
        (Some(c), None) => "\n受阻（"@ + c@ + "）"@,
        _ => seq![],
    }
}

/// The human-readable summary of a goal printed by `/goal`.
pub open spec fn render_goal_human_spec(title: Seq<char>, goal: GoalRecord, armed: bool) -> Seq<char> {
    title + "\n目标："@ + goal.objective@ + "\n阶段："@ + phase_str(goal.phase) + " · 轮次 "@
        + signed_decimal(goal.rounds_started as int) + "/"@ + signed_decimal(goal.max_rounds as int)
        + "\n"@ + activation_line(armed) + blocker_line(goal.blocked_code, goal.blocked_message)
}

pub fn render_goal_human(title: &str, goal: &GoalRecord, armed: bool) -> (r: String)
    ensures
        r@ == render_goal_human_spec(title@, *goal, armed),
{
    let mut v = chars_of(title);
    push_str(&mut v, "\n目标：");
    push_str(&mut v, goal.objective.as_str());
    push_str(&mut v, "\n阶段：");
    push_str(&mut v, goal.phase.as_str());
    push_str(&mut v, " · 轮次 ");
    let rounds = i64_decimal(goal.rounds_started);
    push_all(&mut v, &rounds);
    push_str(&mut v, "/");
    let max = i64_decimal(goal.max_rounds);
    push_all(&mut v, &max);
    push_str(&mut v, "\n");
    if armed {
        push_str(&mut v, "自动续跑：已武装");
    } else {
        push_str(&mut v, "自动续跑：未武装（/goal resume 重新授权）");
    }
    match (&goal.blocked_code, &goal.blocked_message) {
        (Some(code), Some(message)) => {
            push_str(&mut v, "\n受阻（");
            push_str(&mut v, code.as_str());
            push_str(&mut v, "）：");
            push_str(&mut v, message.as_str());
        },
        (Some(code), None) => {
            push_str(&mut v, "\n受阻（");
            push_str(&mut v, code.as_str());
            push_str(&mut v, "）");
        },
        _ => {},
    }
    string_of(&v)
}

/// A store operation the `/goal` command asks for.
pub enum GoalOp {
    Clear { goal_id: String, revision: i64 },
    Pause { goal_id: String, revision: i64 },
    Resume { goal_id: String, revision: i64 },
    Edit { goal_id: String, revision: i64, objective: String },
    Create { objective: String },
}

pub enum GoalOpSpec {
    Clear { goal_id: Seq<char>, revision: i64 },
    Pause { goal_id: Seq<char>, revision: i64 },
    Resume { goal_id: Seq<char>, revision: i64 },
    Edit { goal_id: Seq<char>, revision: i64, objective: Seq<char> },
    Create { objective: Seq<char> },
}

pub open spec fn op_view(op: GoalOp) -> GoalOpSpec {
    match op {
        GoalOp::Clear { goal_id, revision } => GoalOpSpec::Clear { goal_id: goal_id@, revision },
        GoalOp::Pause { goal_id, revision } => GoalOpSpec::Pause { goal_id: goal_id@, revision },
        GoalOp::Resume { goal_id, revision } => GoalOpSpec::Resume { goal_id: goal_id@, revision },
        GoalOp::Edit { goal_id, revision, objective } => GoalOpSpec::Edit {
            goal_id: goal_id@,
            revision,
            objective: objective@,
        },
        GoalOp::Create { objective } => GoalOpSpec::Create { objective: objective@ },
    }
}

/// What the command prints once the store operation succeeded.
pub enum GoalSuccess {
    Cleared,
    Rendered { title: Seq<char>, arm: Option<bool> },
}

/// What the `/goal` command does: reply at once, or run a store operation.
pub enum GoalPlan {
    Reply(Seq<char>),
    ShowCurrent,
    Apply(GoalOpSpec, GoalSuccess),
}

/// The verb and its argument: the first whitespace-separated word of the
/// trimmed command, and the trimmed rest.
pub open spec fn goal_words(raw: Seq<char>) -> (Seq<char>, Seq<char>) {
    let t = trim(raw);
    let k = crate::platforms::commands::word_len(t);
    if k < t.len() {
        (t.take(k as int), trim(t.skip(k as int + 1)))
    } else {
        (t, seq![])
    }
}

pub open spec fn no_goal() -> Seq<char> {
    "本会话没有目标"@
}

/// The plan for `/goal <raw>` given the session's current goal.
pub open spec fn goal_plan(raw: Seq<char>, current: Option<GoalRecord>) -> GoalPlan {
    let (verb, rest) = goal_words(raw);
    if verb == Seq::<char>::empty() {
        match current {
            None => GoalPlan::Reply("本会话没有目标。\n"@ + GOAL_USAGE@),
            Some(g) => GoalPlan::ShowCurrent,
        }
    } else if verb == "clear"@ {
        match current {
            None => GoalPlan::Reply(no_goal()),
            Some(g) => GoalPlan::Apply(
                GoalOpSpec::Clear { goal_id: g.goal_id@, revision: g.revision },
                GoalSuccess::Cleared,
            ),
        }
    } else if verb == "pause"@ {
        match current {
            None => GoalPlan::Reply(no_goal()),
            Some(g) => GoalPlan::Apply(
                GoalOpSpec::Pause { goal_id: g.goal_id@, revision: g.revision },
                GoalSuccess::Rendered { title: "已暂停"@, arm: Some(false) },
            ),
        }
    } else if verb == "resume"@ {
        match current {
            None => GoalPlan::Reply(no_goal()),
            Some(g) => GoalPlan::Apply(
                GoalOpSpec::Resume { goal_id: g.goal_id@, revision: g.revision },
                GoalSuccess::Rendered { title: "已恢复"@, arm: Some(true) },
            ),
        }
    } else if verb == "edit"@ {
        if rest.len() == 0 {
            GoalPlan::Reply(GOAL_USAGE@)
        } else {
            match current {
                None => GoalPlan::Reply(no_goal()),
                Some(g) => GoalPlan::Apply(
                    GoalOpSpec::Edit { goal_id: g.goal_id@, revision: g.revision, objective: rest },
                    GoalSuccess::Rendered { title: "已更新"@, arm: None },
                ),
            }
        }
    } else {
        match current {
            Some(g) => if g.phase != GoalPhase::Complete {
                GoalPlan::Reply("本会话已有未完成的目标；先 /goal edit 改它，或 /goal clear 清掉"@)
            } else {
                GoalPlan::Apply(
                    GoalOpSpec::Create { objective: trim(raw) },
                    GoalSuccess::Rendered { title: "目标已设定"@, arm: Some(true) },
                )
            },
            None => GoalPlan::Apply(
                GoalOpSpec::Create { objective: trim(raw) },
                GoalSuccess::Rendered { title: "目标已设定"@, arm: Some(true) },
            ),
        }
    }
}

pub open spec fn armed_after(before: Set<Seq<char>>, session: Seq<char>, arm: Option<bool>) -> Set<Seq<char>> {
    match arm {
        Some(true) => before.insert(session),
        Some(false) => before.remove(session),
        None => before,
    }
}

fn seq_is(v: &Vec<char>, lo: usize, hi: usize, lit: &str) -> (r: bool)
    requires
        lo <= hi <= v@.len(),
    ensures
        r == (v@.subrange(lo as int, hi as int) == lit@),
{
    let mut w = Vec::new();
    push_range(&mut w, v, lo, hi);
    let l = chars_of(lit);
    crate::text::chars_eq(&w, &l)
}

/// `/goal [<objective>|clear|edit <objective>|pause|resume]`.
///
/// `current` is the session's goal as the store holds it; `apply` runs the one
/// store operation the command needs and returns the goal afterwards (for a
/// clear, the cleared goal) or the store's error message. The returned text is
/// printed to the human and never enters the model's history.
pub fn execute_goal_command<F: FnOnce(GoalOp) -> Result<GoalRecord, String>>(
    activation: &mut GoalActivation,
    session_id: &str,
    raw: &str,
    current: Option<GoalRecord>,
    apply: F,
) -> (r: String)
    requires
        match goal_plan(raw@, current) {
            GoalPlan::Apply(planned, _) => forall|op: GoalOp| op_view(op) == planned ==> apply.requires((op,)),
            _ => true,
        },
    ensures
        final(activation).wrapups() == old(activation).wrapups(),
        final(activation).wf() == old(activation).wf(),
        match goal_plan(raw@, current) {
            GoalPlan::Reply(text) => r@ == text && final(activation).armed_set() == old(
                activation,
            ).armed_set(),
            GoalPlan::ShowCurrent => r@ == render_goal_human_spec(
                "当前目标"@,
                current->0,
                old(activation).armed_set().contains(session_id@),
            ) && final(activation).armed_set() == old(activation).armed_set(),
            GoalPlan::Apply(op, success) => exists|o: GoalOp, res: Result<GoalRecord, String>|
                {
                    &&& op_view(o) == op
                    &&& apply.ensures((o,), res)
                    &&& match res {
                        Err(e) => r@ == e@ && final(activation).armed_set() == old(
                            activation,
                        ).armed_set(),
                        Ok(g) => match success {
                            GoalSuccess::Cleared => r@ == "目标已清除"@
                                && final(activation).armed_set() == old(
                                activation,
                            ).armed_set().remove(session_id@),
                            GoalSuccess::Rendered { title, arm } => {
                                &&& final(activation).armed_set() == armed_after(
                                    old(activation).armed_set(),
                                    session_id@,
                                    arm,
                                )
                                &&& r@ == render_goal_human_spec(
                                    title,
                                    g,
                                    armed_after(
                                        old(activation).armed_set(),
                                        session_id@,
                                        arm,
                                    ).contains(session_id@),
                                )
                            },
                        },
                    }
                },
        },
{
    let v = chars_of(raw);
    let (a, b) = trim_bounds(&v, 0, v.len());
    proof {
        assert(v@.subrange(0, v@.len() as int) =~= v@);
    }
    let ghost t = v@.subrange(a as int, b as int);
    let k = crate::text::word_end(&v, a, b);
    proof {
        assert forall|j: int| 0 <= j < k - a implies !is_ws(#[trigger] t[j]) by {
            assert(t[j] == v@[a + j]);
        }
        if k < b {
            assert(t[k - a] == v@[k as int]);
        }
        crate::platforms::commands::lemma_word_len(t, k - a);
    }
    let (ra, rb) = if k < b {
        trim_bounds(&v, k + 1, b)
    } else {
        (b, b)
    };
    proof {
        assert(t.take(k - a) =~= v@.subrange(a as int, k as int));
        if k < b {
            assert(t.skip(k - a + 1) =~= v@.subrange(k + 1, b as int));
        } else {
            assert(t.take(k - a) =~= t);
        }
    }
    let ghost verb = v@.subrange(a as int, k as int);
    let ghost rest = v@.subrange(ra as int, rb as int);
    assert(goal_words(raw@) == (verb, rest));
    if k == a {
        assert(verb =~= Seq::<char>::empty());
        match current {
            None => {
                let mut w = chars_of("本会话没有目标。\n");
                push_str(&mut w, GOAL_USAGE);
                return string_of(&w);
            },
            Some(g) => {
                let armed = is_armed(activation, session_id);
                return render_goal_human("当前目标", &g, armed);
            },
        }
    }
    assert(verb.len() > 0);
    if seq_is(&v, a, k, "clear") {
        match current {
            None => {
                return string_of(&chars_of("本会话没有目标"));
            },
            Some(g) => {
                let op = GoalOp::Clear { goal_id: g.goal_id, revision: g.revision };
                let ghost o = op;
                assert(goal_plan(raw@, current) matches GoalPlan::Apply(p, _) && p == op_view(o));
                let res = apply(op);
                match res {
                    Err(e) => {
                        return e;
                    },
                    Ok(_) => {
                        set_armed(activation, session_id, false);
                        return string_of(&chars_of("目标已清除"));
                    },
                }
            },
        }
    }
    if seq_is(&v, a, k, "pause") {
        match current {
            None => {
                return string_of(&chars_of("本会话没有目标"));
            },
            Some(g) => {
                let op = GoalOp::Pause { goal_id: g.goal_id, revision: g.revision };
                let ghost o = op;
                assert(goal_plan(raw@, current) matches GoalPlan::Apply(p, _) && p == op_view(o));
                let res = apply(op);
                match res {
                    Err(e) => {
                        return e;
                    },
                    Ok(g2) => {
                        set_armed(activation, session_id, false);
                        let armed = is_armed(activation, session_id);
                        return render_goal_human("已暂停", &g2, armed);
                    },
                }
            },
        }
    }
    if seq_is(&v, a, k, "resume") {
        match current {
            None => {
                return string_of(&chars_of("本会话没有目标"));
            },
            Some(g) => {
                let op = GoalOp::Resume { goal_id: g.goal_id, revision: g.revision };
                let ghost o = op;
                assert(goal_plan(raw@, current) matches GoalPlan::Apply(p, _) && p == op_view(o));
                let res = apply(op);
                match res {
                    Err(e) => {
                        return e;
                    },
                    Ok(g2) => {
                        set_armed(activation, session_id, true);
                        let armed = is_armed(activation, session_id);
                        return render_goal_human("已恢复", &g2, armed);
                    },
                }
            },
        }
    }
    if seq_is(&v, a, k, "edit") {
        if ra == rb {
            return string_of(&chars_of(GOAL_USAGE));
        }
        match current {
            None => {
                return string_of(&chars_of("本会话没有目标"));
            },
            Some(g) => {
                let mut obj = Vec::new();
                push_range(&mut obj, &v, ra, rb);
                let op = GoalOp::Edit {
                    goal_id: g.goal_id,
                    revision: g.revision,
                    objective: string_of(&obj),
                };
                let ghost o = op;
                assert(goal_plan(raw@, current) matches GoalPlan::Apply(p, _) && p == op_view(o));
                let res = apply(op);
                match res {
                    Err(e) => {
                        return e;
                    },
                    Ok(g2) => {
                        let armed = is_armed(activation, session_id);
                        return render_goal_human("已更新", &g2, armed);
                    },
                }
            },
        }
    }
    let blocked = match &current {
        Some(g) => g.phase != GoalPhase::Complete,
        None => false,
    };
    if blocked {
        return string_of(&chars_of("本会话已有未完成的目标；先 /goal edit 改它，或 /goal clear 清掉"));
    }
    let mut obj = Vec::new();
    push_range(&mut obj, &v, a, b);
    let op = GoalOp::Create { objective: string_of(&obj) };
    let ghost o = op;
    assert(goal_plan(raw@, current) matches GoalPlan::Apply(p, _) && p == op_view(o));
    let res = apply(op);
    match res {
        Err(e) => e,
        Ok(g2) => {
            set_armed(activation, session_id, true);
            let armed = is_armed(activation, session_id);
            render_goal_human("目标已设定", &g2, armed)
        },
    }
}

} // verus!
