//! The model's side of goals: the `update_goal` tool's checks and what a
//! successful update does to the in-memory activation, the closing
//! instruction after an autonomous run ends, and the prompt that starts an
//! automatic round.
//!
//! An update runs in three steps: `parse_goal_update` checks the arguments,
//! `authorize_goal_update` decides which store operation the turn may run
//! (the current goal is needed only for `complete` and `blocked`), and once
//! the store accepted it `finish_goal_update` arms, disarms and leaves the
//! closing instruction.

use vstd::prelude::*;
use crate::codec::{json_quoted, json_string_literal};
use crate::text::{chars_of, i64_decimal, push_all, push_str, signed_decimal, str_eq, string_of, trim};
use crate::tools::goal::{
    meaningful_rounds, meaningful_text, origin_matches_goal, origin_matches_goal_spec,
    require_human, set_armed, GoalActivation, GoalRecord, TurnOrigin,
    BLOCKED_AFTER_CONSECUTIVE_ROUNDS,
};

verus! {

// ------------------------------ closing instruction ------------------------------

pub const WRAPUP_GROUNDING: &'static str = "Report only what earlier rounds and tool results in this session actually establish; when a detail is not in the session, say so instead of inventing it. ";

pub const WRAPUP_COMPLETE_BODY: &'static str = "The goal is marked complete and this autonomous run is ending. Write the closing message to the user now: state the outcome, summarize what was done and how it was verified, and point to the concrete results (files, commits, or other artifacts). ";

pub const WRAPUP_COMPLETE_TAIL: &'static str = "Note anything the user should review or do next. Address the user directly. Do not call any more tools in this run; further work waits for the user's next instruction.\n</goal_complete>";

pub const WRAPUP_BLOCKED_BODY: &'static str = "\nThe goal is marked blocked and this autonomous run is ending. Write the closing message to the user now: state what has been completed so far, describe the concrete blocking condition and what you tried, and say exactly what you need from the user to continue. ";

pub const WRAPUP_BLOCKED_TAIL: &'static str = "Address the user directly. Do not call any more tools in this run; further work waits for the user's next instruction.\n</goal_blocked>";

/// The instruction that closes an autonomous run which ended the goal:
/// completed (`blocked_reason` absent) or blocked for `blocked_reason`.
pub open spec fn wrapup_spec(objective: Seq<char>, blocked_reason: Option<Seq<char>>) -> Seq<char> {
    let heading = "Objective: "@ + json_quoted(objective) + "\n"@;
    match blocked_reason {
        None => "<goal_complete>\n"@ + heading + WRAPUP_COMPLETE_BODY@ + WRAPUP_GROUNDING@
            + WRAPUP_COMPLETE_TAIL@,
        Some(reason) => "<goal_blocked>\n"@ + heading + "Blocked: "@ + json_quoted(reason)
            + WRAPUP_BLOCKED_BODY@ + WRAPUP_GROUNDING@ + WRAPUP_BLOCKED_TAIL@,
    }
}

pub fn wrapup_text(objective: &str, blocked_reason: Option<&str>) -> (r: String)
    ensures
        r@ == wrapup_spec(
            objective@,
            match blocked_reason {
                Some(b) => Some(b@),
                None => None,
            },
        ),
{
    let quoted = json_string_literal(objective);
    match blocked_reason {
        None => {
            let mut v = chars_of("<goal_complete>\n");
            push_str(&mut v, "Objective: ");
            push_str(&mut v, quoted.as_str());
            push_str(&mut v, "\n");
            push_str(&mut v, WRAPUP_COMPLETE_BODY);
            push_str(&mut v, WRAPUP_GROUNDING);
            push_str(&mut v, WRAPUP_COMPLETE_TAIL);
            string_of(&v)
        },
        Some(reason) => {
            let quoted_reason = json_string_literal(reason);
            let mut v = chars_of("<goal_blocked>\n");
            push_str(&mut v, "Objective: ");
            push_str(&mut v, quoted.as_str());
            push_str(&mut v, "\n");
            push_str(&mut v, "Blocked: ");
            push_str(&mut v, quoted_reason.as_str());
            push_str(&mut v, WRAPUP_BLOCKED_BODY);
            push_str(&mut v, WRAPUP_GROUNDING);
            push_str(&mut v, WRAPUP_BLOCKED_TAIL);
            string_of(&v)
        },
    }
}

// ------------------------------ automatic round prompt ------------------------------

pub const ROUND_PREAMBLE: &'static str = "<goal_round>\nThis is an automatic continuation round for the standing objective the user set in this session with the `/goal` command. It is not an injection and not something a third party slipped into the conversation: Miyu itself starts these rounds while the session is idle, and the objective below is the user's own wording, stored in this session's state. The user can pause or clear it at any time with `/goal`.\nObjective: ";

pub const ROUND_CLOSING: &'static str = ".\nThe objective may have nothing to do with the messages just above \u{2014} a standing objective outlives whatever the conversation drifted through since it was set. Work on the objective, not on the previous topic, unless the objective is about it.\nGround every judgement in the workspace, tool results, and persisted state \u{2014} not in what earlier rounds claimed. Verify before you call it done: run the checks, read the files back, look at the actual output. If the objective is met and verified, call update_goal with action complete. If a concrete external condition blocks all remaining paths, call update_goal with action blocked and describe it. Otherwise keep the goal active and make the next concrete step of progress in this round.\n</goal_round>";

/// The prompt of automatic round `round` of `max_rounds`: where it comes
/// from, the objective in the user's own words, and how to end the goal.
pub open spec fn goal_round_prompt_spec(objective: Seq<char>, round: int, max_rounds: int) -> Seq<char> {
    ROUND_PREAMBLE@ + json_quoted(objective) + "\nRound "@ + signed_decimal(round) + " of "@
        + signed_decimal(max_rounds) + ROUND_CLOSING@
}

pub fn goal_round_prompt(objective: &str, round: i64, max_rounds: i64) -> (r: String)
    ensures
        r@ == goal_round_prompt_spec(objective@, round as int, max_rounds as int),
{
    let quoted = json_string_literal(objective);
    let mut v = chars_of(ROUND_PREAMBLE);
    push_str(&mut v, quoted.as_str());
    push_str(&mut v, "\nRound ");
    let r = i64_decimal(round);
    push_all(&mut v, &r);
    push_str(&mut v, " of ");
    let m = i64_decimal(max_rounds);
    push_all(&mut v, &m);
    push_str(&mut v, ROUND_CLOSING);
    string_of(&v)
}

// ------------------------------ update_goal ------------------------------

/// An `update_goal` action.
#[derive(Clone, Copy, Debug, PartialEq, Eq, Structural)]
pub enum GoalAction {
    Edit,
    Pause,
    Resume,
    Complete,
    Blocked,
}

pub open spec fn action_of(s: Seq<char>) -> Option<GoalAction> {
    if s == "edit"@ {
        Some(GoalAction::Edit)
    } else if s == "pause"@ {
        Some(GoalAction::Pause)
    } else if s == "resume"@ {
        Some(GoalAction::Resume)
    } else if s == "complete"@ {
        Some(GoalAction::Complete)
    } else if s == "blocked"@ {
        Some(GoalAction::Blocked)
    } else {
        None
    }
}

pub open spec fn action_word(a: GoalAction) -> Seq<char> {
    match a {
        GoalAction::Edit => "edit"@,
        GoalAction::Pause => "pause"@,
        GoalAction::Resume => "resume"@,
        GoalAction::Complete => "complete"@,
        GoalAction::Blocked => "blocked"@,
    }
}

impl GoalAction {
    pub fn word(self) -> (r: &'static str)
        ensures
            r@ == action_word(self),
    {
        match self {
            GoalAction::Edit => "edit",
            GoalAction::Pause => "pause",
            GoalAction::Resume => "resume",
            GoalAction::Complete => "complete",
            GoalAction::Blocked => "blocked",
        }
    }
}

/// The arguments of an `update_goal` call, each as the call gave it.
pub struct GoalUpdateArgs {
    pub goal_id: Option<String>,
    pub revision: Option<i64>,
    pub action: Option<String>,
    pub objective: Option<String>,
    pub max_goal_rounds: Option<i64>,
    pub blocked_reason: Option<String>,
}

/// A checked `update_goal` request.
pub struct GoalUpdateRequest {
    pub goal_id: String,
    pub revision: i64,
    pub action: GoalAction,
    pub objective: Option<String>,
    pub max_rounds: Option<i64>,
    pub blocked_reason: Option<String>,
}

pub struct GoalRequestSpec {
    pub goal_id: Seq<char>,
    pub revision: i64,
    pub action: GoalAction,
    pub objective: Option<Seq<char>>,
    pub max_rounds: Option<i64>,
    pub blocked_reason: Option<Seq<char>>,
}

pub open spec fn opt_view(o: Option<String>) -> Option<Seq<char>> {
    match o {
        Some(s) => Some(s@),
        None => None,
    }
}

/// A text argument that is present and not blank after trimming, trimmed.
pub open spec fn meaningful_spec(o: Option<String>) -> Option<Seq<char>> {
    match o {
        Some(s) => if trim(s@).len() > 0 {
            Some(trim(s@))
        } else {
            None
        },
        None => None,
    }
}

/// A round limit of 0 counts as absent.
pub open spec fn meaningful_rounds_spec(o: Option<i64>) -> Option<i64> {
    match o {
        Some(n) => if n != 0 {
            Some(n)
        } else {
            None
        },
        None => None,
    }
}

impl View for GoalUpdateRequest {
    type V = GoalRequestSpec;

    open spec fn view(&self) -> GoalRequestSpec {
        GoalRequestSpec {
            goal_id: self.goal_id@,
            revision: self.revision,
            action: self.action,
            objective: opt_view(self.objective),
            max_rounds: self.max_rounds,
            blocked_reason: opt_view(self.blocked_reason),
        }
    }
}

pub const BAD_GOAL_REFERENCE: &'static str = "goal_id must be non-empty and revision must be a positive integer (call get_goal)";

/// What `parse_goal_update` answers: the checked request, or the refusal.
pub open spec fn goal_request_spec(args: GoalUpdateArgs) -> Result<GoalRequestSpec, Seq<char>> {
    let id = match args.goal_id {
        Some(g) => trim(g@),
        None => seq![],
    };
    let revision = match args.revision {
        Some(n) => n,
        None => 0,
    };
    let action = match args.action {
        Some(a) => a@,
        None => seq![],
    };
    if id.len() == 0 || revision < 1 {
        Err(BAD_GOAL_REFERENCE@)
    } else {
        match action_of(action) {
            None => Err("unknown goal action: "@ + action),
            Some(a) => Ok(
                GoalRequestSpec {
                    goal_id: id,
                    revision,
                    action: a,
                    objective: meaningful_spec(args.objective),
                    max_rounds: meaningful_rounds_spec(args.max_goal_rounds),
                    blocked_reason: meaningful_spec(args.blocked_reason),
                },
            ),
        }
    }
}

fn as_opt_str(o: &Option<String>) -> (r: Option<&str>)
    ensures
        match r {
            Some(s) => o matches Some(t) && s@ == t@,
            None => o is None,
        },
{
    match o {
        Some(s) => Some(s.as_str()),
        None => None,
    }
}

fn trimmed(s: &str) -> (r: String)
    ensures
        r@ == trim(s@),
{
    let c = chars_of(s);
    let (a, b) = crate::text::trim_bounds(&c, 0, c.len());
    proof {
        assert(c@.subrange(0, c@.len() as int) =~= c@);
    }
    let mut t = Vec::new();
    crate::text::push_range(&mut t, &c, a, b);
    string_of(&t)
}

/// Checks the arguments of an `update_goal` call: a goal id that is not
/// blank and a positive revision, then a known action.
pub fn parse_goal_update(args: &GoalUpdateArgs) -> (r: Result<GoalUpdateRequest, String>)
    ensures
        match goal_request_spec(*args) {
            Ok(q) => r matches Ok(req) && req@ == q,
            Err(e) => r matches Err(m) && m@ == e,
        },
{
    let id = match &args.goal_id {
        Some(g) => trimmed(g.as_str()),
        None => String::new(),
    };
    let revision: i64 = match args.revision {
        Some(n) => n,
        None => 0,
    };
    if id.as_str().is_empty() || revision < 1 {
        return Err(string_of(&chars_of(BAD_GOAL_REFERENCE)));
    }
    proof {
        reveal_strlit("");
        reveal_strlit("edit");
        reveal_strlit("pause");
        reveal_strlit("resume");
        reveal_strlit("complete");
        reveal_strlit("blocked");
    }
    let action_text: &str = match &args.action {
        Some(a) => a.as_str(),
        None => "",
    };
    let ghost act = match &args.action {
        Some(a) => a@,
        None => seq![],
    };
    assert(action_text@ == act);
    let objective = meaningful_text(as_opt_str(&args.objective));
    let max_rounds = meaningful_rounds(args.max_goal_rounds);
    let blocked_reason = meaningful_text(as_opt_str(&args.blocked_reason));
    let action = if str_eq(action_text, "edit") {
        GoalAction::Edit
    } else if str_eq(action_text, "pause") {
        GoalAction::Pause
    } else if str_eq(action_text, "resume") {
        GoalAction::Resume
    } else if str_eq(action_text, "complete") {
        GoalAction::Complete
    } else if str_eq(action_text, "blocked") {
        GoalAction::Blocked
    } else {
        let mut v = chars_of("unknown goal action: ");
        push_str(&mut v, action_text);
        return Err(string_of(&v));
    };
    Ok(GoalUpdateRequest { goal_id: id, revision, action, objective, max_rounds, blocked_reason })
}

/// The store operation an authorised update runs.
pub enum GoalChangeKind {
    Edit { objective: Option<String>, max_rounds: Option<i64> },
    Pause,
    Resume,
    Complete { autonomous: bool },
    Block { reason: String, autonomous: bool },
}

pub struct GoalChange {
    pub goal_id: String,
    pub revision: i64,
    pub kind: GoalChangeKind,
}

pub enum GoalChangeKindSpec {
    Edit { objective: Option<Seq<char>>, max_rounds: Option<i64> },
    Pause,
    Resume,
    Complete { autonomous: bool },
    Block { reason: Seq<char>, autonomous: bool },
}

pub struct GoalChangeSpec {
    pub goal_id: Seq<char>,
    pub revision: i64,
    pub kind: GoalChangeKindSpec,
}

impl View for GoalChange {
    type V = GoalChangeSpec;

    open spec fn view(&self) -> GoalChangeSpec {
        GoalChangeSpec {
            goal_id: self.goal_id@,
            revision: self.revision,
            kind: match self.kind {
                GoalChangeKind::Edit { objective, max_rounds } => GoalChangeKindSpec::Edit {
                    objective: opt_view(objective),
                    max_rounds,
                },
                GoalChangeKind::Pause => GoalChangeKindSpec::Pause,
                GoalChangeKind::Resume => GoalChangeKindSpec::Resume,
                GoalChangeKind::Complete { autonomous } => GoalChangeKindSpec::Complete {
                    autonomous,
                },
                GoalChangeKind::Block { reason, autonomous } => GoalChangeKindSpec::Block {
                    reason: reason@,
                    autonomous,
                },
            },
        }
    }
}

/// The code a goal blocked by the model carries.
pub const MODEL_REPORTED: &'static str = "model-reported";

/// Why an update was refused: the session has no goal (the store's own
/// wording for that case), or a message.
pub enum GoalUpdateError {
    NotFound,
    Refused(String),
}

pub enum GoalRefusal {
    NotFound,
    Refused(Seq<char>),
}

pub open spec fn refusal_view(e: GoalUpdateError) -> GoalRefusal {
    match e {
        GoalUpdateError::NotFound => GoalRefusal::NotFound,
        GoalUpdateError::Refused(m) => GoalRefusal::Refused(m@),
    }
}

pub open spec fn human_only(verb: Seq<char>) -> Seq<char> {
    "goal "@ + verb + " requires a direct human turn (this turn was started automatically)"@
}

pub const ONLY_WITH_BLOCKED: &'static str = "blocked_reason is valid only with action blocked";

pub const ONLY_WITH_EDIT_OR_BLOCKED: &'static str = "objective/max_goal_rounds are valid only with edit; blocked_reason only with blocked";

pub const ONLY_WITH_EDIT: &'static str = "objective/max_goal_rounds are valid only with action edit";

pub const REASON_REQUIRED: &'static str = "blocked_reason is required with action blocked";

/// Which store operation the update `req` may run in a turn started by
/// `origin`, given the session's current goal. `edit`, `pause` and
/// `resume` need a human turn; `complete` and `blocked` are also allowed in
/// exactly the current automatic round of the current goal, and only a human
/// may declare a goal blocked before it has run the minimum number of rounds.
pub open spec fn goal_change_spec(req: GoalRequestSpec, origin: TurnOrigin, current: Option<GoalRecord>) -> Result<GoalChangeSpec, GoalRefusal> {
    let change = |kind: GoalChangeKindSpec|
        GoalChangeSpec { goal_id: req.goal_id, revision: req.revision, kind };
    match req.action {
        GoalAction::Edit => if !(origin is Human) {
            Err(GoalRefusal::Refused(human_only("edit"@)))
        } else if req.blocked_reason is Some {
            Err(GoalRefusal::Refused(ONLY_WITH_BLOCKED@))
        } else {
            Ok(change(GoalChangeKindSpec::Edit { objective: req.objective, max_rounds: req.max_rounds }))
        },
        GoalAction::Pause | GoalAction::Resume => if !(origin is Human) {
            Err(GoalRefusal::Refused(human_only(action_word(req.action))))
        } else if req.objective is Some || req.max_rounds is Some || req.blocked_reason is Some {
            Err(GoalRefusal::Refused(ONLY_WITH_EDIT_OR_BLOCKED@))
        } else if req.action == GoalAction::Pause {
            Ok(change(GoalChangeKindSpec::Pause))
        } else {
            Ok(change(GoalChangeKindSpec::Resume))
        },
        GoalAction::Complete | GoalAction::Blocked => match current {
            None => Err(GoalRefusal::NotFound),
            Some(g) => {
                let autonomous = origin_matches_goal_spec(origin, g);
                if !autonomous && !(origin is Human) {
                    Err(GoalRefusal::Refused(human_only(action_word(req.action))))
                } else if req.objective is Some || req.max_rounds is Some {
                    Err(GoalRefusal::Refused(ONLY_WITH_EDIT@))
                } else if req.action == GoalAction::Complete {
                    if req.blocked_reason is Some {
                        Err(GoalRefusal::Refused(ONLY_WITH_BLOCKED@))
                    } else {
                        Ok(change(GoalChangeKindSpec::Complete { autonomous }))
                    }
                } else {
                    match req.blocked_reason {
                        None => Err(GoalRefusal::Refused(REASON_REQUIRED@)),
                        Some(reason) => if autonomous && g.rounds_started
                            < BLOCKED_AFTER_CONSECUTIVE_ROUNDS {
                            Err(
                                GoalRefusal::Refused(
                                    "blocked requires at least "@ + signed_decimal(
                                        BLOCKED_AFTER_CONSECUTIVE_ROUNDS as int,
                                    ) + " consecutive goal rounds; current round is "@
                                        + signed_decimal(g.rounds_started as int),
                                ),
                            )
                        } else {
                            Ok(change(GoalChangeKindSpec::Block { reason, autonomous }))
                        },
                    }
                }
            },
        },
    }
}

/// The `create_goal` tool's check: only a turn a human started may create a
/// goal; the round limit it asks for counts only when not 0. After the store
/// created the goal the session is armed (`set_armed`).
pub fn authorize_create_goal(origin: &TurnOrigin, max_goal_rounds: Option<i64>) -> (r: Result<Option<i64>, String>)
    ensures
        r is Ok <==> origin is Human,
        r matches Ok(m) ==> m == meaningful_rounds_spec(max_goal_rounds),
        r matches Err(e) ==> e@ == human_only("create"@),
{
    match require_human(origin, "create") {
        Err(e) => Err(e),
        Ok(()) => Ok(meaningful_rounds(max_goal_rounds)),
    }
}

/// An accepted update does what its action names, to the goal and revision
/// it names: edit edits, pause pauses, resume resumes, complete completes
/// and blocked blocks. In a human turn, pause and resume without stray
/// fields are always accepted.
pub proof fn updates_do_what_their_action_names(req: GoalRequestSpec, origin: TurnOrigin, current: Option<GoalRecord>)
    ensures
        goal_change_spec(req, origin, current) matches Ok(c) ==> {
            &&& c.goal_id == req.goal_id
            &&& c.revision == req.revision
            &&& (req.action == GoalAction::Edit <==> c.kind is Edit)
            &&& (req.action == GoalAction::Pause <==> c.kind is Pause)
            &&& (req.action == GoalAction::Resume <==> c.kind is Resume)
            &&& (req.action == GoalAction::Complete <==> c.kind is Complete)
            &&& (req.action == GoalAction::Blocked <==> c.kind is Block)
        },
        (origin is Human && (req.action == GoalAction::Pause || req.action == GoalAction::Resume)
            && req.objective is None && req.max_rounds is None && req.blocked_reason is None)
            ==> goal_change_spec(req, origin, current) is Ok,
{
}

/// The current goal matters only to `complete` and `blocked`.
pub open spec fn needs_current_spec(a: GoalAction) -> bool {
    a == GoalAction::Complete || a == GoalAction::Blocked
}

pub fn needs_current_goal(req: &GoalUpdateRequest) -> (r: bool)
    ensures
        r == needs_current_spec(req.action),
{
    match req.action {
        GoalAction::Complete | GoalAction::Blocked => true,
        _ => false,
    }
}

fn refused(text: &str) -> (r: GoalUpdateError)
    ensures
        refusal_view(r) == GoalRefusal::Refused(text@),
{
    GoalUpdateError::Refused(string_of(&chars_of(text)))
}

fn refused_human(origin: &TurnOrigin, verb: &str) -> (r: GoalUpdateError)
    requires
        !(origin is Human),
    ensures
        refusal_view(r) == GoalRefusal::Refused(human_only(verb@)),
{
    match require_human(origin, verb) {
        Err(e) => GoalUpdateError::Refused(e),
        Ok(()) => GoalUpdateError::Refused(String::new()),
    }
}

/// Decides which store operation the update may run (see
/// `goal_change_spec`); `current` is the session's goal, read from the store
/// where `needs_current_goal` says so.
pub fn authorize_goal_update(
    req: GoalUpdateRequest,
    origin: &TurnOrigin,
    current: Option<&GoalRecord>,
) -> (r: Result<GoalChange, GoalUpdateError>)
    ensures
        match goal_change_spec(
            req@,
            *origin,
            match current {
                Some(g) => Some(*g),
                None => None,
            },
        ) {
            Ok(c) => r matches Ok(ch) && ch@ == c,
            Err(e) => r matches Err(x) && refusal_view(x) == e,
        },
{
    let is_human = match origin {
        TurnOrigin::Human => true,
        _ => false,
    };
    let goal_id = req.goal_id;
    let revision = req.revision;
    match req.action {
        GoalAction::Edit => {
            if !is_human {
                return Err(refused_human(origin, "edit"));
            }
            if req.blocked_reason.is_some() {
                return Err(refused(ONLY_WITH_BLOCKED));
            }
            Ok(
                GoalChange {
                    goal_id,
                    revision,
                    kind: GoalChangeKind::Edit {
                        objective: req.objective,
                        max_rounds: req.max_rounds,
                    },
                },
            )
        },
        GoalAction::Pause | GoalAction::Resume => {
            if !is_human {
                return Err(refused_human(origin, req.action.word()));
            }
            if req.objective.is_some() || req.max_rounds.is_some() || req.blocked_reason.is_some() {
                return Err(refused(ONLY_WITH_EDIT_OR_BLOCKED));
            }
            let kind = match req.action {
                GoalAction::Pause => GoalChangeKind::Pause,
                _ => GoalChangeKind::Resume,
            };
            Ok(GoalChange { goal_id, revision, kind })
        },
        GoalAction::Complete | GoalAction::Blocked => {
            let g = match current {
                None => {
                    return Err(GoalUpdateError::NotFound);
                },
                Some(g) => g,
            };
            let autonomous = origin_matches_goal(origin, g);
            if !autonomous && !is_human {
                return Err(refused_human(origin, req.action.word()));
            }
            if req.objective.is_some() || req.max_rounds.is_some() {
                return Err(refused(ONLY_WITH_EDIT));
            }
            match req.action {
                GoalAction::Complete => {
                    if req.blocked_reason.is_some() {
                        return Err(refused(ONLY_WITH_BLOCKED));
                    }
                    Ok(GoalChange { goal_id, revision, kind: GoalChangeKind::Complete { autonomous } })
                },
                _ => {
                    match req.blocked_reason {
                        None => Err(refused(REASON_REQUIRED)),
                        Some(reason) => {
                            if autonomous && g.rounds_started < BLOCKED_AFTER_CONSECUTIVE_ROUNDS {
                                let mut v = chars_of("blocked requires at least ");
                                let k = i64_decimal(BLOCKED_AFTER_CONSECUTIVE_ROUNDS);
                                push_all(&mut v, &k);
                                push_str(&mut v, " consecutive goal rounds; current round is ");
                                let n = i64_decimal(g.rounds_started);
                                push_all(&mut v, &n);
                                return Err(GoalUpdateError::Refused(string_of(&v)));
                            }
                            Ok(
                                GoalChange {
                                    goal_id,
                                    revision,
                                    kind: GoalChangeKind::Block { reason, autonomous },
                                },
                            )
                        },
                    }
                },
            }
        },
    }
}

/// After the store accepted `change` and returned `goal`: pausing disarms,
/// resuming arms, completing or blocking disarms, and when the model ended
/// the goal in its own automatic round the closing instruction for the
/// session is left behind. An edit changes nothing here.
pub fn finish_goal_update(
    activation: &mut GoalActivation,
    session_id: &str,
    change: &GoalChange,
    goal: &GoalRecord,
)
    requires
        old(activation).wf(),
    ensures
        final(activation).wf(),
        match change@.kind {
            GoalChangeKindSpec::Edit { .. } => final(activation).armed_set() == old(
                activation,
            ).armed_set() && final(activation).wrapups() == old(activation).wrapups(),
            GoalChangeKindSpec::Resume => final(activation).armed_set() == old(
                activation,
            ).armed_set().insert(session_id@) && final(activation).wrapups() == old(
                activation,
            ).wrapups(),
            GoalChangeKindSpec::Pause => final(activation).armed_set() == old(
                activation,
            ).armed_set().remove(session_id@) && final(activation).wrapups() == old(
                activation,
            ).wrapups(),
            GoalChangeKindSpec::Complete { autonomous } => final(activation).armed_set() == old(
                activation,
            ).armed_set().remove(session_id@) && final(activation).wrapups() == (if autonomous {
                old(activation).wrapups().insert(session_id@, wrapup_spec(goal.objective@, None))
            } else {
                old(activation).wrapups()
            }),
            GoalChangeKindSpec::Block { reason, autonomous } => final(activation).armed_set()
                == old(activation).armed_set().remove(session_id@) && final(activation).wrapups()
                == (if autonomous {
                old(activation).wrapups().insert(
                    session_id@,
                    wrapup_spec(goal.objective@, Some(reason)),
                )
            } else {
                old(activation).wrapups()
            }),
        },
{
    match &change.kind {
        GoalChangeKind::Edit { .. } => {},
        GoalChangeKind::Pause => set_armed(activation, session_id, false),
        GoalChangeKind::Resume => set_armed(activation, session_id, true),
        GoalChangeKind::Complete { autonomous } => {
            set_armed(activation, session_id, false);
            if *autonomous {
                let text = wrapup_text(goal.objective.as_str(), None);
                activation.put_pending_wrapup(session_id, text);
            }
        },
        GoalChangeKind::Block { reason, autonomous } => {
            set_armed(activation, session_id, false);
            if *autonomous {
                let text = wrapup_text(goal.objective.as_str(), Some(reason.as_str()));
                activation.put_pending_wrapup(session_id, text);
            }
        },
    }
}

/// Only a human turn may edit, pause or resume a goal; an automatic turn may
/// complete or block a goal only when it is exactly that goal's current
/// round, and may block it only once the minimum number of consecutive
/// rounds has run.
pub proof fn automatic_turns_are_confined_to_their_round(req: GoalRequestSpec, origin: TurnOrigin, g: GoalRecord)
    requires
        !(origin is Human),
    ensures
        (req.action == GoalAction::Edit || req.action == GoalAction::Pause || req.action
            == GoalAction::Resume) ==> goal_change_spec(req, origin, Some(g)) is Err,
        !origin_matches_goal_spec(origin, g) ==> goal_change_spec(req, origin, Some(g)) is Err,
        req.action == GoalAction::Blocked && g.rounds_started < BLOCKED_AFTER_CONSECUTIVE_ROUNDS
            ==> goal_change_spec(req, origin, Some(g)) is Err,
{
}

} // verus!
