//! Versioned schema migrations of `conversation.db`: which migrations a
//! database at a recorded version still needs, when a database is refused,
//! and the checks around each migration.
//!
//! The SQL itself runs in the host against SQLite.

use vstd::prelude::*;
use crate::text::{chars_of, i64_decimal, push_all, push_str, signed_decimal, str_eq, string_of};

verus! {

/// Latest schema version this build produces.
pub const LATEST_VERSION: i64 = 24;

/// The migrations, in order: version and name.
pub fn migrations() -> (r: Vec<(i64, &'static str)>)
    ensures
        r@.len() == 24,
        forall|i: int| 0 <= i < 24 ==> #[trigger] r@[i].0 == i + 1,
{
    let names: [&'static str; 24] = [
        "baseline",
        "sessions",
        "platform_sessions_and_plugin_state",
        "platform_meme_refs",
        "user_attachments",
        "turn_redo_checkpoints",
        "turn_redo_backups",
        "artifact_assets",
        "platform_access_control",
        "turn_generation_journal",
        "session_model_override",
        "turn_context_messages",
        "compact_hidden_turns",
        "tool_reports_archive",
        "session_last_request_at",
        "turn_tool_footprint",
        "turn_replay_journal",
        "turn_cache_tokens",
        "session_cache_tokens",
        "turn_tool_flow",
        "rename_default_session",
        "session_goals",
        "retire_session_archiving",
        "retire_session_goals",
    ];
    let mut out: Vec<(i64, &'static str)> = Vec::new();
    let mut i: usize = 0;
    while i < 24
        invariant
            i <= 24,
            out@.len() == i,
            forall|k: int| 0 <= k < i ==> #[trigger] out@[k].0 == k + 1,
        decreases 24 - i,
    {
        out.push(((i + 1) as i64, names[i]));
        i = i + 1;
    }
    out
}

/// Why a database is not opened.
#[derive(PartialEq, Eq, Structural, Debug, Clone, Copy)]
pub enum SchemaError {
    /// Its recorded version is newer than the last migration known.
    Newer { current: i64, latest: i64 },
}

/// The migrations a database at `current` still needs: those of a higher
/// version, in order; refused when `current` is newer than the last one.
pub open spec fn pending_spec(current: i64, versions: Seq<i64>) -> Result<Seq<int>, SchemaError> {
    let latest = if versions.len() == 0 {
        0i64
    } else {
        versions.last()
    };
    if current > latest {
        Err(SchemaError::Newer { current, latest })
    } else {
        Ok(pending_indices(current, versions, versions.len() as int))
    }
}

pub open spec fn pending_indices(current: i64, versions: Seq<i64>, n: int) -> Seq<int>
    decreases n,
{
    if n <= 0 {
        Seq::empty()
    } else if versions[n - 1] > current {
        pending_indices(current, versions, n - 1).push(n - 1)
    } else {
        pending_indices(current, versions, n - 1)
    }
}

/// The positions of the migrations to apply to a database at `current`.
pub fn pending_migrations(current: i64, versions: &Vec<i64>) -> (r: Result<Vec<usize>, SchemaError>)
    ensures
        match pending_spec(current, versions@) {
            Err(e) => r == Err::<Vec<usize>, SchemaError>(e),
            Ok(p) => r matches Ok(v) && v@.map_values(|i: usize| i as int) == p,
        },
{
    let n = versions.len();
    let latest = if n == 0 {
        0
    } else {
        versions[n - 1]
    };
    if current > latest {
        return Err(SchemaError::Newer { current, latest });
    }
    let mut out: Vec<usize> = Vec::new();
    let mut i: usize = 0;
    assert(out@.map_values(|i: usize| i as int) =~= Seq::<int>::empty());
    while i < n
        invariant
            n == versions@.len(),
            i <= n,
            out@.map_values(|i: usize| i as int) == pending_indices(current, versions@, i as int),
        decreases n - i,
    {
        if versions[i] > current {
            let ghost before = out@.map_values(|i: usize| i as int);
            out.push(i);
            assert(out@.map_values(|i: usize| i as int) =~= before.push(i as int));
        }
        i = i + 1;
    }
    Ok(out)
}

/// The refusal of a database newer than this build.
pub fn newer_schema_message(current: i64, latest: i64) -> (r: String)
    ensures
        r@ == "conversation.db schema version "@ + signed_decimal(current as int)
            + " is newer than this build supports ("@ + signed_decimal(latest as int)
            + "); refusing to open"@,
{
    let mut v: Vec<char> = Vec::new();
    push_str(&mut v, "conversation.db schema version ");
    push_all(&mut v, &i64_decimal(current));
    push_str(&mut v, " is newer than this build supports (");
    push_all(&mut v, &i64_decimal(latest));
    push_str(&mut v, "); refusing to open");
    string_of(&v)
}

/// A migration is kept only when it leaves no foreign-key violations;
/// otherwise its rollback message.
pub fn check_foreign_keys(name: &str, violations: i64) -> (r: Result<(), String>)
    ensures
        violations <= 0 ==> r is Ok,
        violations > 0 ==> (r matches Err(m) && m@ == "schema migration '"@ + name@ + "' left "@
            + signed_decimal(violations as int) + " foreign-key violations; rolling back"@),
{
    if violations <= 0 {
        return Ok(());
    }
    let mut v: Vec<char> = Vec::new();
    push_str(&mut v, "schema migration '");
    push_str(&mut v, name);
    push_str(&mut v, "' left ");
    push_all(&mut v, &i64_decimal(violations));
    push_str(&mut v, " foreign-key violations; rolling back");
    Err(string_of(&v))
}

/// Whether a column must still be added: it is not among the table's.
pub fn column_missing(existing: &Vec<String>, column: &str) -> (r: bool)
    ensures
        r == !Seq::new(existing@.len(), |i: int| existing@[i]@).contains(column@),
{
    let ghost cols = Seq::new(existing@.len(), |i: int| existing@[i]@);
    let mut i: usize = 0;
    while i < existing.len()
        invariant
            i <= existing@.len(),
            cols == Seq::new(existing@.len(), |i: int| existing@[i]@),
            forall|k: int| 0 <= k < i ==> cols[k] != column@,
        decreases existing.len() - i,
    {
        if str_eq(existing[i].as_str(), column) {
            assert(cols[i as int] == column@);
            return false;
        }
        i = i + 1;
    }
    true
}

} // verus!
