//! Group-history summarization: messages that slide out of the injection
//! window fold into an anchored summary instead of vanishing. The summary
//! sits behind a row-id watermark that only advances; a rewrite of its text
//! is an anchored merge.

use vstd::prelude::*;
use crate::platforms::plugins::PlatformPluginScopeKey;
use crate::text::{chars_of, decimal, push_all, push_range, push_str, string_of, trim, trim_bounds, u64_decimal};

verus! {

/// Keyspace of the summaries.
pub const SUMMARY_KEY_PREFIX: &'static str = "history_summary";

/// Jobs waiting for the summarizer at most.
pub const SUMMARY_QUEUE_CAPACITY: usize = 8;

/// Byte cap of the history text handed to the summarizer.
pub const FOLD_INPUT_MAX_BYTES: usize = 48000;

/// The stored summary of a group.
pub struct HistorySummaryRecord {
    pub summary_text: String,
    /// Highest history row folded into `summary_text`.
    pub upto_row_id: i64,
    pub covered_messages: u64,
    pub updated_at: i64,
}

pub open spec fn summary_blank(r: HistorySummaryRecord) -> bool {
    trim(r.summary_text@).len() == 0
}

impl HistorySummaryRecord {
    /// The empty record (also what a reset stores).
    pub fn empty() -> (r: Self)
        ensures
            r.summary_text@ == Seq::<char>::empty(),
            r.upto_row_id == 0,
            r.covered_messages == 0,
            r.updated_at == 0,
    {
        HistorySummaryRecord { summary_text: String::new(), upto_row_id: 0, covered_messages: 0, updated_at: 0 }
    }

    /// Whether the summary has no text.
    pub fn is_empty(&self) -> (r: bool)
        ensures
            r == summary_blank(*self),
    {
        let v = chars_of(self.summary_text.as_str());
        let (a, b) = trim_bounds(&v, 0, v.len());
        assert(v@.subrange(0, v@.len() as int) =~= v@);
        a == b
    }
}

/// Whether a stored record counts: it has text or has folded something.
pub fn record_counts(record: &HistorySummaryRecord) -> (r: bool)
    ensures
        r == (!summary_blank(*record) || record.upto_row_id > 0),
{
    !record.is_empty() || record.upto_row_id > 0
}

fn owned(s: &str) -> (r: String)
    ensures
        r@ == s@,
{
    string_of(&chars_of(s))
}

/// Where the summaries of a group are kept: the real-context plugin's
/// scope, with the summary keyspace in place of the conversation kind.
pub fn summary_scope(plugin_id: &str, platform: &str, account_id: &str, group_id: &str) -> (r:
    PlatformPluginScopeKey)
    ensures
        r.plugin_id@ == plugin_id@,
        r.platform@ == platform@,
        r.account_id@ == account_id@,
        r.conversation_kind@ == SUMMARY_KEY_PREFIX@,
        r.conversation_id@ == group_id@,
{
    PlatformPluginScopeKey {
        plugin_id: owned(plugin_id),
        platform: owned(platform),
        account_id: owned(account_id),
        conversation_kind: owned(SUMMARY_KEY_PREFIX),
        conversation_id: owned(group_id),
    }
}

/// The key of a persona's summary in that scope.
pub fn summary_key(persona_scope: &str) -> (r: String)
    ensures
        r@ == SUMMARY_KEY_PREFIX@ + seq![':'] + persona_scope@,
{
    let mut v: Vec<char> = Vec::new();
    push_str(&mut v, SUMMARY_KEY_PREFIX);
    v.push(':');
    push_str(&mut v, persona_scope);
    string_of(&v)
}

/// A summary as stored: trimmed, cut to `max_chars` with an ellipsis.
pub open spec fn bounded_summary_spec(raw: Seq<char>, max_chars: usize) -> Seq<char> {
    let t = trim(raw);
    if t.len() <= max_chars {
        t
    } else {
        t.take(max_chars as int).push('…')
    }
}

pub fn bounded_summary(raw: &str, max_chars: usize) -> (r: String)
    ensures
        r@ == bounded_summary_spec(raw@, max_chars),
{
    let v = chars_of(raw);
    let (a, b) = trim_bounds(&v, 0, v.len());
    assert(v@.subrange(0, v@.len() as int) =~= v@);
    let mut out: Vec<char> = Vec::new();
    if b - a <= max_chars {
        push_range(&mut out, &v, a, b);
    } else {
        push_range(&mut out, &v, a, a + max_chars);
        out.push('…');
        assert(out@ =~= v@.subrange(a as int, b as int).take(max_chars as int).push('…'));
    }
    string_of(&out)
}

/// The history rows to fold: newer than the watermark, older than the live
/// window, in order.
pub open spec fn fold_rows(rows: Seq<i64>, watermark: i64, window_start: i64, n: int) -> Seq<i64>
    decreases n,
{
    if n <= 0 {
        Seq::empty()
    } else if watermark < rows[n - 1] && rows[n - 1] < window_start {
        fold_rows(rows, watermark, window_start, n - 1).push(rows[n - 1])
    } else {
        fold_rows(rows, watermark, window_start, n - 1)
    }
}

/// Picks the rows to fold, as indices into `row_ids`.
pub fn fold_candidates(row_ids: &Vec<i64>, watermark: i64, window_start_row_id: i64) -> (r: Vec<usize>)
    ensures
        r@.map_values(|i: usize| row_ids@[i as int]) == fold_rows(
            row_ids@,
            watermark,
            window_start_row_id,
            row_ids@.len() as int,
        ),
        forall|k: int| 0 <= k < r@.len() ==> #[trigger] r@[k] < row_ids@.len(),
{
    let mut out: Vec<usize> = Vec::new();
    let mut i: usize = 0;
    while i < row_ids.len()
        invariant
            i <= row_ids@.len(),
            out@.map_values(|i: usize| row_ids@[i as int]) == fold_rows(
                row_ids@,
                watermark,
                window_start_row_id,
                i as int,
            ),
            forall|k: int| 0 <= k < out@.len() ==> #[trigger] out@[k] < i,
        decreases row_ids.len() - i,
    {
        if watermark < row_ids[i] && row_ids[i] < window_start_row_id {
            let ghost before = out@;
            out.push(i);
            assert(out@.map_values(|i: usize| row_ids@[i as int]) =~= before.map_values(
                |i: usize| row_ids@[i as int],
            ).push(row_ids@[i as int]));
        }
        i = i + 1;
    }
    out
}

/// A fold goes to the summarizer only when at least `trigger_messages`
/// messages slid out of the window and their formatted text is not blank.
pub fn summary_due(fold_len: usize, trigger_messages: usize, fold_text: &str) -> (r: bool)
    ensures
        r == (fold_len >= trigger_messages && trim(fold_text@).len() > 0),
{
    if fold_len < trigger_messages {
        return false;
    }
    let v = chars_of(fold_text);
    let (lo, hi) = trim_bounds(&v, 0, v.len());
    assert(v@.subrange(0, v@.len() as int) =~= v@);
    lo < hi
}

/// The error of a summarizer call that ran out of time.
pub fn summary_timeout_message(timeout_seconds: u64) -> (r: String)
    ensures
        r@ == "group history summary timed out after "@ + decimal(timeout_seconds as nat) + "s"@,
{
    let mut v = chars_of("group history summary timed out after ");
    let n = u64_decimal(timeout_seconds);
    push_all(&mut v, &n);
    push_str(&mut v, "s");
    string_of(&v)
}

/// The summarizer's answer budget: half the summary length in tokens,
/// between 256 and 4096.
pub fn summary_max_tokens(max_chars: usize) -> (r: u32)
    ensures
        r == ({
            let h = max_chars / 2;
            if h < 256 {
                256
            } else if h > 4096 {
                4096
            } else {
                h
            }
        }),
{
    let h = max_chars / 2;
    if h < 256 {
        256
    } else if h > 4096 {
        4096
    } else {
        h as u32
    }
}

/// The request to the summarizer: the length cap, the previous summary as
/// the anchor when there is one, and the chat log.
pub open spec fn summary_request_spec(max_chars: nat, previous: Option<Seq<char>>, chat_log: Seq<char>) -> Seq<char> {
    match previous {
        None => "字数上限 "@ + decimal(max_chars) + " 字。\n\n<chat-log>\n"@ + chat_log + "\n</chat-log>"@,
        Some(p) => "字数上限 "@ + decimal(max_chars) + " 字。\n\n<previous-summary>\n"@ + p
            + "\n</previous-summary>\n\n<chat-log>\n"@ + chat_log + "\n</chat-log>"@,
    }
}

pub fn summary_request(max_chars: usize, previous: &HistorySummaryRecord, chat_log: &str) -> (r: String)
    ensures
        r@ == summary_request_spec(
            max_chars as nat,
            if summary_blank(*previous) {
                None
            } else {
                Some(previous.summary_text@)
            },
            chat_log@,
        ),
{
    let mut v: Vec<char> = Vec::new();
    push_str(&mut v, "字数上限 ");
    let n = u64_decimal(max_chars as u64);
    push_all(&mut v, &n);
    if previous.is_empty() {
        push_str(&mut v, " 字。\n\n<chat-log>\n");
    } else {
        push_str(&mut v, " 字。\n\n<previous-summary>\n");
        push_str(&mut v, previous.summary_text.as_str());
        push_str(&mut v, "\n</previous-summary>\n\n<chat-log>\n");
    }
    push_str(&mut v, chat_log);
    push_str(&mut v, "\n</chat-log>");
    string_of(&v)
}

/// The record to store after a fold of `folded` messages up to row
/// `fold_max_row`, or `None` when another writer already got at least as
/// far with a summary, so the watermark never moves back.
pub fn merge_summary(
    current: &HistorySummaryRecord,
    fold_max_row: i64,
    folded: u64,
    summary_text: String,
    now: i64,
) -> (r: Option<HistorySummaryRecord>)
    ensures
        (current.upto_row_id >= fold_max_row && !summary_blank(*current)) <==> r is None,
        r matches Some(u) ==> u.upto_row_id >= current.upto_row_id && u.upto_row_id >= fold_max_row,
        r matches Some(u) ==> u.summary_text@ == summary_text@ && u.upto_row_id == (if fold_max_row
            > current.upto_row_id {
            fold_max_row
        } else {
            current.upto_row_id
        }) && u.covered_messages == (if current.covered_messages + folded > u64::MAX {
            u64::MAX
        } else {
            (current.covered_messages + folded) as u64
        }) && u.updated_at == now,
{
    if current.upto_row_id >= fold_max_row && !current.is_empty() {
        return None;
    }
    Some(
        HistorySummaryRecord {
            summary_text,
            upto_row_id: if fold_max_row > current.upto_row_id {
                fold_max_row
            } else {
                current.upto_row_id
            },
            covered_messages: if current.covered_messages <= u64::MAX - folded {
                current.covered_messages + folded
            } else {
                u64::MAX
            },
            updated_at: now,
        },
    )
}

} // verus!
