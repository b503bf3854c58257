//! QQ group management: mute, kick and special titles through model tools,
//! with a record of who did what.
//!
//! This module holds the rules: which targets a call names, what a duration
//! means, how records are kept and queried, and what the model is told about
//! partial success. The bridge performs the actions and stores the records.

use vstd::prelude::*;
use crate::text::{chars_of, decimal, push_all, push_range, push_str, string_of, trim, trim_bounds, u64_decimal};

verus! {

pub const GROUP_MANAGEMENT_PLUGIN_ID: &'static str = "qq_group_management";

/// Most targets one call acts on.
pub const MAX_TARGETS: usize = 32;

/// QQ caps a mute at 30 days; longer ones are refused here, where the
/// message can explain itself.
pub const MAX_BAN_SECONDS: u64 = 2592000;

/// Settings of the group management plugin.
pub struct GroupManagementSettings {
    /// Mute length when a call gives none, in seconds.
    pub default_duration_seconds: u64,
    pub max_reason_length: usize,
    pub max_records_per_group: usize,
    pub max_kick_history_per_group: usize,
    pub max_offender_history_per_group: usize,
    pub max_special_title_length: usize,
    /// Longest special title validity in seconds; 0 means no cap.
    pub max_special_title_duration_seconds: i64,
    pub enable_record: bool,
    pub enable_offender_history: bool,
    pub sync_external_unmute_notice: bool,
}

impl GroupManagementSettings {
    /// Ten-minute mutes, reasons and mute logs of at most 500 entries.
    pub fn default() -> (s: Self)
        ensures
            s.default_duration_seconds == 600,
            s.max_reason_length == 500,
            s.max_records_per_group == 500,
            s.max_kick_history_per_group == 500,
            s.max_offender_history_per_group == 500,
            s.max_special_title_length == 6,
            s.max_special_title_duration_seconds == 0,
            s.enable_record,
            s.enable_offender_history,
            s.sync_external_unmute_notice,
    {
        GroupManagementSettings {
            default_duration_seconds: 600,
            max_reason_length: 500,
            max_records_per_group: 500,
            max_kick_history_per_group: 500,
            max_offender_history_per_group: 500,
            max_special_title_length: 6,
            max_special_title_duration_seconds: 0,
            enable_record: true,
            enable_offender_history: true,
            sync_external_unmute_notice: true,
        }
    }
}

pub open spec fn is_digit(c: char) -> bool {
    '0' <= c && c <= '9'
}

/// A QQ id: 5 to 12 ASCII digits.
pub open spec fn valid_id_spec(s: Seq<char>) -> bool {
    5 <= s.len() <= 12 && forall|i: int| 0 <= i < s.len() ==> is_digit(#[trigger] s[i])
}

pub open spec fn id_sized(run: Seq<char>) -> bool {
    5 <= run.len() <= 12
}

/// Scanning the first `n` characters: the finished digit runs of QQ-id size,
/// and the run in progress.
pub open spec fn id_scan(s: Seq<char>, n: int) -> (Seq<Seq<char>>, Seq<char>)
    decreases n,
{
    if n <= 0 {
        (Seq::empty(), Seq::empty())
    } else {
        let (ids, run) = id_scan(s, n - 1);
        if is_digit(s[n - 1]) {
            (ids, run.push(s[n - 1]))
        } else if id_sized(run) {
            (ids.push(run), Seq::empty())
        } else {
            (ids, Seq::empty())
        }
    }
}

/// The QQ ids written in `s`: its maximal runs of ASCII digits that are 5
/// to 12 long, in order.
pub open spec fn split_ids_spec(s: Seq<char>) -> Seq<Seq<char>> {
    let (ids, run) = id_scan(s, s.len() as int);
    if id_sized(run) {
        ids.push(run)
    } else {
        ids
    }
}

proof fn lemma_id_scan_valid(s: Seq<char>, n: int)
    requires
        n <= s.len(),
    ensures
        forall|k: int| 0 <= k < id_scan(s, n).0.len() ==> valid_id_spec(#[trigger] id_scan(s, n).0[k]),
        forall|k: int| 0 <= k < id_scan(s, n).1.len() ==> is_digit(#[trigger] id_scan(s, n).1[k]),
    decreases n,
{
    if n > 0 {
        lemma_id_scan_valid(s, n - 1);
        let (ids, run) = id_scan(s, n - 1);
        if is_digit(s[n - 1]) {
            assert forall|k: int| 0 <= k < run.push(s[n - 1]).len() implies is_digit(#[trigger] run.push(s[n - 1])[k]) by {
                if k < run.len() {
                    assert(run.push(s[n - 1])[k] == run[k]);
                }
            }
        } else if id_sized(run) {
            assert(valid_id_spec(run));
            assert forall|k: int| 0 <= k < ids.push(run).len() implies valid_id_spec(#[trigger] ids.push(run)[k]) by {
                if k < ids.len() {
                    assert(ids.push(run)[k] == ids[k]);
                }
            }
        }
    }
}

/// Every id taken out of a text is a valid QQ id.
pub proof fn split_ids_are_valid(s: Seq<char>)
    ensures
        forall|k: int| 0 <= k < split_ids_spec(s).len() ==> valid_id_spec(#[trigger] split_ids_spec(s)[k]),
{
    lemma_id_scan_valid(s, s.len() as int);
    let (ids, run) = id_scan(s, s.len() as int);
    if id_sized(run) {
        assert(valid_id_spec(run));
        assert forall|k: int| 0 <= k < ids.push(run).len() implies valid_id_spec(#[trigger] ids.push(run)[k]) by {
            if k < ids.len() {
                assert(ids.push(run)[k] == ids[k]);
            }
        }
    }
}

pub open spec fn string_views(v: Seq<String>) -> Seq<Seq<char>> {
    v.map_values(|s: String| s@)
}

/// Every QQ id in `value`, e.g. `"12345, 678901"`.
pub fn split_ids(value: &str) -> (r: Vec<String>)
    ensures
        string_views(r@) == split_ids_spec(value@),
{
    let v = chars_of(value);
    let mut ids: Vec<String> = Vec::new();
    let mut run: Vec<char> = Vec::new();
    let mut i: usize = 0;
    while i < v.len()
        invariant
            i <= v@.len(),
            v@ == value@,
            (string_views(ids@), run@) == id_scan(v@, i as int),
        decreases v.len() - i,
    {
        let c = v[i];
        if '0' <= c && c <= '9' {
            run.push(c);
        } else {
            if 5 <= run.len() && run.len() <= 12 {
                let s = string_of(&run);
                let ghost before = ids@;
                ids.push(s);
                assert(string_views(ids@) =~= string_views(before).push(run@));
            }
            run = Vec::new();
        }
        i = i + 1;
    }
    if 5 <= run.len() && run.len() <= 12 {
        let s = string_of(&run);
        let ghost before = ids@;
        ids.push(s);
        assert(string_views(ids@) =~= string_views(before).push(run@));
    }
    ids
}

fn all_digits(v: &Vec<char>) -> (r: bool)
    ensures
        r == forall|i: int| 0 <= i < v@.len() ==> is_digit(#[trigger] v@[i]),
{
    let mut i: usize = 0;
    while i < v.len()
        invariant
            i <= v@.len(),
            forall|k: int| 0 <= k < i ==> is_digit(#[trigger] v@[k]),
        decreases v.len() - i,
    {
        if !('0' <= v[i] && v[i] <= '9') {
            return false;
        }
        i = i + 1;
    }
    true
}

/// Whether `value` is a QQ id.
pub fn valid_id(value: &str) -> (r: bool)
    ensures
        r == valid_id_spec(value@),
{
    let v = chars_of(value);
    5 <= v.len() && v.len() <= 12 && all_digits(&v)
}

pub open spec fn unit_part(value: nat, unit: Seq<char>) -> Seq<char> {
    if value > 0 {
        decimal(value) + unit
    } else {
        Seq::empty()
    }
}

/// A mute length as a person says it: days, hours, minutes and seconds,
/// leaving out the zero ones; `解禁` (unmute) for 0.
pub open spec fn humanize_spec(seconds: nat) -> Seq<char> {
    if seconds == 0 {
        "解禁"@
    } else {
        let days = seconds / 86400;
        let rest = seconds % 86400;
        unit_part(days, "天"@) + unit_part(rest / 3600, "小时"@) + unit_part((rest % 3600) / 60, "分钟"@)
            + unit_part(rest % 60, "秒"@)
    }
}

fn push_unit(v: &mut Vec<char>, value: u64, unit: &str)
    ensures
        final(v)@ == old(v)@ + unit_part(value as nat, unit@),
{
    if value > 0 {
        let d = u64_decimal(value);
        push_all(v, &d);
        push_str(v, unit);
    } else {
        assert(old(v)@ + Seq::<char>::empty() =~= old(v)@);
    }
}

/// Renders a mute length so the model can check its arithmetic against
/// what it meant.
pub fn humanize_seconds(seconds: u64) -> (r: String)
    ensures
        r@ == humanize_spec(seconds as nat),
{
    let mut v: Vec<char> = Vec::new();
    if seconds == 0 {
        push_str(&mut v, "解禁");
        return string_of(&v);
    }
    let days = seconds / 86400;
    let rest = seconds % 86400;
    push_unit(&mut v, days, "天");
    push_unit(&mut v, rest / 3600, "小时");
    push_unit(&mut v, (rest % 3600) / 60, "分钟");
    push_unit(&mut v, rest % 60, "秒");
    proof {
        assert(v@ =~= humanize_spec(seconds as nat));
    }
    string_of(&v)
}

/// `values` keeping only its last `max` entries (at least one).
pub open spec fn trim_spec<T>(values: Seq<T>, max: usize) -> Seq<T> {
    let m = if max < 1 { 1 } else { max as int };
    if values.len() > m {
        values.skip(values.len() - m)
    } else {
        values
    }
}

/// Drops the oldest entries beyond `max` (at least one is kept).
pub fn trim_vec<T>(values: &mut Vec<T>, max: usize)
    ensures
        final(values)@ == trim_spec(old(values)@, max),
{
    let m = if max < 1 { 1 } else { max };
    let ghost start = values@;
    if values.len() <= m {
        return;
    }
    let drop = values.len() - m;
    let mut k: usize = 0;
    while k < drop
        invariant
            k <= drop,
            drop == start.len() - m,
            values@ == start.skip(k as int),
        decreases drop - k,
    {
        let _ = values.remove(0);
        k = k + 1;
        assert(values@ =~= start.skip(k as int));
    }
}

/// The reason of an action, trimmed; refused when longer than allowed.
pub fn bounded_reason(reason: Option<&str>, max_reason_length: usize) -> (r: Result<String, String>)
    ensures
        ({
            let t = trim(
                match reason {
                    Some(s) => s@,
                    None => Seq::empty(),
                },
            );
            &&& t.len() <= max_reason_length ==> (r matches Ok(s) && s@ == t)
            &&& t.len() > max_reason_length ==> (r matches Err(e) && e@
                == "reason exceeds configured maximum length"@)
        }),
{
    let v = match reason {
        Some(s) => chars_of(s),
        None => Vec::new(),
    };
    let (a, b) = trim_bounds(&v, 0, v.len());
    assert(v@.subrange(0, v@.len() as int) =~= v@);
    if b - a > max_reason_length {
        let mut e: Vec<char> = Vec::new();
        push_str(&mut e, "reason exceeds configured maximum length");
        return Err(string_of(&e));
    }
    let mut t: Vec<char> = Vec::new();
    push_range(&mut t, &v, a, b);
    Ok(string_of(&t))
}

pub open spec fn too_long_mute_message(duration: nat) -> Seq<char> {
    "禁言时长上限 2592000 秒（30 天），收到 "@ + decimal(duration) + " 秒；注意该参数的单位是秒"@
}

/// The mute length of a call, in seconds: `duration_seconds`, else the
/// older `duration` (also seconds), else the configured default; refused
/// beyond `MAX_BAN_SECONDS`. 0 unmutes.
pub fn ban_duration(duration_seconds: Option<u64>, duration: Option<u64>, default_seconds: u64) -> (r:
    Result<u64, String>)
    ensures
        ({
            let d = match duration_seconds {
                Some(d) => d,
                None => match duration {
                    Some(d) => d,
                    None => default_seconds,
                },
            };
            &&& d <= MAX_BAN_SECONDS ==> r == Ok::<u64, String>(d)
            &&& d > MAX_BAN_SECONDS ==> (r matches Err(e) && e@ == too_long_mute_message(d as nat))
        }),
{
    let d = match duration_seconds {
        Some(d) => d,
        None => match duration {
            Some(d) => d,
            None => default_seconds,
        },
    };
    if d <= MAX_BAN_SECONDS {
        return Ok(d);
    }
    let mut e: Vec<char> = Vec::new();
    push_str(&mut e, "禁言时长上限 2592000 秒（30 天），收到 ");
    let n = u64_decimal(d);
    push_all(&mut e, &n);
    push_str(&mut e, " 秒；注意该参数的单位是秒");
    Err(string_of(&e))
}

/// The ids among the first `n` of `values` that are kept as targets: valid
/// QQ ids, not the bot itself, first occurrences only.
pub open spec fn kept_targets(values: Seq<Seq<char>>, account_id: Seq<char>, n: int) -> Seq<Seq<char>>
    decreases n,
{
    if n <= 0 {
        Seq::empty()
    } else {
        let kept = kept_targets(values, account_id, n - 1);
        let v = values[n - 1];
        if valid_id_spec(v) && v != account_id && !kept.contains(v) {
            kept.push(v)
        } else {
            kept
        }
    }
}

/// The ids a call names before filtering: those of `user_ids`, then those
/// of `user_id` when it is not blank; with neither, the mentioned members,
/// else the author of the replied-to message.
pub open spec fn named_targets(
    user_ids: Seq<Seq<char>>,
    user_id: Option<Seq<char>>,
    mentioned: Seq<Seq<char>>,
    replied_sender: Option<Seq<char>>,
) -> Seq<Seq<char>> {
    let listed = user_ids.map_values(|u: Seq<char>| split_ids_spec(u)).flatten();
    let explicit = match user_id {
        Some(u) => trim(u),
        None => Seq::empty(),
    };
    if explicit.len() > 0 {
        listed + split_ids_spec(explicit)
    } else if listed.len() > 0 {
        listed
    } else if mentioned.len() > 0 {
        mentioned
    } else {
        match replied_sender {
            Some(r) => seq![r],
            None => Seq::empty(),
        }
    }
}

/// The targets of a call: the named ids kept as above, at most
/// `MAX_TARGETS`; an error when none is left.
pub open spec fn resolve_targets_spec(
    user_ids: Seq<Seq<char>>,
    user_id: Option<Seq<char>>,
    mentioned: Seq<Seq<char>>,
    replied_sender: Option<Seq<char>>,
    account_id: Seq<char>,
) -> Option<Seq<Seq<char>>> {
    let named = named_targets(user_ids, user_id, mentioned, replied_sender);
    let kept = kept_targets(named, account_id, named.len() as int);
    if kept.len() == 0 {
        None
    } else if kept.len() > MAX_TARGETS {
        Some(kept.take(MAX_TARGETS as int))
    } else {
        Some(kept)
    }
}

proof fn lemma_kept_targets_keep(values: Seq<Seq<char>>, account_id: Seq<char>, n: int, i: int)
    requires
        0 <= i < n <= values.len(),
        valid_id_spec(values[i]),
        values[i] != account_id,
    ensures
        kept_targets(values, account_id, n).contains(values[i]),
    decreases n,
{
    let kept = kept_targets(values, account_id, n - 1);
    let v = values[n - 1];
    if i < n - 1 {
        lemma_kept_targets_keep(values, account_id, n - 1, i);
        if valid_id_spec(v) && v != account_id && !kept.contains(v) {
            let k = choose|k: int| 0 <= k < kept.len() && kept[k] == values[i];
            assert(kept.push(v)[k] == values[i]);
        }
    } else {
        if !kept.contains(v) {
            assert(kept.push(v)[kept.len() as int] == v);
        }
    }
}

/// A member named in `user_id` is acted on: every valid QQ id written in a
/// non-blank `user_id`, other than the bot's own account, is among the
/// targets, unless the targets already fill the cap.
pub proof fn named_user_id_is_targeted(
    user_ids: Seq<Seq<char>>,
    user_id: Seq<char>,
    mentioned: Seq<Seq<char>>,
    replied_sender: Option<Seq<char>>,
    account_id: Seq<char>,
    x: Seq<char>,
)
    requires
        trim(user_id).len() > 0,
        split_ids_spec(trim(user_id)).contains(x),
        x != account_id,
    ensures
        resolve_targets_spec(user_ids, Some(user_id), mentioned, replied_sender, account_id) matches Some(t)
            && (t.contains(x) || t.len() == MAX_TARGETS),
{
    let listed = user_ids.map_values(|u: Seq<char>| split_ids_spec(u)).flatten();
    let ids = split_ids_spec(trim(user_id));
    let named = named_targets(user_ids, Some(user_id), mentioned, replied_sender);
    assert(named == listed + ids);
    let j = choose|j: int| 0 <= j < ids.len() && ids[j] == x;
    split_ids_are_valid(trim(user_id));
    assert(valid_id_spec(ids[j]));
    assert(named[listed.len() + j] == x);
    lemma_kept_targets_keep(named, account_id, named.len() as int, listed.len() + j);
    let kept = kept_targets(named, account_id, named.len() as int);
    let p = choose|p: int| 0 <= p < kept.len() && kept[p] == x;
    if kept.len() > MAX_TARGETS && p < MAX_TARGETS {
        assert(kept.take(MAX_TARGETS as int)[p] == x);
    }
}

pub open spec fn opt_view(o: Option<String>) -> Option<Seq<char>> {
    match o {
        Some(s) => Some(s@),
        None => None,
    }
}

fn append_strings(out: &mut Vec<String>, more: Vec<String>)
    ensures
        string_views(final(out)@) == string_views(old(out)@) + string_views(more@),
{
    let ghost start = string_views(out@);
    let mut i: usize = 0;
    while i < more.len()
        invariant
            i <= more@.len(),
            string_views(out@) == start + string_views(more@.take(i as int)),
        decreases more.len() - i,
    {
        let c = more[i].clone();
        let ghost before = out@;
        out.push(c);
        assert(string_views(out@) =~= string_views(before).push(c@));
        assert(string_views(more@.take(i + 1)) =~= string_views(more@.take(i as int)).push(c@));
        i = i + 1;
    }
    assert(more@.take(more@.len() as int) =~= more@);
}

fn seq_contains_str(v: &Vec<String>, x: &String) -> (r: bool)
    ensures
        r == string_views(v@).contains(x@),
{
    let mut i: usize = 0;
    while i < v.len()
        invariant
            i <= v@.len(),
            forall|k: int| 0 <= k < i ==> v@[k]@ != x@,
        decreases v.len() - i,
    {
        if crate::text::str_eq(v[i].as_str(), x.as_str()) {
            assert(string_views(v@)[i as int] == x@);
            return true;
        }
        i = i + 1;
    }
    assert forall|k: int| 0 <= k < string_views(v@).len() implies string_views(v@)[k] != x@ by {}
    false
}

/// Resolves the QQ ids a management call acts on.
pub fn resolve_targets(
    user_ids: &Vec<String>,
    user_id: &Option<String>,
    mentioned: &Vec<String>,
    replied_sender: &Option<String>,
    account_id: &str,
) -> (r: Result<Vec<String>, String>)
    ensures
        match resolve_targets_spec(
            string_views(user_ids@),
            opt_view(*user_id),
            string_views(mentioned@),
            opt_view(*replied_sender),
            account_id@,
        ) {
            Some(t) => (r matches Ok(v) && string_views(v@) == t),
            None => (r matches Err(e) && e@ == "未找到有效的目标 QQ 号"@),
        },
{
    let ghost uv = string_views(user_ids@);
    let mut listed: Vec<String> = Vec::new();
    let mut i: usize = 0;
    while i < user_ids.len()
        invariant
            i <= user_ids@.len(),
            uv == string_views(user_ids@),
            string_views(listed@) == uv.take(i as int).map_values(|u: Seq<char>| split_ids_spec(u)).flatten(),
        decreases user_ids.len() - i,
    {
        let ids = split_ids(user_ids[i].as_str());
        append_strings(&mut listed, ids);
        proof {
            let f = |u: Seq<char>| split_ids_spec(u);
            assert(uv.take(i + 1).map_values(f) =~= uv.take(i as int).map_values(f).push(f(uv[i as int])));
            uv.take(i as int).map_values(f).lemma_flatten_push(f(uv[i as int]));
        }
        i = i + 1;
    }
    assert(uv.take(uv.len() as int) =~= uv);
    let mut named = listed;
    let explicit: Vec<char> = match user_id {
        Some(u) => {
            let v = chars_of(u.as_str());
            let (a, b) = trim_bounds(&v, 0, v.len());
            assert(v@.subrange(0, v@.len() as int) =~= v@);
            let mut t: Vec<char> = Vec::new();
            push_range(&mut t, &v, a, b);
            t
        },
        None => Vec::new(),
    };
    if explicit.len() > 0 {
        let ids = split_ids(string_of(&explicit).as_str());
        append_strings(&mut named, ids);
    } else if named.len() == 0 {
        if mentioned.len() > 0 {
            append_strings(&mut named, clone_strings(mentioned));
        } else {
            match replied_sender {
                Some(r) => {
                    named.push(r.clone());
                    assert(string_views(named@) =~= seq![r@]);
                },
                None => {},
            }
        }
    }
    let ghost nv = string_views(named@);
    let account = string_of(&chars_of(account_id));
    let mut kept: Vec<String> = Vec::new();
    let mut j: usize = 0;
    while j < named.len()
        invariant
            j <= named@.len(),
            nv == string_views(named@),
            account@ == account_id@,
            string_views(kept@) == kept_targets(nv, account_id@, j as int),
        decreases named.len() - j,
    {
        let candidate = &named[j];
        if valid_id(candidate.as_str()) && !crate::text::str_eq(candidate.as_str(), account.as_str())
            && !seq_contains_str(&kept, candidate) {
            let ghost before = kept@;
            kept.push(candidate.clone());
            assert(string_views(kept@) =~= string_views(before).push(candidate@));
        }
        j = j + 1;
    }
    if kept.len() == 0 {
        let mut e: Vec<char> = Vec::new();
        push_str(&mut e, "未找到有效的目标 QQ 号");
        return Err(string_of(&e));
    }
    if kept.len() > MAX_TARGETS {
        let ghost before = kept@;
        kept.truncate(MAX_TARGETS);
        assert(string_views(kept@) =~= string_views(before).take(MAX_TARGETS as int));
    }
    Ok(kept)
}

fn clone_strings(v: &Vec<String>) -> (r: Vec<String>)
    ensures
        string_views(r@) == string_views(v@),
{
    let mut out: Vec<String> = Vec::new();
    let mut i: usize = 0;
    while i < v.len()
        invariant
            i <= v@.len(),
            string_views(out@) == string_views(v@.take(i as int)),
        decreases v.len() - i,
    {
        let c = v[i].clone();
        let ghost before = out@;
        out.push(c);
        assert(string_views(out@) =~= string_views(before).push(c@));
        assert(string_views(v@.take(i + 1)) =~= string_views(v@.take(i as int)).push(c@));
        i = i + 1;
    }
    assert(v@.take(v@.len() as int) =~= v@);
    out
}

/// Records returned by a query: the requested `limit`, 20 by default,
/// kept within 1..=100.
pub fn query_limit(limit: Option<u64>) -> (r: usize)
    ensures
        r == ({
            let l = match limit {
                Some(l) => l,
                None => 20,
            };
            if l < 1 {
                1
            } else if l > 100 {
                100
            } else {
                l
            }
        }),
{
    let l = match limit {
        Some(l) => l,
        None => 20,
    };
    if l < 1 {
        1
    } else if l > 100 {
        100
    } else {
        l as usize
    }
}

/// The `user_id` filter of a query: the argument, trimmed, when it is a QQ
/// id.
pub fn optional_id(user_id: Option<&str>) -> (r: Option<String>)
    ensures
        opt_view(r) == match user_id {
            Some(u) => if valid_id_spec(trim(u@)) {
                Some(trim(u@))
            } else {
                None
            },
            None => None,
        },
{
    let u = match user_id {
        Some(u) => u,
        None => return None,
    };
    let v = chars_of(u);
    let (a, b) = trim_bounds(&v, 0, v.len());
    assert(v@.subrange(0, v@.len() as int) =~= v@);
    let mut t: Vec<char> = Vec::new();
    push_range(&mut t, &v, a, b);
    let s = string_of(&t);
    if valid_id(s.as_str()) {
        Some(s)
    } else {
        None
    }
}

/// Refuses actions on the bot itself.
pub fn check_not_self(user_id: &str, account_id: &str) -> (r: Result<(), String>)
    ensures
        r is Ok <==> user_id@ != account_id@,
        r matches Err(e) ==> e@ == "不能对 Miyu 自身执行该操作"@,
{
    if crate::text::str_eq(user_id, account_id) {
        let mut e: Vec<char> = Vec::new();
        push_str(&mut e, "不能对 Miyu 自身执行该操作");
        return Err(string_of(&e));
    }
    Ok(())
}

/// Refuses mutes and kicks of the group owner and admins.
pub fn check_member_role(role: &str, protect_managers: bool) -> (r: Result<(), String>)
    ensures
        r is Ok <==> !(protect_managers && (role@ == "owner"@ || role@ == "admin"@)),
        r matches Err(e) ==> e@ == "不能对群主或管理员执行该操作"@,
{
    if protect_managers && (crate::text::str_eq(role, "owner") || crate::text::str_eq(role, "admin")) {
        let mut e: Vec<char> = Vec::new();
        push_str(&mut e, "不能对群主或管理员执行该操作");
        return Err(string_of(&e));
    }
    Ok(())
}

/// The validity of a special title, in seconds: -1 (permanent) for a
/// negative or absent request, else the request, capped by the setting when
/// the setting is positive.
pub fn title_duration(requested: Option<i64>, max_seconds: i64) -> (r: i64)
    ensures
        r == ({
            let d = match requested {
                Some(d) => d,
                None => -1i64,
            };
            if d < 0 {
                -1i64
            } else if max_seconds > 0 && max_seconds < d {
                max_seconds
            } else {
                d
            }
        }),
{
    let d = match requested {
        Some(d) => d,
        None => -1,
    };
    if d < 0 {
        -1
    } else if max_seconds > 0 && max_seconds < d {
        max_seconds
    } else {
        d
    }
}

/// Checks a special-title call: exactly one target, and a title (trimmed)
/// within the configured length. Returns the trimmed title.
pub fn check_title(target_count: usize, title: &str, max_length: usize) -> (r: Result<String, String>)
    ensures
        target_count != 1 ==> (r matches Err(e) && e@ == "群头衔操作必须且只能指定一个目标"@),
        target_count == 1 && trim(title@).len() > max_length ==> (r matches Err(e) && e@
            == "群头衔超过配置长度限制"@),
        target_count == 1 && trim(title@).len() <= max_length ==> (r matches Ok(t) && t@ == trim(
            title@,
        )),
{
    if target_count != 1 {
        let mut e: Vec<char> = Vec::new();
        push_str(&mut e, "群头衔操作必须且只能指定一个目标");
        return Err(string_of(&e));
    }
    let v = chars_of(title);
    let (a, b) = trim_bounds(&v, 0, v.len());
    assert(v@.subrange(0, v@.len() as int) =~= v@);
    if b - a > max_length {
        let mut e: Vec<char> = Vec::new();
        push_str(&mut e, "群头衔超过配置长度限制");
        return Err(string_of(&e));
    }
    let mut t: Vec<char> = Vec::new();
    push_range(&mut t, &v, a, b);
    Ok(string_of(&t))
}

/// The outcome of one management action, as reported to the model.
pub struct ActionOutcome {
    pub success: bool,
    pub operation_succeeded: bool,
    pub audit_succeeded: bool,
    /// Whether repeating the call could only do harm.
    pub do_not_retry: bool,
    pub message: String,
    pub audit_errors: Vec<String>,
}

/// A failed action: nothing happened, so it may be retried.
pub fn failure(message: String) -> (r: ActionOutcome)
    ensures
        !r.success && !r.operation_succeeded && !r.audit_succeeded && !r.do_not_retry,
        r.message@ == message@,
        r.audit_errors@.len() == 0,
{
    ActionOutcome {
        success: false,
        operation_succeeded: false,
        audit_succeeded: false,
        do_not_retry: false,
        message,
        audit_errors: Vec::new(),
    }
}

/// An action the platform carried out. It must never be repeated, also
/// when recording it locally failed.
pub fn external_operation_result(audit_errors: Vec<String>) -> (r: ActionOutcome)
    ensures
        r.success && r.operation_succeeded && r.do_not_retry,
        r.audit_succeeded == (audit_errors@.len() == 0),
        r.message@ == if audit_errors@.len() == 0 {
            "操作成功"@
        } else {
            "外部操作已成功，但本地审计记录失败；请勿重试外部操作"@
        },
        r.audit_errors@ == audit_errors@,
{
    let ok = audit_errors.len() == 0;
    let mut m: Vec<char> = Vec::new();
    if ok {
        push_str(&mut m, "操作成功");
    } else {
        push_str(&mut m, "外部操作已成功，但本地审计记录失败；请勿重试外部操作");
    }
    ActionOutcome {
        success: true,
        operation_succeeded: true,
        audit_succeeded: ok,
        do_not_retry: true,
        message: string_of(&m),
        audit_errors,
    }
}

/// The outcome of an action on one target.
pub struct TargetResult {
    pub user_id: String,
    pub outcome: ActionOutcome,
}

/// The summary of a batched action over several targets.
pub struct BatchSummary {
    pub success: bool,
    pub operation_succeeded: bool,
    pub audit_succeeded: bool,
    pub do_not_retry: bool,
    pub do_not_retry_successful_targets: bool,
    pub retry_failed_targets_only: bool,
    pub message: String,
    pub success_count: usize,
    pub failed_count: usize,
    pub audit_failed_count: usize,
    pub successful_target_ids: Vec<String>,
    pub failed_target_ids: Vec<String>,
    /// The per-target results themselves, in order.
    pub results: Vec<TargetResult>,
}

/// Ids of the first `n` results whose action succeeded (or failed).
pub open spec fn ids_where(results: Seq<TargetResult>, succeeded: bool, n: int) -> Seq<Seq<char>>
    decreases n,
{
    if n <= 0 {
        Seq::empty()
    } else if results[n - 1].outcome.operation_succeeded == succeeded {
        ids_where(results, succeeded, n - 1).push(results[n - 1].user_id@)
    } else {
        ids_where(results, succeeded, n - 1)
    }
}

/// How many of the first `n` results succeeded but were not recorded.
pub open spec fn audit_failures(results: Seq<TargetResult>, n: int) -> nat
    decreases n,
{
    if n <= 0 {
        0
    } else if results[n - 1].outcome.operation_succeeded && !results[n - 1].outcome.audit_succeeded {
        audit_failures(results, n - 1) + 1
    } else {
        audit_failures(results, n - 1)
    }
}

pub open spec fn batch_message(success: nat, failed: nat, audit_failed: nat) -> Seq<char> {
    if audit_failed > 0 || failed > 0 {
        "外部操作成功 "@ + decimal(success) + " 个、失败 "@ + decimal(failed)
            + " 个；成功目标不得重试，失败目标可单独重试"@
    } else {
        "成功 "@ + decimal(success) + " 个，失败 "@ + decimal(failed) + " 个"@
    }
}

proof fn lemma_batch_counts(results: Seq<TargetResult>, n: int)
    requires
        0 <= n <= results.len(),
    ensures
        ids_where(results, true, n).len() + ids_where(results, false, n).len() == n,
        audit_failures(results, n) <= n,
    decreases n,
{
    if n > 0 {
        lemma_batch_counts(results, n - 1);
    }
}

/// Summarises a batch. Successful targets must never be retried; failed
/// ones may be, each on its own.
pub fn aggregate_target_results(results: Vec<TargetResult>) -> (r: BatchSummary)
    ensures
        r.results@ == results@,
        ({
            let n = results@.len() as int;
            let ok = ids_where(results@, true, n);
            let failed = ids_where(results@, false, n);
            let audit_failed = audit_failures(results@, n);
            &&& string_views(r.successful_target_ids@) == ok
            &&& string_views(r.failed_target_ids@) == failed
            &&& r.success_count == ok.len()
            &&& r.failed_count == failed.len()
            &&& r.audit_failed_count == audit_failed
            &&& r.success == (ok.len() > 0)
            &&& r.operation_succeeded == (ok.len() > 0)
            &&& r.audit_succeeded == (audit_failed == 0)
            &&& r.do_not_retry == (failed.len() == 0)
            &&& r.do_not_retry_successful_targets
            &&& r.retry_failed_targets_only == (failed.len() > 0)
            &&& r.message@ == batch_message(ok.len(), failed.len(), audit_failed)
        }),
{
    let mut ok: Vec<String> = Vec::new();
    let mut failed: Vec<String> = Vec::new();
    let mut audit_failed: usize = 0;
    let mut i: usize = 0;
    while i < results.len()
        invariant
            i <= results@.len(),
            string_views(ok@) == ids_where(results@, true, i as int),
            string_views(failed@) == ids_where(results@, false, i as int),
            audit_failed == audit_failures(results@, i as int),
        decreases results.len() - i,
    {
        proof {
            lemma_batch_counts(results@, i as int);
        }
        let r = &results[i];
        let id = r.user_id.clone();
        if r.outcome.operation_succeeded {
            let ghost before = ok@;
            ok.push(id);
            assert(string_views(ok@) =~= string_views(before).push(id@));
            if !r.outcome.audit_succeeded {
                audit_failed = audit_failed + 1;
            }
        } else {
            let ghost before = failed@;
            failed.push(id);
            assert(string_views(failed@) =~= string_views(before).push(id@));
        }
        i = i + 1;
    }
    proof {
        lemma_batch_counts(results@, i as int);
    }
    let success_count = ok.len();
    let failed_count = failed.len();
    let has_failures = failed_count > 0;
    let mut m: Vec<char> = Vec::new();
    if audit_failed > 0 || has_failures {
        push_str(&mut m, "外部操作成功 ");
        let a = u64_decimal(success_count as u64);
        push_all(&mut m, &a);
        push_str(&mut m, " 个、失败 ");
        let b = u64_decimal(failed_count as u64);
        push_all(&mut m, &b);
        push_str(&mut m, " 个；成功目标不得重试，失败目标可单独重试");
    } else {
        push_str(&mut m, "成功 ");
        let a = u64_decimal(success_count as u64);
        push_all(&mut m, &a);
        push_str(&mut m, " 个，失败 ");
        let b = u64_decimal(failed_count as u64);
        push_all(&mut m, &b);
        push_str(&mut m, " 个");
    }
    BatchSummary {
        success: success_count > 0,
        operation_succeeded: success_count > 0,
        audit_succeeded: audit_failed == 0,
        do_not_retry: !has_failures,
        do_not_retry_successful_targets: true,
        retry_failed_targets_only: has_failures,
        message: string_of(&m),
        success_count,
        failed_count,
        audit_failed_count: audit_failed,
        successful_target_ids: ok,
        failed_target_ids: failed,
        results,
    }
}

/// State of a mute record.
#[derive(Clone, Copy, Debug, PartialEq, Eq, Structural)]
pub enum BanStatus {
    Active,
    Unmuted,
    /// A later mute of the same member replaced it.
    Overridden,
    Expired,
}

impl BanStatus {
    pub fn as_str(self) -> (r: &'static str)
        ensures
            r@ == match self {
                BanStatus::Active => "active"@,
                BanStatus::Unmuted => "unmuted"@,
                BanStatus::Overridden => "overridden"@,
                BanStatus::Expired => "expired"@,
            },
    {
        match self {
            BanStatus::Active => "active",
            BanStatus::Unmuted => "unmuted",
            BanStatus::Overridden => "overridden",
            BanStatus::Expired => "expired",
        }
    }
}

/// One mute or unmute, by the bot or observed on the platform.
pub struct BanRecord {
    pub record_id: String,
    pub group_id: String,
    pub user_id: String,
    pub user_name: String,
    pub duration: u64,
    pub started_at: i64,
    pub expires_at: i64,
    pub status: BanStatus,
    pub operator_id: String,
    pub reason: String,
    /// `llm_tool` or `onebot_notice`.
    pub source: String,
}

impl BanRecord {
    pub fn copy(&self) -> (r: BanRecord)
        ensures
            r == *self,
    {
        BanRecord {
            record_id: self.record_id.clone(),
            group_id: self.group_id.clone(),
            user_id: self.user_id.clone(),
            user_name: self.user_name.clone(),
            duration: self.duration,
            started_at: self.started_at,
            expires_at: self.expires_at,
            status: self.status,
            operator_id: self.operator_id.clone(),
            reason: self.reason.clone(),
            source: self.source.clone(),
        }
    }
}

/// `now + duration` as seconds, saturating at the bounds of `i64`.
pub open spec fn expiry(now: i64, duration: u64) -> i64 {
    let d = duration as i64;
    if now + d > i64::MAX {
        i64::MAX
    } else if now + d < i64::MIN {
        i64::MIN
    } else {
        (now + d) as i64
    }
}

fn saturating_expiry(now: i64, duration: u64) -> (r: i64)
    ensures
        r == expiry(now, duration),
{
    let d = duration as i64;
    if d >= 0 {
        if now > i64::MAX - d {
            i64::MAX
        } else {
            now + d
        }
    } else {
        if now < i64::MIN - d {
            i64::MIN
        } else {
            now + d
        }
    }
}

/// A mute of `duration` seconds (0: an unmute) starting at `now`.
pub fn new_ban_record(
    record_id: String,
    group_id: String,
    user_id: String,
    user_name: String,
    duration: u64,
    now: i64,
    operator_id: String,
    reason: String,
    source: String,
) -> (r: BanRecord)
    ensures
        r.record_id == record_id && r.group_id == group_id && r.user_id == user_id && r.user_name
            == user_name && r.operator_id == operator_id && r.reason == reason && r.source
            == source,
        r.duration == duration,
        r.started_at == now,
        r.expires_at == expiry(now, duration),
        r.status == if duration == 0 {
            BanStatus::Unmuted
        } else {
            BanStatus::Active
        },
{
    BanRecord {
        record_id,
        group_id,
        user_id,
        user_name,
        duration,
        started_at: now,
        expires_at: saturating_expiry(now, duration),
        status: if duration == 0 {
            BanStatus::Unmuted
        } else {
            BanStatus::Active
        },
        operator_id,
        reason,
        source,
    }
}

/// `r` with its status set to `s` when it is an active record of `user`.
pub open spec fn close_if_active(r: BanRecord, user: Seq<char>, s: BanStatus) -> BanRecord {
    if r.user_id@ == user && r.status == BanStatus::Active {
        BanRecord { status: s, ..r }
    } else {
        r
    }
}

/// `r` marked expired when it is active and its end has passed.
pub open spec fn expire_if_due(r: BanRecord, now: i64) -> BanRecord {
    if r.status == BanStatus::Active && r.expires_at <= now {
        BanRecord { status: BanStatus::Expired, ..r }
    } else {
        r
    }
}

/// A log after an action of the bot on `record.user_id`.
pub open spec fn after_action(log: Seq<BanRecord>, record: BanRecord, max: usize) -> Seq<BanRecord> {
    trim_spec(
        Seq::new(
            log.len(),
            |i: int|
                close_if_active(
                    log[i],
                    record.user_id@,
                    if record.duration > 0 {
                        BanStatus::Overridden
                    } else {
                        BanStatus::Unmuted
                    },
                ),
        ).push(record),
        max,
    )
}

/// A log with its due mutes marked expired.
pub open spec fn after_expiry(log: Seq<BanRecord>, now: i64) -> Seq<BanRecord> {
    Seq::new(log.len(), |i: int| expire_if_due(log[i], now))
}

/// The mute log of one group.
pub struct BanLog {
    records: Vec<BanRecord>,
}

impl BanLog {
    pub closed spec fn view(&self) -> Seq<BanRecord> {
        self.records@
    }

    pub fn new() -> (r: Self)
        ensures
            r@ == Seq::<BanRecord>::empty(),
    {
        BanLog { records: Vec::new() }
    }

    /// Records an action of the bot. A mute replaces the member's active
    /// mutes, an unmute ends them; the log keeps its newest `max` entries.
    pub fn record_action(&mut self, record: BanRecord, max: usize)
        ensures
            final(self)@ == after_action(old(self)@, record, max),
    {
        let closed = if record.duration > 0 {
            BanStatus::Overridden
        } else {
            BanStatus::Unmuted
        };
        let ghost start = self.records@;
        let mut i: usize = 0;
        while i < self.records.len()
            invariant
                i <= self.records@.len(),
                self.records@.len() == start.len(),
                forall|k: int|
                    0 <= k < i ==> self.records@[k] == close_if_active(start[k], record.user_id@, closed),
                forall|k: int| i <= k < start.len() ==> self.records@[k] == start[k],
            decreases self.records.len() - i,
        {
            if self.records[i].status == BanStatus::Active && crate::text::str_eq(
                self.records[i].user_id.as_str(),
                record.user_id.as_str(),
            ) {
                let mut r = self.records[i].copy();
                r.status = closed;
                self.records.set(i, r);
            }
            i = i + 1;
        }
        assert(self.records@ =~= Seq::new(
            start.len(),
            |i: int| close_if_active(start[i], record.user_id@, closed),
        ));
        self.records.push(record);
        trim_vec(&mut self.records, max);
    }

    /// Records an action observed on the platform.
    pub fn record_notice(&mut self, record: BanRecord, max: usize)
        ensures
            final(self)@ == trim_spec(old(self)@.push(record), max),
    {
        self.records.push(record);
        trim_vec(&mut self.records, max);
    }

    /// Marks due mutes expired, then lists the newest matching records,
    /// newest first.
    pub fn query(&mut self, now: i64, include_history: bool, user_id: &Option<String>, limit: usize) -> (r:
        Vec<BanRecord>)
        ensures
            final(self)@ == after_expiry(old(self)@, now),
            r@ == newest_matching(final(self)@, include_history, opt_view(*user_id), limit as nat),
    {
        let ghost start = self.records@;
        let mut i: usize = 0;
        while i < self.records.len()
            invariant
                i <= self.records@.len(),
                self.records@.len() == start.len(),
                forall|k: int| 0 <= k < i ==> self.records@[k] == expire_if_due(start[k], now),
                forall|k: int| i <= k < start.len() ==> self.records@[k] == start[k],
            decreases self.records.len() - i,
        {
            if self.records[i].status == BanStatus::Active && self.records[i].expires_at <= now {
                let mut r = self.records[i].copy();
                r.status = BanStatus::Expired;
                self.records.set(i, r);
            }
            i = i + 1;
        }
        assert(self.records@ =~= Seq::new(start.len(), |i: int| expire_if_due(start[i], now)));
        let mut out: Vec<BanRecord> = Vec::new();
        let mut k: usize = self.records.len();
        while k > 0 && out.len() < limit
            invariant
                k <= self.records@.len(),
                out@ == matching_suffix(self.records@, include_history, opt_view(*user_id), k as int),
                out@.len() <= limit,
            decreases k,
        {
            k = k - 1;
            let r = &self.records[k];
            let wanted = (include_history || r.status == BanStatus::Active) && match user_id {
                Some(u) => crate::text::str_eq(r.user_id.as_str(), u.as_str()),
                None => true,
            };
            if wanted {
                out.push(r.copy());
            }
        }
        proof {
            lemma_newest_matching(self.records@, include_history, opt_view(*user_id), limit as nat, k as int);
        }
        out
    }
}

pub open spec fn record_wanted(r: BanRecord, include_history: bool, user: Option<Seq<char>>) -> bool {
    (include_history || r.status == BanStatus::Active) && match user {
        Some(u) => r.user_id@ == u,
        None => true,
    }
}

/// The wanted records among `records[k..]`, newest first.
pub open spec fn matching_suffix(
    records: Seq<BanRecord>,
    include_history: bool,
    user: Option<Seq<char>>,
    k: int,
) -> Seq<BanRecord>
    decreases records.len() - k,
{
    if k < 0 || k >= records.len() {
        Seq::empty()
    } else {
        let newer = matching_suffix(records, include_history, user, k + 1);
        if record_wanted(records[k], include_history, user) {
            newer.push(records[k])
        } else {
            newer
        }
    }
}

/// The newest `limit` wanted records, newest first.
pub open spec fn newest_matching(
    records: Seq<BanRecord>,
    include_history: bool,
    user: Option<Seq<char>>,
    limit: nat,
) -> Seq<BanRecord> {
    let all = matching_suffix(records, include_history, user, 0);
    if all.len() > limit {
        all.take(limit as int)
    } else {
        all
    }
}

proof fn lemma_matching_suffix_prefix(
    records: Seq<BanRecord>,
    include_history: bool,
    user: Option<Seq<char>>,
    j: int,
    k: int,
)
    requires
        0 <= j <= k <= records.len(),
    ensures
        matching_suffix(records, include_history, user, j).len() >= matching_suffix(
            records,
            include_history,
            user,
            k,
        ).len(),
        matching_suffix(records, include_history, user, j).take(
            matching_suffix(records, include_history, user, k).len() as int,
        ) == matching_suffix(records, include_history, user, k),
    decreases k - j,
{
    if j < k {
        lemma_matching_suffix_prefix(records, include_history, user, j + 1, k);
        let a = matching_suffix(records, include_history, user, j + 1);
        let b = matching_suffix(records, include_history, user, k);
        let c = matching_suffix(records, include_history, user, j);
        if record_wanted(records[j], include_history, user) {
            assert(c.take(b.len() as int) =~= a.take(b.len() as int));
        }
    } else {
        let b = matching_suffix(records, include_history, user, k);
        assert(b.take(b.len() as int) =~= b);
    }
}

proof fn lemma_newest_matching(
    records: Seq<BanRecord>,
    include_history: bool,
    user: Option<Seq<char>>,
    limit: nat,
    k: int,
)
    requires
        0 <= k <= records.len(),
        k == 0 || matching_suffix(records, include_history, user, k).len() >= limit,
        matching_suffix(records, include_history, user, k).len() <= limit,
    ensures
        matching_suffix(records, include_history, user, k) == newest_matching(
            records,
            include_history,
            user,
            limit,
        ),
{
    lemma_matching_suffix_prefix(records, include_history, user, 0, k);
}

/// The mute logs of every group, by conversation scope key.
pub struct BanBook {
    scopes: Vec<String>,
    logs: Vec<BanLog>,
}

impl BanBook {
    /// Position of the log of `scope`.
    pub closed spec fn slot(&self, scope: Seq<char>) -> Option<int> {
        if exists|i: int| 0 <= i < self.scopes@.len() && #[trigger] self.scopes@[i]@ == scope {
            Some(choose|i: int| 0 <= i < self.scopes@.len() && #[trigger] self.scopes@[i]@ == scope)
        } else {
            None
        }
    }

    /// The log of `scope`; empty for a group without records.
    pub closed spec fn log_of(&self, scope: Seq<char>) -> Seq<BanRecord> {
        match self.slot(scope) {
            Some(i) => self.logs@[i]@,
            None => Seq::empty(),
        }
    }

    pub closed spec fn wf(&self) -> bool {
        &&& self.scopes@.len() == self.logs@.len()
        &&& forall|i: int, j: int|
            0 <= i < self.scopes@.len() && 0 <= j < self.scopes@.len() && i != j
                ==> #[trigger] self.scopes@[i]@ != #[trigger] self.scopes@[j]@
    }

    pub fn new() -> (r: Self)
        ensures
            r.wf(),
            forall|scope: Seq<char>| r.log_of(scope) == Seq::<BanRecord>::empty(),
    {
        BanBook { scopes: Vec::new(), logs: Vec::new() }
    }

    /// Takes the log of `scope` out (an empty one when absent).
    fn take(&mut self, scope: &str) -> (r: BanLog)
        requires
            old(self).wf(),
        ensures
            final(self).wf(),
            r@ == old(self).log_of(scope@),
            final(self).slot(scope@) is None,
            forall|other: Seq<char>| other != scope@ ==> final(self).log_of(other) == old(self).log_of(other),
    {
        let mut i: usize = 0;
        while i < self.scopes.len()
            invariant
                self.wf(),
                self.scopes@ == old(self).scopes@,
                self.logs@ == old(self).logs@,
                i <= self.scopes@.len(),
                forall|k: int| 0 <= k < i ==> #[trigger] self.scopes@[k]@ != scope@,
            decreases self.scopes.len() - i,
        {
            if crate::text::str_eq(self.scopes[i].as_str(), scope) {
                let ghost old_scopes = self.scopes@;
                let ghost old_logs = self.logs@;
                proof {
                    let j = self.slot(scope@)->0;
                    assert(old_scopes[i as int]@ == scope@);
                    assert(j == i);
                }
                let _ = self.scopes.remove(i);
                let log = self.logs.remove(i);
                proof {
                    let s = self.scopes@;
                    assert(s =~= old_scopes.remove(i as int));
                    assert(self.logs@ =~= old_logs.remove(i as int));
                    assert forall|a: int, b: int|
                        0 <= a < s.len() && 0 <= b < s.len() && a != b implies #[trigger] s[a]@
                        != #[trigger] s[b]@ by {
                        let a0 = if a < i { a } else { a + 1 };
                        let b0 = if b < i { b } else { b + 1 };
                        assert(s[a] == old_scopes[a0]);
                        assert(s[b] == old_scopes[b0]);
                    }
                    assert forall|k: int| 0 <= k < s.len() implies #[trigger] s[k]@ != scope@ by {
                        let k0 = if k < i { k } else { k + 1 };
                        assert(s[k] == old_scopes[k0]);
                    }
                    assert forall|other: Seq<char>| other != scope@ implies self.log_of(other)
                        == old(self).log_of(other) by {
                        if exists|k: int| 0 <= k < old_scopes.len() && #[trigger] old_scopes[k]@ == other {
                            let k0 = old(self).slot(other)->0;
                            assert(old_scopes[k0]@ == other);
                            assert(k0 != i);
                            let k = if k0 < i { k0 } else { k0 - 1 };
                            assert(s[k] == old_scopes[k0]);
                            let j = self.slot(other)->0;
                            let j0 = if j < i { j } else { j + 1 };
                            assert(s[j] == old_scopes[j0]);
                            assert(j0 == k0);
                            assert(self.logs@[j] == old_logs[j0]);
                        } else {
                            assert forall|k: int| 0 <= k < s.len() implies #[trigger] s[k]@ != other by {
                                let k0 = if k < i { k } else { k + 1 };
                                assert(s[k] == old_scopes[k0]);
                            }
                        }
                    }
                }
                return log;
            }
            i = i + 1;
        }
        BanLog::new()
    }

    /// Puts the log of a scope that has none.
    fn put(&mut self, scope: &str, log: BanLog)
        requires
            old(self).wf(),
            old(self).slot(scope@) is None,
        ensures
            final(self).wf(),
            final(self).log_of(scope@) == log@,
            forall|other: Seq<char>| other != scope@ ==> final(self).log_of(other) == old(self).log_of(other),
    {
        let ghost old_scopes = self.scopes@;
        let ghost old_logs = self.logs@;
        let key = crate::text::string_of(&chars_of(scope));
        self.scopes.push(key);
        self.logs.push(log);
        proof {
            let s = self.scopes@;
            let n = old_scopes.len() as int;
            assert forall|k: int| 0 <= k < n implies #[trigger] old_scopes[k]@ != scope@ by {}
            assert forall|a: int, b: int|
                0 <= a < s.len() && 0 <= b < s.len() && a != b implies #[trigger] s[a]@ != #[trigger] s[b]@ by {
                if a < n && b < n {
                    assert(old_scopes[a]@ != old_scopes[b]@);
                } else if a < n {
                    assert(old_scopes[a]@ != scope@);
                } else {
                    assert(old_scopes[b]@ != scope@);
                }
            }
            assert(s[n]@ == scope@);
            let j = self.slot(scope@)->0;
            assert(j == n);
            assert forall|other: Seq<char>| other != scope@ implies self.log_of(other) == old(self).log_of(other) by {
                if exists|k: int| 0 <= k < old_scopes.len() && #[trigger] old_scopes[k]@ == other {
                    let k0 = old(self).slot(other)->0;
                    assert(s[k0] == old_scopes[k0]);
                    let j = self.slot(other)->0;
                    assert(j != n);
                    assert(s[j] == old_scopes[j]);
                    assert(j == k0);
                } else {
                    assert forall|k: int| 0 <= k < s.len() implies #[trigger] s[k]@ != other by {
                        if k < n {
                            assert(s[k] == old_scopes[k]);
                        }
                    }
                }
            }
        }
    }

    /// Records an action of the bot in the log of `scope`.
    pub fn record_action(&mut self, scope: &str, record: BanRecord, max: usize)
        requires
            old(self).wf(),
        ensures
            final(self).wf(),
            final(self).log_of(scope@) == after_action(old(self).log_of(scope@), record, max),
            forall|other: Seq<char>| other != scope@ ==> final(self).log_of(other) == old(self).log_of(other),
    {
        let mut log = self.take(scope);
        log.record_action(record, max);
        self.put(scope, log);
    }

    /// Records an action observed on the platform in the log of `scope`.
    pub fn record_notice(&mut self, scope: &str, record: BanRecord, max: usize)
        requires
            old(self).wf(),
        ensures
            final(self).wf(),
            final(self).log_of(scope@) == trim_spec(old(self).log_of(scope@).push(record), max),
            forall|other: Seq<char>| other != scope@ ==> final(self).log_of(other) == old(self).log_of(other),
    {
        let mut log = self.take(scope);
        log.record_notice(record, max);
        self.put(scope, log);
    }

    /// Queries the log of `scope` (see `BanLog::query`).
    pub fn query(
        &mut self,
        scope: &str,
        now: i64,
        include_history: bool,
        user_id: &Option<String>,
        limit: usize,
    ) -> (r: Vec<BanRecord>)
        requires
            old(self).wf(),
        ensures
            final(self).wf(),
            final(self).log_of(scope@) == after_expiry(old(self).log_of(scope@), now),
            forall|other: Seq<char>| other != scope@ ==> final(self).log_of(other) == old(self).log_of(other),
            r@ == newest_matching(final(self).log_of(scope@), include_history, opt_view(*user_id), limit as nat),
    {
        let mut log = self.take(scope);
        let r = log.query(now, include_history, user_id, limit);
        self.put(scope, log);
        r
    }
}

/// One kick, by the bot or observed on the platform.
pub struct KickRecord {
    pub record_id: String,
    pub group_id: String,
    pub user_id: String,
    pub user_name: String,
    pub kicked_at: i64,
    pub operator_id: String,
    pub reason: String,
    /// Whether later join requests are refused.
    pub reject_add_request: bool,
    pub source: String,
}

impl KickRecord {
    pub fn copy(&self) -> (r: KickRecord)
        ensures
            r == *self,
    {
        KickRecord {
            record_id: self.record_id.clone(),
            group_id: self.group_id.clone(),
            user_id: self.user_id.clone(),
            user_name: self.user_name.clone(),
            kicked_at: self.kicked_at,
            operator_id: self.operator_id.clone(),
            reason: self.reason.clone(),
            reject_add_request: self.reject_add_request,
            source: self.source.clone(),
        }
    }
}

/// Adds a kick to the history, which keeps its newest `max` entries.
pub fn append_kick(records: &mut Vec<KickRecord>, record: KickRecord, max: usize)
    ensures
        final(records)@ == trim_spec(old(records)@.push(record), max),
{
    records.push(record);
    trim_vec(records, max);
}

/// `str::to_lowercase` of `s`: full Unicode lowercase mapping.
pub uninterp spec fn lowercase(s: Seq<char>) -> Seq<char>;

/// `str::to_lowercase`; its result depends on `s` alone.
#[verifier::external_body]
fn to_lowercase(s: &str) -> (r: String)
    ensures
        r@ == lowercase(s@),
{
    s.to_lowercase()
}

/// Whether `text` matches a search keyword, case-insensitively.
pub open spec fn keyword_in(text: Seq<char>, keyword: Seq<char>) -> bool {
    crate::text::find_from(lowercase(text), lowercase(keyword), 0) >= 0
}

fn contains_keyword(text: &str, lowered_keyword: &Vec<char>) -> (r: bool)
    ensures
        r == (crate::text::find_from(lowercase(text@), lowered_keyword@, 0) >= 0),
{
    let t = chars_of(to_lowercase(text).as_str());
    match crate::text::find_chars(&t, lowered_keyword, 0) {
        Some(_) => true,
        None => false,
    }
}

pub open spec fn kick_wanted(r: KickRecord, user: Option<Seq<char>>, keyword: Seq<char>) -> bool {
    &&& match user {
        Some(u) => r.user_id@ == u,
        None => true,
    }
    &&& keyword.len() == 0 || keyword_in(r.user_name@, keyword) || keyword_in(r.reason@, keyword)
}

/// The wanted kicks among `records[k..]`, newest first.
pub open spec fn kicks_suffix(records: Seq<KickRecord>, user: Option<Seq<char>>, keyword: Seq<char>, k: int) -> Seq<
    KickRecord,
>
    decreases records.len() - k,
{
    if k < 0 || k >= records.len() {
        Seq::empty()
    } else {
        let newer = kicks_suffix(records, user, keyword, k + 1);
        if kick_wanted(records[k], user, keyword) {
            newer.push(records[k])
        } else {
            newer
        }
    }
}

proof fn lemma_kicks_suffix_prefix(
    records: Seq<KickRecord>,
    user: Option<Seq<char>>,
    keyword: Seq<char>,
    j: int,
    k: int,
)
    requires
        0 <= j <= k <= records.len(),
    ensures
        kicks_suffix(records, user, keyword, j).len() >= kicks_suffix(records, user, keyword, k).len(),
        kicks_suffix(records, user, keyword, j).take(kicks_suffix(records, user, keyword, k).len() as int)
            == kicks_suffix(records, user, keyword, k),
    decreases k - j,
{
    if j < k {
        lemma_kicks_suffix_prefix(records, user, keyword, j + 1, k);
        let a = kicks_suffix(records, user, keyword, j + 1);
        let b = kicks_suffix(records, user, keyword, k);
        let c = kicks_suffix(records, user, keyword, j);
        if kick_wanted(records[j], user, keyword) {
            assert(c.take(b.len() as int) =~= a.take(b.len() as int));
        }
    } else {
        let b = kicks_suffix(records, user, keyword, k);
        assert(b.take(b.len() as int) =~= b);
    }
}

/// The newest `limit` kicks of `user` (or of everyone) whose member name
/// or reason contains `keyword` (any, when empty), newest first.
pub fn query_kicks(records: &Vec<KickRecord>, user_id: &Option<String>, keyword: &str, limit: usize) -> (r:
    Vec<KickRecord>)
    ensures
        ({
            let all = kicks_suffix(records@, opt_view(*user_id), keyword@, 0);
            r@ == if all.len() > limit {
                all.take(limit as int)
            } else {
                all
            }
        }),
{
    let lowered = chars_of(to_lowercase(keyword).as_str());
    let kv = chars_of(keyword);
    let mut out: Vec<KickRecord> = Vec::new();
    let mut k: usize = records.len();
    while k > 0 && out.len() < limit
        invariant
            k <= records@.len(),
            lowered@ == lowercase(keyword@),
            kv@ == keyword@,
            out@ == kicks_suffix(records@, opt_view(*user_id), keyword@, k as int),
            out@.len() <= limit,
        decreases k,
    {
        k = k - 1;
        let r = &records[k];
        let user_ok = match user_id {
            Some(u) => crate::text::str_eq(r.user_id.as_str(), u.as_str()),
            None => true,
        };
        let wanted = user_ok && (kv.len() == 0 || contains_keyword(r.user_name.as_str(), &lowered)
            || contains_keyword(r.reason.as_str(), &lowered));
        if wanted {
            out.push(r.copy());
        }
    }
    proof {
        lemma_kicks_suffix_prefix(records@, opt_view(*user_id), keyword@, 0, k as int);
    }
    out
}

/// One mute in an offender's history.
pub struct ReasonEntry {
    pub reason: String,
    pub duration: u64,
    pub banned_at: i64,
    pub operator_id: String,
    pub record_id: String,
}

/// Per-member mute statistics of a group.
pub struct OffenderHistory {
    pub user_id: String,
    pub user_name: String,
    pub ban_count: u64,
    pub total_duration: u64,
    pub first_ban_at: i64,
    pub last_ban_at: i64,
    pub last_reason: String,
    pub reason_history: Vec<ReasonEntry>,
}

/// `(ban_count, last_ban_at)` of `a` is below that of `b`.
pub open spec fn offender_below(a: OffenderHistory, b: OffenderHistory) -> bool {
    a.ban_count < b.ban_count || (a.ban_count == b.ban_count && a.last_ban_at < b.last_ban_at)
}

/// Index of the first entry with the least `(ban_count, last_ban_at)` among
/// the first `n` (n >= 1).
pub open spec fn least_offender(items: Seq<OffenderHistory>, n: int) -> int
    decreases n,
{
    if n <= 1 {
        0
    } else {
        let m = least_offender(items, n - 1);
        if offender_below(items[n - 1], items[m]) {
            n - 1
        } else {
            m
        }
    }
}

pub open spec fn sat_add(a: u64, b: u64) -> u64 {
    if a + b > u64::MAX {
        u64::MAX
    } else {
        (a + b) as u64
    }
}

/// Position of the first entry of `user` at or after `i`.
pub open spec fn offender_slot_from(items: Seq<OffenderHistory>, user: Seq<char>, i: int) -> Option<int>
    decreases items.len() - i,
{
    if i < 0 || i >= items.len() {
        None
    } else if items[i].user_id@ == user {
        Some(i)
    } else {
        offender_slot_from(items, user, i + 1)
    }
}

/// Position of the entry of `user`.
pub open spec fn offender_slot(items: Seq<OffenderHistory>, user: Seq<char>) -> Option<int> {
    offender_slot_from(items, user, 0)
}

/// `e` is the statistics entry after the mute `record`, starting from
/// `base` (a fresh entry when the member had none).
pub open spec fn offender_updated(e: OffenderHistory, base: Option<OffenderHistory>, record: BanRecord) -> bool {
    let (count, total, first, history) = match base {
        Some(b) => (b.ban_count, b.total_duration, b.first_ban_at, b.reason_history@),
        None => (0u64, 0u64, record.started_at, Seq::<ReasonEntry>::empty()),
    };
    &&& e.user_id@ == record.user_id@
    &&& e.user_name == record.user_name
    &&& e.ban_count == sat_add(count, 1)
    &&& e.total_duration == sat_add(total, record.duration)
    &&& e.first_ban_at == first
    &&& e.last_ban_at == record.started_at
    &&& e.last_reason == record.reason
    &&& e.reason_history@ == history.push(
        ReasonEntry {
            reason: record.reason,
            duration: record.duration,
            banned_at: record.started_at,
            operator_id: record.operator_id,
            record_id: record.record_id,
        },
    )
}

/// `after` is `before` with the mute `record` counted for its member.
pub open spec fn offence_recorded(before: Seq<OffenderHistory>, after: Seq<OffenderHistory>, record: BanRecord) -> bool {
    let p = match offender_slot(before, record.user_id@) {
        Some(i) => i,
        None => before.len() as int,
    };
    &&& after.len() == if p < before.len() {
        before.len() as int
    } else {
        before.len() + 1int
    }
    &&& forall|i: int| 0 <= i < before.len() && i != p ==> #[trigger] after[i] == before[i]
    &&& offender_updated(
        after[p],
        if p < before.len() {
            Some(before[p])
        } else {
            None
        },
        record,
    )
}

/// `items` without its least entry when it holds more than `max`.
pub open spec fn evicted(items: Seq<OffenderHistory>, max: usize) -> Seq<OffenderHistory> {
    if items.len() > max {
        items.remove(least_offender(items, items.len() as int))
    } else {
        items
    }
}

proof fn lemma_least_offender(items: Seq<OffenderHistory>, n: int)
    requires
        1 <= n <= items.len(),
    ensures
        0 <= least_offender(items, n) < n,
        forall|i: int| 0 <= i < n ==> !offender_below(#[trigger] items[i], items[least_offender(items, n)]),
    decreases n,
{
    if n > 1 {
        lemma_least_offender(items, n - 1);
    }
}

/// Counts the mute `record` in its member's statistics.
pub fn record_offence(items: &mut Vec<OffenderHistory>, record: &BanRecord)
    ensures
        offence_recorded(old(items)@, final(items)@, *record),
{
    let ghost before = items@;
    let mut i: usize = 0;
    while i < items.len() && !crate::text::str_eq(items[i].user_id.as_str(), record.user_id.as_str())
        invariant
            i <= items@.len(),
            items@ == before,
            offender_slot(before, record.user_id@) == offender_slot_from(before, record.user_id@, i as int),
        decreases items.len() - i,
    {
        i = i + 1;
    }
    let found: Option<usize> = if i < items.len() {
        Some(i)
    } else {
        None
    };
    let entry = ReasonEntry {
        reason: record.reason.clone(),
        duration: record.duration,
        banned_at: record.started_at,
        operator_id: record.operator_id.clone(),
        record_id: record.record_id.clone(),
    };
    match found {
        Some(j) => {
            let ghost base = items@[j as int];
            let mut e = items.remove(j);
            assert(e == base);
            e.user_name = record.user_name.clone();
            e.ban_count = if e.ban_count < u64::MAX { e.ban_count + 1 } else { u64::MAX };
            e.total_duration = if e.total_duration <= u64::MAX - record.duration {
                e.total_duration + record.duration
            } else {
                u64::MAX
            };
            e.last_ban_at = record.started_at;
            e.last_reason = record.reason.clone();
            e.reason_history.push(entry);
            items.insert(j, e);
            proof {
                assert(offender_slot(before, record.user_id@) == Some(j as int));
                assert forall|k: int| 0 <= k < before.len() && k != j implies #[trigger] items@[k]
                    == before[k] by {}
                assert(items@[j as int] == e);
                assert(offender_updated(e, Some(before[j as int]), *record));
                assert(items@.len() == before.len());
                assert(offence_recorded(before, items@, *record));
            }
        },
        None => {
            let e = OffenderHistory {
                user_id: record.user_id.clone(),
                user_name: record.user_name.clone(),
                ban_count: 1,
                total_duration: record.duration,
                first_ban_at: record.started_at,
                last_ban_at: record.started_at,
                last_reason: record.reason.clone(),
                reason_history: vec![entry],
            };
            assert(e.reason_history@ =~= Seq::<ReasonEntry>::empty().push(entry));
            items.push(e);
            proof {
                assert(offender_slot(before, record.user_id@) is None);
                assert(offender_updated(e, None, *record));
                assert(offence_recorded(before, items@, *record));
            }
        },
    }
}

/// Drops the member with the fewest mutes (the longest ago among equals)
/// when the statistics hold more than `max` members.
pub fn evict_beyond(items: &mut Vec<OffenderHistory>, max: usize)
    ensures
        final(items)@ == evicted(old(items)@, max),
{
    if items.len() <= max {
        return;
    }
    let ghost before = items@;
    let mut m: usize = 0;
    let mut i: usize = 1;
    while i < items.len()
        invariant
            1 <= i <= items@.len(),
            items@ == before,
            m == least_offender(before, i as int),
        decreases items.len() - i,
    {
        proof {
            lemma_least_offender(before, i as int);
        }
        let a = &items[i];
        let b = &items[m];
        if a.ban_count < b.ban_count || (a.ban_count == b.ban_count && a.last_ban_at < b.last_ban_at) {
            m = i;
        }
        i = i + 1;
    }
    proof {
        lemma_least_offender(before, before.len() as int);
    }
    let _ = items.remove(m);
}

/// Counts a mute in its member's statistics, keeping at most `max` members.
pub fn update_offender(items: &mut Vec<OffenderHistory>, record: &BanRecord, max: usize)
    ensures
        exists|mid: Seq<OffenderHistory>|
            offence_recorded(old(items)@, mid, *record) && final(items)@ == evicted(mid, max),
{
    record_offence(items, record);
    let ghost mid = items@;
    evict_beyond(items, max);
    assert(offence_recorded(old(items)@, mid, *record) && items@ == evicted(mid, max));
}

/// What an offender listing sorts by.
#[derive(Clone, Copy, Debug, PartialEq, Eq, Structural)]
pub enum OffenderSort {
    BanCount,
    TotalDuration,
    LastBanAt,
}

/// `total_duration` and `last_ban_at` name their fields; any other word
/// sorts by the number of mutes.
pub open spec fn offender_sort_spec(word: Seq<char>) -> OffenderSort {
    if word == "total_duration"@ {
        OffenderSort::TotalDuration
    } else if word == "last_ban_at"@ {
        OffenderSort::LastBanAt
    } else {
        OffenderSort::BanCount
    }
}

pub fn offender_sort(word: &str) -> (r: OffenderSort)
    ensures
        r == offender_sort_spec(word@),
{
    if crate::text::str_eq(word, "total_duration") {
        OffenderSort::TotalDuration
    } else if crate::text::str_eq(word, "last_ban_at") {
        OffenderSort::LastBanAt
    } else {
        OffenderSort::BanCount
    }
}

/// The sort key of an entry: the field as a signed 64-bit number.
pub open spec fn offender_key(e: OffenderHistory, by: OffenderSort) -> int {
    match by {
        OffenderSort::TotalDuration => (e.total_duration as i64) as int,
        OffenderSort::LastBanAt => e.last_ban_at as int,
        OffenderSort::BanCount => (e.ban_count as i64) as int,
    }
}

fn offender_key_exec(e: &OffenderHistory, by: OffenderSort) -> (r: i64)
    ensures
        r as int == offender_key(*e, by),
{
    match by {
        OffenderSort::TotalDuration => e.total_duration as i64,
        OffenderSort::LastBanAt => e.last_ban_at,
        OffenderSort::BanCount => e.ban_count as i64,
    }
}

/// Entry `a` sorts before entry `b`: a smaller key, or an equal key and an
/// earlier position.
pub open spec fn offender_before(items: Seq<OffenderHistory>, by: OffenderSort, a: int, b: int) -> bool {
    offender_key(items[a], by) < offender_key(items[b], by) || (offender_key(items[a], by)
        == offender_key(items[b], by) && a < b)
}

/// The entry is listed: at least `min_ban_count` mutes, of `user` when one
/// is given, and with `keyword` (when not empty) in its member name or last
/// reason, case-insensitively.
pub open spec fn offender_wanted(e: OffenderHistory, min_ban_count: u64, user: Option<Seq<char>>, keyword: Seq<char>) -> bool {
    &&& e.ban_count >= min_ban_count
    &&& match user {
        Some(u) => e.user_id@ == u,
        None => true,
    }
    &&& lowercase(keyword).len() == 0 || keyword_in(e.user_name@, keyword) || keyword_in(e.last_reason@, keyword)
}

/// `r` lists positions of `items`: the first `limit` wanted entries in the
/// sort order (ascending) or in its reverse (descending).
pub open spec fn offender_listing(
    items: Seq<OffenderHistory>,
    min_ban_count: u64,
    user: Option<Seq<char>>,
    keyword: Seq<char>,
    by: OffenderSort,
    ascending: bool,
    limit: usize,
    r: Seq<usize>,
) -> bool {
    let first = |a: int, b: int|
        if ascending {
            offender_before(items, by, a, b)
        } else {
            offender_before(items, by, b, a)
        };
    &&& r.len() <= limit
    &&& forall|a: int| 0 <= a < r.len() ==> #[trigger] r[a] < items.len() && offender_wanted(
        items[r[a] as int],
        min_ban_count,
        user,
        keyword,
    )
    &&& forall|a: int, b: int| 0 <= a < b < r.len() ==> first(#[trigger] r[a] as int, #[trigger] r[b] as int)
    &&& forall|j: int|
        0 <= j < items.len() && offender_wanted(items[j], min_ban_count, user, keyword) && !r.contains(
            j as usize,
        ) ==> r.len() == limit && forall|a: int| 0 <= a < r.len() ==> first(#[trigger] r[a] as int, j)
}

/// Lists the muted members of a group: the wanted entries (see
/// `offender_wanted`), sorted stably by `by` in the order of `items`,
/// reversed when not `ascending`, at most `limit` of them. The result holds
/// positions in `items`.
pub fn query_offenders(
    items: &Vec<OffenderHistory>,
    user_id: &Option<String>,
    keyword: &str,
    min_ban_count: u64,
    by: OffenderSort,
    ascending: bool,
    limit: usize,
) -> (r: Vec<usize>)
    ensures
        offender_listing(items@, min_ban_count, opt_view(*user_id), keyword@, by, ascending, limit, r@),
{
    let ghost its = items@;
    let ghost user = opt_view(*user_id);
    let lowered = chars_of(to_lowercase(keyword).as_str());
    let n = items.len();
    let mut order: Vec<usize> = Vec::new();
    let mut i: usize = 0;
    while i < n
        invariant
            n == its.len(),
            its == items@,
            user == opt_view(*user_id),
            lowered@ == lowercase(keyword@),
            i <= n,
            forall|a: int| 0 <= a < order@.len() ==> #[trigger] order@[a] < i && offender_wanted(
                its[order@[a] as int],
                min_ban_count,
                user,
                keyword@,
            ),
            forall|a: int, b: int|
                0 <= a < b < order@.len() ==> offender_before(its, by, #[trigger] order@[a] as int, #[trigger] order@[b] as int),
            forall|j: int| 0 <= j < i && offender_wanted(its[j], min_ban_count, user, keyword@) ==> order@.contains(j as usize),
        decreases n - i,
    {
        let e = &items[i];
        let user_ok = match user_id {
            Some(u) => crate::text::str_eq(e.user_id.as_str(), u.as_str()),
            None => true,
        };
        let wanted = e.ban_count >= min_ban_count && user_ok && (lowered.len() == 0 || contains_keyword(
            e.user_name.as_str(),
            &lowered,
        ) || contains_keyword(e.last_reason.as_str(), &lowered));
        if wanted {
            let key = offender_key_exec(e, by);
            let m = order.len();
            let mut p: usize = 0;
            while p < m && offender_key_exec(&items[order[p]], by) <= key
                invariant
                    n == its.len(),
                    its == items@,
                    i < n,
                    key as int == offender_key(its[i as int], by),
                    m == order@.len(),
                    p <= m,
                    forall|a: int| 0 <= a < order@.len() ==> #[trigger] order@[a] < i,
                    forall|q: int| 0 <= q < p ==> offender_before(its, by, #[trigger] order@[q] as int, i as int),
                decreases m - p,
            {
                p = p + 1;
            }
            let ghost old_order = order@;
            proof {
                assert forall|q: int| p <= q < m implies offender_before(its, by, i as int, #[trigger] old_order[q] as int) by {
                    if p < m {
                        assert(offender_key(its[old_order[p as int] as int], by) > key);
                        if q > p {
                            assert(offender_before(its, by, old_order[p as int] as int, old_order[q] as int));
                        }
                    }
                }
            }
            order.insert(p, i);
            proof {
                let o = order@;
                assert(o =~= old_order.insert(p as int, i));
                assert forall|a: int| 0 <= a < o.len() implies #[trigger] o[a] < i + 1 && offender_wanted(
                    its[o[a] as int],
                    min_ban_count,
                    user,
                    keyword@,
                ) by {
                    if a < p {
                        assert(o[a] == old_order[a]);
                    } else if a > p {
                        assert(o[a] == old_order[a - 1]);
                    }
                }
                assert forall|a: int, b: int| 0 <= a < b < o.len() implies offender_before(
                    its,
                    by,
                    #[trigger] o[a] as int,
                    #[trigger] o[b] as int,
                ) by {
                    if a != p && b != p {
                        let oa = if a < p { a } else { a - 1 };
                        let ob = if b < p { b } else { b - 1 };
                        assert(o[a] == old_order[oa]);
                        assert(o[b] == old_order[ob]);
                    } else if a == p {
                        assert(o[b] == old_order[b - 1]);
                    } else {
                        assert(o[a] == old_order[a]);
                    }
                }
                assert forall|j: int| 0 <= j < i + 1 && offender_wanted(its[j], min_ban_count, user, keyword@) implies o.contains(j as usize) by {
                    if j == i {
                        assert(o[p as int] == i);
                    } else {
                        assert(old_order.contains(j as usize));
                        let a = choose|a: int| 0 <= a < old_order.len() && old_order[a] == j as usize;
                        if a < p {
                            assert(o[a] == old_order[a]);
                        } else {
                            assert(o[a + 1] == old_order[a]);
                        }
                    }
                }
            }
        } else {
            proof {
                assert(!offender_wanted(its[i as int], min_ban_count, user, keyword@));
            }
        }
        i = i + 1;
    }
    let total = order.len();
    let take = if total < limit {
        total
    } else {
        limit
    };
    let mut r: Vec<usize> = Vec::new();
    let mut k: usize = 0;
    while k < take
        invariant
            total == order@.len(),
            take <= total,
            take <= limit,
            k <= take,
            r@.len() == k,
            forall|a: int| 0 <= a < k ==> #[trigger] r@[a] == if ascending {
                order@[a]
            } else {
                order@[total - 1 - a]
            },
        decreases take - k,
    {
        if ascending {
            r.push(order[k]);
        } else {
            r.push(order[total - 1 - k]);
        }
        k = k + 1;
    }
    proof {
        let o = order@;
        let first = |a: int, b: int|
            if ascending {
                offender_before(its, by, a, b)
            } else {
                offender_before(its, by, b, a)
            };
        assert forall|a: int, b: int| 0 <= a < b < r@.len() implies first(#[trigger] r@[a] as int, #[trigger] r@[b] as int) by {
            if !ascending {
                assert(offender_before(its, by, o[total - 1 - b] as int, o[total - 1 - a] as int));
            }
        }
        assert forall|j: int|
            0 <= j < its.len() && offender_wanted(its[j], min_ban_count, user, keyword@) && !r@.contains(j as usize)
            implies r@.len() == limit && forall|a: int| 0 <= a < r@.len() ==> first(#[trigger] r@[a] as int, j) by {
            assert(o.contains(j as usize));
            let q = choose|q: int| 0 <= q < o.len() && o[q] == j as usize;
            if ascending {
                if q < take {
                    assert(r@[q] == o[q]);
                }
                assert forall|a: int| 0 <= a < r@.len() implies first(#[trigger] r@[a] as int, j) by {
                    assert(r@[a] == o[a]);
                }
            } else {
                let a0 = total - 1 - q;
                if a0 < take {
                    assert(r@[a0] == o[q]);
                }
                assert forall|a: int| 0 <= a < r@.len() implies first(#[trigger] r@[a] as int, j) by {
                    assert(r@[a] == o[total - 1 - a]);
                }
            }
        }
        assert forall|a: int| 0 <= a < r@.len() implies #[trigger] r@[a] < its.len() && offender_wanted(
            its[r@[a] as int],
            min_ban_count,
            user,
            keyword@,
        ) by {
            if ascending {
                assert(r@[a] == o[a]);
            } else {
                assert(r@[a] == o[total - 1 - a]);
            }
        }
    }
    r
}

/// The line recorded in the group's conversation history for an action.
pub open spec fn management_note_spec(
    action: Seq<char>,
    account_id: Seq<char>,
    member_name: Seq<char>,
    member_id: Seq<char>,
    reason: Seq<char>,
    duration: Option<u64>,
    record_id: Seq<char>,
) -> Seq<char> {
    "[System:群管理行为]\n操作："@ + action + "\n执行者：Miyu（"@ + account_id + "）\n对象："@ + member_name
        + "（"@ + member_id + "）"@ + match duration {
        Some(d) => "\n时长："@ + decimal(d as nat) + " 秒"@,
        None => Seq::empty(),
    } + if reason.len() > 0 {
        "\n原因："@ + reason
    } else {
        Seq::empty()
    } + "\n记录 ID："@ + record_id
}

/// Writes the history line of an action so later turns know what was done.
pub fn management_note(
    action: &str,
    account_id: &str,
    member_name: &str,
    member_id: &str,
    reason: &str,
    duration: Option<u64>,
    record_id: &str,
) -> (r: String)
    ensures
        r@ == management_note_spec(
            action@,
            account_id@,
            member_name@,
            member_id@,
            reason@,
            duration,
            record_id@,
        ),
{
    let mut v: Vec<char> = Vec::new();
    push_str(&mut v, "[System:群管理行为]\n操作：");
    push_str(&mut v, action);
    push_str(&mut v, "\n执行者：Miyu（");
    push_str(&mut v, account_id);
    push_str(&mut v, "）\n对象：");
    push_str(&mut v, member_name);
    push_str(&mut v, "（");
    push_str(&mut v, member_id);
    push_str(&mut v, "）");
    let ghost head = v@;
    match duration {
        Some(d) => {
            push_str(&mut v, "\n时长：");
            let n = u64_decimal(d);
            push_all(&mut v, &n);
            push_str(&mut v, " 秒");
        },
        None => {},
    }
    let ghost with_duration = v@;
    let rv = chars_of(reason);
    if rv.len() > 0 {
        push_str(&mut v, "\n原因：");
        push_all(&mut v, &rv);
    }
    let ghost with_reason = v@;
    push_str(&mut v, "\n记录 ID：");
    push_str(&mut v, record_id);
    proof {
        let d = match duration {
            Some(d) => "\n时长："@ + decimal(d as nat) + " 秒"@,
            None => Seq::<char>::empty(),
        };
        let rs = if reason@.len() > 0 {
            "\n原因："@ + reason@
        } else {
            Seq::<char>::empty()
        };
        assert(with_duration =~= head + d);
        assert(with_reason =~= head + d + rs);
    }
    string_of(&v)
}

/// The external-message key of an action's history line.
pub fn management_note_key(record_id: &str) -> (r: String)
    ensures
        r@ == "qq-management-"@ + record_id@,
{
    let mut v: Vec<char> = Vec::new();
    push_str(&mut v, "qq-management-");
    push_str(&mut v, record_id);
    string_of(&v)
}

/// A group notice the bridge observed.
pub enum GroupNotice {
    /// A mute (`duration` seconds) or unmute (0 or absent).
    Ban { duration: Option<u64> },
    /// A member left; `kicked` when they were removed.
    Decrease { kicked: bool },
    Other,
}

/// What the plugin does with an observed notice.
#[derive(Clone, Copy, Debug, PartialEq, Eq, Structural)]
pub enum NoticeStep {
    Ignore,
    /// Log an external mute of `duration` seconds (0: unmute).
    RecordBan { duration: u64 },
    /// Drop the member from the turn's roster cache, and log the kick when
    /// `record_kick`.
    ForgetMember { record_kick: bool },
}

/// Decides what an observed notice changes. The bot's own actions are
/// already recorded; external unmutes are recorded only when configured.
pub fn notice_step(notice: &GroupNotice, operator_is_bot: bool, settings: &GroupManagementSettings) -> (r:
    NoticeStep)
    ensures
        r == if operator_is_bot {
            NoticeStep::Ignore
        } else {
            match *notice {
                GroupNotice::Ban { duration } => {
                    let d = match duration {
                        Some(d) => d,
                        None => 0,
                    };
                    if !settings.enable_record || (d == 0 && !settings.sync_external_unmute_notice) {
                        NoticeStep::Ignore
                    } else {
                        NoticeStep::RecordBan { duration: d }
                    }
                },
                GroupNotice::Decrease { kicked } => NoticeStep::ForgetMember { record_kick: kicked },
                GroupNotice::Other => NoticeStep::Ignore,
            }
        },
{
    if operator_is_bot {
        return NoticeStep::Ignore;
    }
    match notice {
        GroupNotice::Ban { duration } => {
            let d = match duration {
                Some(d) => *d,
                None => 0,
            };
            if !settings.enable_record || (d == 0 && !settings.sync_external_unmute_notice) {
                NoticeStep::Ignore
            } else {
                NoticeStep::RecordBan { duration: d }
            }
        },
        GroupNotice::Decrease { kicked } => NoticeStep::ForgetMember { record_kick: *kicked },
        GroupNotice::Other => NoticeStep::Ignore,
    }
}

/// The time of an observed notice: its own, or now when that is later.
pub fn notice_time(event_timestamp: i64, now: i64) -> (r: i64)
    ensures
        r == if event_timestamp > now {
            event_timestamp
        } else {
            now
        },
{
    if event_timestamp > now {
        event_timestamp
    } else {
        now
    }
}

} // verus!
