//! OneBot v11 (NapCat / QQ) protocol logic: who is admitted, what wakes the
//! bot in a group, how inbound messages and file names are read, and how
//! connections of one bot account replace each other.
//!
//! Sockets, HTTP and the turn runner belong to the host; it hands this module
//! plain values and acts on what comes back.

use vstd::prelude::*;
use crate::config::OneBotConfig;
use crate::codec::{base64_standard_decode, decode_base64};
use crate::hashing::{sha256_text, sha256_of_text};
use crate::i18n::{text, tr, Language};
use crate::config::{permission_override, PlatformCommandPermission, PlatformsConfig};
use crate::platforms::commands::{
    descriptor, is_allowed, permission_denied_message, reset_usage_message, unknown_command_message,
    ParsedPlatformCommand, RESET_COMMAND_ID,
};
use crate::platforms::rate::{check_spec, RateDecision, RateView, RateWindow};
use crate::text::{
    chars_of, find_chars, find_from, i64_decimal, is_whitespace, is_ws, lemma_find_from,
    lemma_prefix_at, push_all, push_range, push_str, signed_decimal, string_of, trim, trim_bounds,
    trim_start,
};

verus! {

/// Where a message came from.
#[derive(Clone, Copy, Debug, PartialEq, Eq, Structural)]
pub enum Target {
    Private { user_id: i64 },
    Group { group_id: i64 },
}

pub open spec fn target_kind(t: Target) -> Seq<char> {
    match t {
        Target::Private { .. } => "private"@,
        Target::Group { .. } => "group"@,
    }
}

pub open spec fn target_id(t: Target) -> i64 {
    match t {
        Target::Private { user_id } => user_id,
        Target::Group { group_id } => group_id,
    }
}

impl Target {
    pub fn kind(self) -> (r: &'static str)
        ensures
            r@ == target_kind(self),
    {
        match self {
            Target::Private { .. } => "private",
            Target::Group { .. } => "group",
        }
    }

    pub fn conversation_id(self) -> (r: i64)
        ensures
            r == target_id(self),
    {
        match self {
            Target::Private { user_id } => user_id,
            Target::Group { group_id } => group_id,
        }
    }
}

/// `qq:{self_id}:{kind}:{id}`: the conversation bucket of one bot account.
pub open spec fn conversation_key(self_id: i64, t: Target) -> Seq<char> {
    "qq:"@ + signed_decimal(self_id as int) + ":"@ + target_kind(t) + ":"@ + signed_decimal(
        target_id(t) as int,
    )
}

/// `qq:{kind}:{id}`: the key sessions had before accounts were told apart.
pub open spec fn legacy_conversation_key(t: Target) -> Seq<char> {
    "qq:"@ + target_kind(t) + ":"@ + signed_decimal(target_id(t) as int)
}

fn conversation_key_string(self_id: i64, target: Target) -> (r: String)
    ensures
        r@ == conversation_key(self_id, target),
{
    let mut v: Vec<char> = Vec::new();
    push_str(&mut v, "qq:");
    let a = i64_decimal(self_id);
    push_all(&mut v, &a);
    push_str(&mut v, ":");
    push_str(&mut v, target.kind());
    push_str(&mut v, ":");
    let b = i64_decimal(target.conversation_id());
    push_all(&mut v, &b);
    string_of(&v)
}

/// Session-name key of a conversation: group history is shared by the whole
/// group, and the bot account (`self_id` of the event, 0 when absent) keeps
/// several QQ accounts apart.
pub fn session_name_for(target: Target, event_self_id: Option<i64>) -> (r: String)
    ensures
        r@ == conversation_key(
            match event_self_id {
                Some(id) => id,
                None => 0,
            },
            target,
        ),
{
    let self_id = match event_self_id {
        Some(id) => id,
        None => 0,
    };
    conversation_key_string(self_id, target)
}

/// The session name used before accounts were told apart.
pub fn legacy_session_name_for(target: Target) -> (r: String)
    ensures
        r@ == legacy_conversation_key(target),
{
    let mut v: Vec<char> = Vec::new();
    push_str(&mut v, "qq:");
    push_str(&mut v, target.kind());
    push_str(&mut v, ":");
    let b = i64_decimal(target.conversation_id());
    push_all(&mut v, &b);
    string_of(&v)
}

/// Whether a message is answered, and under which rate bucket and limit
/// (no bucket: unlimited).
pub struct Admission {
    pub allowed: bool,
    pub rate_key: Option<String>,
    pub rate_limit: u32,
}

pub open spec fn opt_view(o: Option<String>) -> Option<Seq<char>> {
    match o {
        Some(s) => Some(s@),
        None => None,
    }
}

/// The admission of a message from `user_id` in `target`, as
/// `(allowed, rate key, limit)`: admins and whitelisted private users are
/// unlimited; other private users and every group are limited per
/// conversation.
pub open spec fn admission_spec(config: OneBotConfig, target: Target, self_id: i64, user_id: i64) -> (
    bool,
    Option<Seq<char>>,
    u32,
) {
    if config.admin_users@.contains(user_id) {
        (true, None, 0)
    } else {
        match target {
            Target::Private { user_id: u } => if config.private_chats.whitelist@.contains(u) {
                (true, None, 0)
            } else {
                (
                    config.private_chats.allow_non_whitelist,
                    Some(conversation_key(self_id, target)),
                    config.private_chats.non_whitelist_rate_per_minute,
                )
            },
            Target::Group { group_id } => {
                let listed = config.group_chats.whitelist@.contains(group_id);
                (
                    listed || config.group_chats.allow_non_whitelist,
                    Some(conversation_key(self_id, target)),
                    if listed {
                        config.group_chats.whitelist_rate_per_minute
                    } else {
                        config.group_chats.non_whitelist_rate_per_minute
                    },
                )
            },
        }
    }
}

/// Who is answered: an admin always; in a private chat a whitelisted user,
/// in a group every member of a whitelisted group, whatever the
/// non-whitelist switches say; anyone else exactly when the switch of that
/// kind of chat admits strangers.
pub proof fn admission_follows_the_whitelists(config: OneBotConfig, target: Target, self_id: i64, user_id: i64)
    ensures
        config.admin_users@.contains(user_id) ==> admission_spec(config, target, self_id, user_id).0,
        (target matches Target::Group { group_id } && config.group_chats.whitelist@.contains(group_id))
            ==> admission_spec(config, target, self_id, user_id).0,
        (target matches Target::Private { user_id: u } && config.private_chats.whitelist@.contains(u))
            ==> admission_spec(config, target, self_id, user_id).0,
        !config.admin_users@.contains(user_id) ==> ((target matches Target::Group { group_id }
            && !config.group_chats.whitelist@.contains(group_id)) ==> admission_spec(
            config,
            target,
            self_id,
            user_id,
        ).0 == config.group_chats.allow_non_whitelist),
        !config.admin_users@.contains(user_id) ==> ((target matches Target::Private { user_id: u }
            && !config.private_chats.whitelist@.contains(u)) ==> admission_spec(
            config,
            target,
            self_id,
            user_id,
        ).0 == config.private_chats.allow_non_whitelist),
{
}

fn contains_id(v: &Vec<i64>, x: i64) -> (r: bool)
    ensures
        r == v@.contains(x),
{
    let mut i: usize = 0;
    while i < v.len()
        invariant
            i <= v@.len(),
            forall|k: int| 0 <= k < i ==> v@[k] != x,
        decreases v.len() - i,
    {
        if v[i] == x {
            return true;
        }
        i = i + 1;
    }
    false
}

pub fn admission_for(config: &OneBotConfig, target: Target, self_id: i64, user_id: i64) -> (r:
    Admission)
    ensures
        (r.allowed, opt_view(r.rate_key), r.rate_limit) == admission_spec(
            *config,
            target,
            self_id,
            user_id,
        ),
{
    if contains_id(&config.admin_users, user_id) {
        return Admission { allowed: true, rate_key: None, rate_limit: 0 };
    }
    match target {
        Target::Private { user_id: u } => {
            if contains_id(&config.private_chats.whitelist, u) {
                Admission { allowed: true, rate_key: None, rate_limit: 0 }
            } else {
                Admission {
                    allowed: config.private_chats.allow_non_whitelist,
                    rate_key: Some(conversation_key_string(self_id, target)),
                    rate_limit: config.private_chats.non_whitelist_rate_per_minute,
                }
            }
        },
        Target::Group { group_id } => {
            let listed = contains_id(&config.group_chats.whitelist, group_id);
            Admission {
                allowed: listed || config.group_chats.allow_non_whitelist,
                rate_key: Some(conversation_key_string(self_id, target)),
                rate_limit: if listed {
                    config.group_chats.whitelist_rate_per_minute
                } else {
                    config.group_chats.non_whitelist_rate_per_minute
                },
            }
        },
    }
}

/// Longest a stored file name may be, in characters.
pub const MAX_FILE_NAME_CHARS: usize = 120;

pub open spec fn is_path_sep(c: char) -> bool {
    c == '/' || c == '\\'
}

pub open spec fn is_line_control(c: char) -> bool {
    c == '\0' || c == '\n' || c == '\r'
}

/// Start of the last path component of `s[..n]`.
pub open spec fn last_component_start(s: Seq<char>, n: int) -> int
    decreases n,
{
    if n <= 0 {
        0
    } else if is_path_sep(s[n - 1]) {
        n
    } else {
        last_component_start(s, n - 1)
    }
}

/// What follows the last `/` or `\` of `s`.
pub open spec fn last_component(s: Seq<char>) -> Seq<char> {
    s.skip(last_component_start(s, s.len() as int))
}

/// `s` without NUL, line feed and carriage return.
pub open spec fn drop_line_controls(s: Seq<char>) -> Seq<char>
    decreases s.len(),
{
    if s.len() == 0 {
        s
    } else if is_line_control(s.last()) {
        drop_line_controls(s.drop_last())
    } else {
        drop_line_controls(s.drop_last()).push(s.last())
    }
}

/// The name an inbound file is stored under: its last path component,
/// without line controls, trimmed, cut to `MAX_FILE_NAME_CHARS`; `file` when
/// nothing usable is left.
pub open spec fn sanitize_file_name_spec(name: Seq<char>) -> Seq<char> {
    let t = trim(drop_line_controls(last_component(name)));
    if t.len() == 0 || t == "."@ || t == ".."@ {
        "file"@
    } else if t.len() > MAX_FILE_NAME_CHARS {
        t.take(MAX_FILE_NAME_CHARS as int)
    } else {
        t
    }
}

proof fn lemma_last_component_start(s: Seq<char>, n: int)
    requires
        0 <= n <= s.len(),
    ensures
        0 <= last_component_start(s, n) <= n,
        forall|k: int| last_component_start(s, n) <= k < n ==> !is_path_sep(#[trigger] s[k]),
        last_component_start(s, n) == 0 || is_path_sep(s[last_component_start(s, n) - 1]),
    decreases n,
{
    if n > 0 && !is_path_sep(s[n - 1]) {
        lemma_last_component_start(s, n - 1);
    }
}

proof fn lemma_drop_line_controls(s: Seq<char>)
    ensures
        forall|k: int|
            0 <= k < drop_line_controls(s).len() ==> !is_line_control(
                #[trigger] drop_line_controls(s)[k],
            ) && s.contains(drop_line_controls(s)[k]),
    decreases s.len(),
{
    if s.len() > 0 {
        let p = s.drop_last();
        lemma_drop_line_controls(p);
        let d = drop_line_controls(s);
        assert forall|k: int| 0 <= k < d.len() implies !is_line_control(#[trigger] d[k]) && s.contains(
            d[k],
        ) by {
            if k < drop_line_controls(p).len() {
                let c = drop_line_controls(p)[k];
                assert(p.contains(c));
                let j = choose|j: int| 0 <= j < p.len() && p[j] == c;
                assert(s[j] == c);
            } else {
                assert(d[k] == s.last());
                assert(s[s.len() - 1] == s.last());
            }
        }
    }
}

proof fn lemma_trim_start_skips(s: Seq<char>) -> (a: int)
    ensures
        0 <= a <= s.len(),
        trim_start(s) == s.skip(a),
    decreases s.len(),
{
    if s.len() > 0 && is_ws(s[0]) {
        let a = lemma_trim_start_skips(s.drop_first());
        assert(s.drop_first().skip(a) =~= s.skip(a + 1));
        a + 1
    } else {
        assert(s.skip(0) =~= s);
        0
    }
}

proof fn lemma_trim_end_takes(s: Seq<char>) -> (b: int)
    ensures
        0 <= b <= s.len(),
        crate::text::trim_end(s) == s.take(b),
    decreases s.len(),
{
    if s.len() > 0 && is_ws(s.last()) {
        let b = lemma_trim_end_takes(s.drop_last());
        assert(s.drop_last().take(b) =~= s.take(b));
        b
    } else {
        assert(s.take(s.len() as int) =~= s);
        s.len() as int
    }
}

proof fn lemma_trim_within(s: Seq<char>) -> (r: (int, int))
    ensures
        0 <= r.0 <= r.1 <= s.len(),
        trim(s) == s.subrange(r.0, r.1),
{
    let a = lemma_trim_start_skips(s);
    let t = s.skip(a);
    let b = lemma_trim_end_takes(t);
    assert(t.take(b) =~= s.subrange(a, a + b));
    (a, a + b)
}

/// A stored file name is never empty, never longer than
/// `MAX_FILE_NAME_CHARS`, never `.` or `..`, and holds no path separator
/// and no line control: it cannot leave the storage directory.
pub proof fn sanitized_file_names_stay_in_place(name: Seq<char>)
    ensures
        0 < sanitize_file_name_spec(name).len() <= MAX_FILE_NAME_CHARS,
        sanitize_file_name_spec(name) != "."@,
        sanitize_file_name_spec(name) != ".."@,
        forall|k: int|
            0 <= k < sanitize_file_name_spec(name).len() ==> !is_path_sep(
                #[trigger] sanitize_file_name_spec(name)[k],
            ) && !is_line_control(sanitize_file_name_spec(name)[k]),
{
    reveal_strlit("file");
    reveal_strlit(".");
    reveal_strlit("..");
    let c = last_component(name);
    lemma_last_component_start(name, name.len() as int);
    let d = drop_line_controls(c);
    lemma_drop_line_controls(c);
    let t = trim(d);
    let (a, b) = lemma_trim_within(d);
    let r = sanitize_file_name_spec(name);
    assert forall|k: int| 0 <= k < t.len() implies !is_path_sep(#[trigger] t[k]) && !is_line_control(
        t[k],
    ) by {
        assert(t[k] == d[a + k]);
        assert(c.contains(d[a + k]));
        let j = choose|j: int| 0 <= j < c.len() && c[j] == d[a + k];
        assert(c[j] == name[last_component_start(name, name.len() as int) + j]);
    }
    assert("."@.len() == 1);
    assert("file"@.len() == 4);
    if !(t.len() == 0 || t == "."@ || t == ".."@) {
        if t.len() > MAX_FILE_NAME_CHARS {
            assert forall|k: int| 0 <= k < r.len() implies !is_path_sep(#[trigger] r[k])
                && !is_line_control(r[k]) by {
                assert(r[k] == t[k]);
            }
            assert(r.len() == MAX_FILE_NAME_CHARS);
        }
    }
}

fn drop_line_controls_in(v: &Vec<char>, lo: usize) -> (r: Vec<char>)
    requires
        lo <= v@.len(),
    ensures
        r@ == drop_line_controls(v@.skip(lo as int)),
{
    let ghost s = v@.skip(lo as int);
    let mut out: Vec<char> = Vec::new();
    let mut i: usize = lo;
    assert(s.take(0) =~= Seq::<char>::empty());
    while i < v.len()
        invariant
            lo <= i <= v@.len(),
            s == v@.skip(lo as int),
            out@ == drop_line_controls(s.take(i - lo)),
        decreases v.len() - i,
    {
        let c = v[i];
        assert(s.take(i - lo + 1).drop_last() =~= s.take(i - lo));
        assert(s.take(i - lo + 1).last() == c);
        if !(c == '\0' || c == '\n' || c == '\r') {
            out.push(c);
        }
        i = i + 1;
    }
    assert(s.take(i - lo) =~= s);
    out
}

/// The name an inbound file is stored under.
pub fn sanitize_file_name(name: &str) -> (r: String)
    ensures
        r@ == sanitize_file_name_spec(name@),
{
    let v = chars_of(name);
    let mut start: usize = v.len();
    while start > 0 && !(v[start - 1] == '/' || v[start - 1] == '\\')
        invariant
            start <= v@.len(),
            last_component_start(v@, v@.len() as int) == last_component_start(v@, start as int),
        decreases start,
    {
        start = start - 1;
    }
    let d = drop_line_controls_in(&v, start);
    let (a, b) = trim_bounds(&d, 0, d.len());
    assert(d@.subrange(0, d@.len() as int) =~= d@);
    let mut t: Vec<char> = Vec::new();
    push_range(&mut t, &d, a, b);
    assert(t@ =~= d@.subrange(a as int, b as int));
    let dot = chars_of(".");
    let dots = chars_of("..");
    if t.len() == 0 || crate::text::chars_eq(&t, &dot) || crate::text::chars_eq(&t, &dots) {
        let mut f: Vec<char> = Vec::new();
        push_str(&mut f, "file");
        return string_of(&f);
    }
    if t.len() > MAX_FILE_NAME_CHARS {
        let mut out: Vec<char> = Vec::new();
        push_range(&mut out, &t, 0, MAX_FILE_NAME_CHARS);
        assert(out@ =~= t@.take(MAX_FILE_NAME_CHARS as int));
        string_of(&out)
    } else {
        string_of(&t)
    }
}

/// An image of an inbound message: a URL to fetch, or inline bytes.
pub enum MediaRef {
    Url(String),
    Bytes(Vec<u8>),
}

/// A file attached to an inbound message.
pub struct FileRef {
    pub file_id: Option<String>,
    pub name: String,
    pub url: Option<String>,
}

/// What a turn takes from an inbound message.
pub struct InboundMessage {
    pub text: String,
    pub images: Vec<MediaRef>,
    pub files: Vec<FileRef>,
    pub at_self: bool,
}

/// Characters skipped between a wake keyword and the request.
pub open spec fn is_wake_separator(c: char) -> bool {
    is_ws(c) || c == ':' || c == '：' || c == ',' || c == '，'
}

pub open spec fn trim_wake_start(s: Seq<char>) -> Seq<char>
    decreases s.len(),
{
    if s.len() > 0 && is_wake_separator(s[0]) {
        trim_wake_start(s.drop_first())
    } else {
        s
    }
}

/// Length of the longest of the first `n` keywords that `text` starts with.
pub open spec fn longest_keyword(text: Seq<char>, keywords: Seq<String>, n: int) -> Option<nat>
    decreases n,
{
    if n <= 0 {
        None
    } else {
        let prev = longest_keyword(text, keywords, n - 1);
        let k = keywords[n - 1]@;
        if crate::text::has_prefix(text, k) && (prev is None || prev->0 <= k.len()) {
            Some(k.len())
        } else {
            prev
        }
    }
}

/// Group wake check: the whole text when the bot is @-mentioned; else the
/// text after the longest wake keyword it starts with (leading whitespace
/// ignored) and the separators that follow; `None` keeps the bot silent.
pub open spec fn group_trigger_spec(keywords: Seq<String>, text: Seq<char>, at_self: bool) -> Option<
    Seq<char>,
> {
    if at_self {
        Some(text)
    } else {
        let t = trim_start(text);
        match longest_keyword(t, keywords, keywords.len() as int) {
            Some(l) => Some(trim_wake_start(t.skip(l as int))),
            None => None,
        }
    }
}

proof fn lemma_longest_keyword_bound(text: Seq<char>, keywords: Seq<String>, n: int)
    ensures
        longest_keyword(text, keywords, n) matches Some(l) ==> l <= text.len(),
    decreases n,
{
    if n > 0 {
        lemma_longest_keyword_bound(text, keywords, n - 1);
    }
}

fn is_wake_separator_char(c: char) -> (r: bool)
    ensures
        r == is_wake_separator(c),
{
    is_whitespace(c) || c == ':' || c == '：' || c == ',' || c == '，'
}

/// `Some(text)` when the message wakes the bot in a group, with any wake
/// keyword already stripped; `None` when it stays silent.
pub fn group_trigger_text(config: &OneBotConfig, parsed: &InboundMessage) -> (r: Option<String>)
    ensures
        opt_view(r) == group_trigger_spec(
            config.group_chats.trigger_keywords@,
            parsed.text@,
            parsed.at_self,
        ),
{
    if parsed.at_self {
        return Some(parsed.text.clone());
    }
    let v = chars_of(parsed.text.as_str());
    let a = crate::text::skip_ws(&v, 0, v.len());
    assert(v@.subrange(0, v@.len() as int) =~= v@);
    let ghost t = v@.skip(a as int);
    assert(t =~= v@.subrange(a as int, v@.len() as int));
    let keywords = &config.group_chats.trigger_keywords;
    let mut best: Option<usize> = None;
    let mut i: usize = 0;
    while i < keywords.len()
        invariant
            i <= keywords@.len(),
            a <= v@.len(),
            t == v@.skip(a as int),
            keywords == &config.group_chats.trigger_keywords,
            match best {
                Some(l) => longest_keyword(t, keywords@, i as int) == Some(l as nat),
                None => longest_keyword(t, keywords@, i as int) is None,
            },
        decreases keywords.len() - i,
    {
        let k = chars_of(keywords[i].as_str());
        if crate::text::starts_with_at(&v, a, &k) {
            let better = match best {
                Some(l) => l <= k.len(),
                None => true,
            };
            if better {
                best = Some(k.len());
            }
        }
        i = i + 1;
    }
    let l = match best {
        Some(l) => l,
        None => return None,
    };
    proof {
        lemma_longest_keyword_bound(t, keywords@, keywords@.len() as int);
    }
    let mut j: usize = a + l;
    assert(t.skip(l as int) =~= v@.skip(j as int));
    while j < v.len() && is_wake_separator_char(v[j])
        invariant
            a + l <= j <= v@.len(),
            trim_wake_start(t.skip(l as int)) == trim_wake_start(v@.skip(j as int)),
        decreases v.len() - j,
    {
        assert(v@.skip(j as int).drop_first() =~= v@.skip(j + 1));
        j = j + 1;
    }
    let mut out: Vec<char> = Vec::new();
    push_range(&mut out, &v, j, v.len());
    assert(out@ =~= v@.skip(j as int));
    Some(string_of(&out))
}

/// `s` with every occurrence of `p` from position `i` on replaced by `r`,
/// scanning left to right without overlap (`str::replace`).
pub open spec fn replace_from(s: Seq<char>, p: Seq<char>, r: Seq<char>, i: int) -> Seq<char>
    decreases s.len() - i,
{
    if i < 0 || i >= s.len() {
        Seq::empty()
    } else if p.len() > 0 && i + p.len() <= s.len() && s.subrange(i, i + p.len()) == p {
        r + replace_from(s, p, r, i + p.len())
    } else {
        seq![s[i]] + replace_from(s, p, r, i + 1)
    }
}

pub open spec fn replace_all(s: Seq<char>, p: Seq<char>, r: Seq<char>) -> Seq<char> {
    replace_from(s, p, r, 0)
}

/// CQ-code unescaping: `&#91;` to `[`, then `&#93;` to `]`, then `&amp;`
/// to `&`.
pub open spec fn decode_cq_spec(s: Seq<char>) -> Seq<char> {
    replace_all(replace_all(replace_all(s, "&#91;"@, "["@), "&#93;"@, "]"@), "&amp;"@, "&"@)
}

fn replace_chars(v: &Vec<char>, p: &str, r: &str) -> (out: Vec<char>)
    ensures
        out@ == replace_all(v@, p@, r@),
{
    let pc = chars_of(p);
    let mut out: Vec<char> = Vec::new();
    let mut i: usize = 0;
    while i < v.len()
        invariant
            i <= v@.len(),
            pc@ == p@,
            out@ + replace_from(v@, p@, r@, i as int) == replace_all(v@, p@, r@),
        decreases v.len() - i,
    {
        proof {
            lemma_prefix_at(v@, i as int, p@);
        }
        if pc.len() > 0 && crate::text::starts_with_at(v, i, &pc) {
            let ghost before = out@;
            push_str(&mut out, r);
            i = i + pc.len();
            assert(before + (r@ + replace_from(v@, p@, r@, i as int)) =~= out@ + replace_from(
                v@,
                p@,
                r@,
                i as int,
            ));
        } else {
            let ghost before = out@;
            out.push(v[i]);
            i = i + 1;
            assert(before + (seq![v@[i - 1]] + replace_from(v@, p@, r@, i as int)) =~= out@
                + replace_from(v@, p@, r@, i as int));
        }
    }
    assert(out@ + replace_from(v@, p@, r@, i as int) =~= out@);
    out
}

fn decode_cq_chars(v: &Vec<char>) -> (out: Vec<char>)
    ensures
        out@ == decode_cq_spec(v@),
{
    let a = replace_chars(v, "&#91;", "[");
    let b = replace_chars(&a, "&#93;", "]");
    replace_chars(&b, "&amp;", "&")
}

/// Unescapes the text between CQ codes.
pub fn decode_cq_text(text: &str) -> (r: String)
    ensures
        r@ == decode_cq_spec(text@),
{
    let v = chars_of(text);
    string_of(&decode_cq_chars(&v))
}

/// `f` is one of the comma-separated fields of `s` (for `f` without commas).
pub open spec fn has_field(s: Seq<char>, f: Seq<char>) -> bool {
    find_from(seq![','] + s + seq![','], seq![','] + f + seq![','], 0) >= 0
}

/// A CQ code body `at,...` whose `qq=` field names the bot.
pub open spec fn mentions_self(body: Seq<char>, me: Seq<char>) -> bool {
    &&& crate::text::has_prefix(body, "at,"@)
    &&& has_field(body.skip(3), "qq="@ + me)
}

/// Text and mention found in the CQ-coded string `s` from position `i` on:
/// the decoded text between codes, and whether some `[CQ:at,...]` names the
/// bot. An unterminated code is kept as text.
pub open spec fn cq_parse_from(s: Seq<char>, me: Seq<char>, i: int) -> (Seq<char>, bool)
    decreases s.len() - i,
{
    if i < 0 || i > s.len() {
        (Seq::empty(), false)
    } else {
        let st = find_from(s, "[CQ:"@, i);
        if st < 0 {
            (decode_cq_spec(s.subrange(i, s.len() as int)), false)
        } else {
            let e = find_from(s, "]"@, st + 4);
            if e < 0 {
                (
                    decode_cq_spec(s.subrange(i, st)) + decode_cq_spec(
                        s.subrange(st, s.len() as int),
                    ),
                    false,
                )
            } else {
                proof {
                    reveal_strlit("[CQ:");
                    reveal_strlit("]");
                    lemma_find_from(s, "[CQ:"@, i);
                    lemma_find_from(s, "]"@, st + 4);
                }
                let rest = cq_parse_from(s, me, e + 1);
                (
                    decode_cq_spec(s.subrange(i, st)) + rest.0,
                    mentions_self(s.subrange(st + 4, e), me) || rest.1,
                )
            }
        }
    }
}

/// Whether the CQ code body mentions the bot.
fn body_mentions_self(v: &Vec<char>, lo: usize, hi: usize, me: &Vec<char>) -> (r: bool)
    requires
        lo <= hi <= v@.len(),
    ensures
        r == mentions_self(v@.subrange(lo as int, hi as int), me@),
{
    let ghost body = v@.subrange(lo as int, hi as int);
    let at = chars_of("at,");
    proof {
        reveal_strlit("at,");
    }
    if !crate::text::has_prefix_in(v, lo, hi, &at) {
        return false;
    }
    let mut hay: Vec<char> = Vec::new();
    hay.push(',');
    push_range(&mut hay, v, lo + 3, hi);
    hay.push(',');
    let mut needle: Vec<char> = Vec::new();
    needle.push(',');
    push_str(&mut needle, "qq=");
    push_all(&mut needle, me);
    needle.push(',');
    assert(hay@ =~= seq![','] + body.skip(3) + seq![',']);
    assert(needle@ =~= seq![','] + ("qq="@ + me@) + seq![',']);
    match find_chars(&hay, &needle, 0) {
        Some(_) => true,
        None => false,
    }
}

/// Reads a raw CQ-coded message: the text between codes, and whether an
/// `[CQ:at,...]` code names the bot `self_id`.
pub fn parse_cq_string(raw: &str, self_id: i64) -> (r: InboundMessage)
    ensures
        (r.text@, r.at_self) == cq_parse_from(raw@, signed_decimal(self_id as int), 0),
        r.images@.len() == 0,
        r.files@.len() == 0,
{
    let v = chars_of(raw);
    let me = i64_decimal(self_id);
    let open = chars_of("[CQ:");
    let close = chars_of("]");
    proof {
        reveal_strlit("[CQ:");
        reveal_strlit("]");
    }
    let ghost whole = cq_parse_from(v@, me@, 0);
    let n = v.len();
    let mut text: Vec<char> = Vec::new();
    let mut at_self = false;
    let mut i: usize = 0;
    loop
        invariant_except_break
            i <= v@.len(),
            n == v@.len(),
            open@ == "[CQ:"@,
            close@ == "]"@,
            text@ + cq_parse_from(v@, me@, i as int).0 == whole.0,
            (at_self || cq_parse_from(v@, me@, i as int).1) == whole.1,
        ensures
            text@ == whole.0,
            at_self == whole.1,
        decreases v@.len() - i,
    {
        match find_chars(&v, &open, i) {
            None => {
                let mut tail: Vec<char> = Vec::new();
                push_range(&mut tail, &v, i, v.len());
                let d = decode_cq_chars(&tail);
                push_all(&mut text, &d);
                break;
            },
            Some(st) => {
                proof {
                    reveal_strlit("[CQ:");
                    assert(open@.len() == 4);
                    lemma_find_from(v@, open@, i as int);
                }
                let mut head: Vec<char> = Vec::new();
                push_range(&mut head, &v, i, st);
                let dh = decode_cq_chars(&head);
                match find_chars(&v, &close, st + 4) {
                    None => {
                        push_all(&mut text, &dh);
                        let mut tail: Vec<char> = Vec::new();
                        push_range(&mut tail, &v, st, v.len());
                        let dt = decode_cq_chars(&tail);
                        push_all(&mut text, &dt);
                        proof {
                            assert(text@ =~= whole.0);
                        }
                        break;
                    },
                    Some(e) => {
                        proof {
                            reveal_strlit("]");
                            assert(close@.len() == 1);
                            lemma_find_from(v@, close@, st + 4);
                        }
                        let ghost before = text@;
                        push_all(&mut text, &dh);
                        if body_mentions_self(&v, st + 4, e, &me) {
                            at_self = true;
                        }
                        i = e + 1;
                        proof {
                            assert(before + (dh@ + cq_parse_from(v@, me@, i as int).0) =~= text@
                                + cq_parse_from(v@, me@, i as int).0);
                        }
                    },
                }
            },
        }
    }
    InboundMessage { text: string_of(&text), images: Vec::new(), files: Vec::new(), at_self }
}

/// Images a single message may carry into a turn.
pub const MAX_INBOUND_IMAGES: usize = 4;

/// Files a single message may carry into a turn.
pub const MAX_INBOUND_FILES: usize = 4;

/// Largest inline image accepted, in bytes.
pub const MAX_INBOUND_IMAGE_BYTES: usize = 10485760;

/// Longest base64 text that can decode to an accepted inline image.
pub const MAX_ENCODED_IMAGE_CHARS: usize = (MAX_INBOUND_IMAGE_BYTES + 4) / 3 * 4;

/// One segment of an inbound OneBot message, with the fields the bridge
/// reads (`None` where the event lacks a field or it is not a string).
pub enum InboundSegment {
    Text { text: Option<String> },
    Image { file: Option<String>, url: Option<String> },
    /// `qq` is the mentioned account, numbers written in decimal.
    At { qq: Option<String> },
    File {
        file_id: Option<String>,
        file_name: Option<String>,
        name: Option<String>,
        file: Option<String>,
        url: Option<String>,
    },
    /// reply, face, record, ...: no turn input.
    Other,
}

/// The `message` field of an inbound event.
pub enum InboundPayload {
    Segments(Vec<InboundSegment>),
    Text(String),
    /// Absent, or neither an array nor a string.
    Missing,
}

/// An image as `(url, bytes)`: exactly one of them is present.
pub type MediaView = (Option<Seq<char>>, Option<Seq<u8>>);

/// A file as `(file_id, name, url)`.
pub type FileView = (Option<Seq<char>>, Seq<char>, Option<Seq<char>>);

/// A parsed message as `(text, images, files, at_self)`.
pub type InboundView = (Seq<char>, Seq<MediaView>, Seq<FileView>, bool);

pub open spec fn media_view(m: MediaRef) -> MediaView {
    match m {
        MediaRef::Url(u) => (Some(u@), None),
        MediaRef::Bytes(b) => (None, Some(b@)),
    }
}

pub open spec fn media_views(v: Seq<MediaRef>) -> Seq<MediaView> {
    v.map_values(|m: MediaRef| media_view(m))
}

pub open spec fn file_view(f: FileRef) -> FileView {
    (opt_view(f.file_id), f.name@, opt_view(f.url))
}

pub open spec fn file_views(v: Seq<FileRef>) -> Seq<FileView> {
    v.map_values(|f: FileRef| file_view(f))
}

pub open spec fn inbound_view(m: InboundMessage) -> InboundView {
    (m.text@, media_views(m.images@), file_views(m.files@), m.at_self)
}

pub open spec fn or_empty(o: Option<Seq<char>>) -> Seq<char> {
    match o {
        Some(s) => s,
        None => Seq::empty(),
    }
}

/// `o`, kept only when it starts with `http`.
pub open spec fn http_only(o: Option<Seq<char>>) -> Option<Seq<char>> {
    match o {
        Some(u) => if crate::text::has_prefix(u, "http"@) {
            Some(u)
        } else {
            None
        },
        None => None,
    }
}

/// `str::len`: the length of the UTF-8 encoding, in bytes.
pub open spec fn str_len(s: Seq<char>) -> usize {
    vstd::utf8::encode_utf8(s).len() as usize
}

/// The image an image segment contributes: inline `base64://` data that
/// decodes to at most `MAX_INBOUND_IMAGE_BYTES`, else an `http` URL (the
/// `url` field, then the `file` field).
pub open spec fn image_of(file: Option<Seq<char>>, url: Option<Seq<char>>) -> Option<MediaView> {
    let f = or_empty(file);
    if crate::text::has_prefix(f, "base64://"@) {
        let encoded = f.skip(9);
        if str_len(encoded) <= MAX_ENCODED_IMAGE_CHARS {
            match base64_standard_decode(encoded) {
                Some(b) => if b.len() <= MAX_INBOUND_IMAGE_BYTES {
                    Some((None, Some(b)))
                } else {
                    None
                },
                None => None,
            }
        } else {
            None
        }
    } else {
        match http_only(url) {
            Some(u) => Some((Some(u), None)),
            None => match http_only(Some(f)) {
                Some(u) => Some((Some(u), None)),
                None => None,
            },
        }
    }
}

/// The file a file segment contributes.
pub open spec fn file_of(
    file_id: Option<Seq<char>>,
    file_name: Option<Seq<char>>,
    name: Option<Seq<char>>,
    file: Option<Seq<char>>,
    url: Option<Seq<char>>,
) -> FileView {
    let n = match file_name {
        Some(n) => n,
        None => match name {
            Some(n) => n,
            None => match file {
                Some(n) => n,
                None => "file"@,
            },
        },
    };
    (file_id, n, http_only(url))
}

/// The first `n` segments read in order: text concatenated, at most
/// `MAX_INBOUND_IMAGES` images and `MAX_INBOUND_FILES` files, and whether
/// some `at` segment names the bot `me`.
pub open spec fn segments_view(segs: Seq<InboundSegment>, me: Seq<char>, n: int) -> InboundView
    decreases n,
{
    if n <= 0 {
        (Seq::empty(), Seq::empty(), Seq::empty(), false)
    } else {
        let p = segments_view(segs, me, n - 1);
        match segs[n - 1] {
            InboundSegment::Text { text } => (p.0 + or_empty(opt_view(text)), p.1, p.2, p.3),
            InboundSegment::Image { file, url } => if p.1.len() >= MAX_INBOUND_IMAGES {
                p
            } else {
                match image_of(opt_view(file), opt_view(url)) {
                    Some(m) => (p.0, p.1.push(m), p.2, p.3),
                    None => p,
                }
            },
            InboundSegment::At { qq } => if opt_view(qq) == Some(me) {
                (p.0, p.1, p.2, true)
            } else {
                p
            },
            InboundSegment::File { file_id, file_name, name, file, url } => if p.2.len()
                >= MAX_INBOUND_FILES {
                p
            } else {
                (
                    p.0,
                    p.1,
                    p.2.push(
                        file_of(
                            opt_view(file_id),
                            opt_view(file_name),
                            opt_view(name),
                            opt_view(file),
                            opt_view(url),
                        ),
                    ),
                    p.3,
                )
            },
            InboundSegment::Other => p,
        }
    }
}

proof fn lemma_segments_view_prefix(a: Seq<InboundSegment>, b: Seq<InboundSegment>, me: Seq<char>, k: int)
    requires
        0 <= k <= a.len(),
    ensures
        segments_view(a + b, me, k) == segments_view(a, me, k),
    decreases k,
{
    if k > 0 {
        lemma_segments_view_prefix(a, b, me, k - 1);
        assert((a + b)[k - 1] == a[k - 1]);
    }
}

proof fn lemma_segments_text_suffix(a: Seq<InboundSegment>, b: Seq<InboundSegment>, me: Seq<char>, j: int)
    requires
        0 <= j <= b.len(),
    ensures
        segments_view(a + b, me, a.len() + j).0 == segments_view(a, me, a.len() as int).0 + segments_view(
            b,
            me,
            j,
        ).0,
    decreases j,
{
    if j == 0 {
        lemma_segments_view_prefix(a, b, me, a.len() as int);
        assert(segments_view(a, me, a.len() as int).0 + Seq::<char>::empty() =~= segments_view(
            a,
            me,
            a.len() as int,
        ).0);
    } else {
        lemma_segments_text_suffix(a, b, me, j - 1);
        assert((a + b)[a.len() + j - 1] == b[j - 1]);
        let x = segments_view(a, me, a.len() as int).0;
        let y = segments_view(b, me, j - 1).0;
        match b[j - 1] {
            InboundSegment::Text { text } => {
                assert(x + y + or_empty(opt_view(text)) =~= x + (y + or_empty(opt_view(text))));
            },
            _ => {},
        }
    }
}

proof fn lemma_single_segment_text(seg: InboundSegment, me: Seq<char>)
    ensures
        segments_view(seq![seg], me, 1).0 == match seg {
            InboundSegment::Text { text } => or_empty(opt_view(text)),
            _ => Seq::<char>::empty(),
        },
{
    let one = seq![seg];
    assert(one[0] == seg);
    let p = segments_view(one, me, 0);
    assert(p.0 == Seq::<char>::empty());
    match seg {
        InboundSegment::Text { text } => {
            assert(p.0 + or_empty(opt_view(text)) =~= or_empty(opt_view(text)));
        },
        InboundSegment::Image { file, url } => {},
        InboundSegment::At { qq } => {},
        InboundSegment::File { .. } => {},
        InboundSegment::Other => {},
    }
}

/// The text of a segment array is every text segment's text, in order: a
/// text segment contributes its text, any other segment none, and the text
/// of two arrays one after the other is their texts one after the other.
pub proof fn parsed_text_joins_text_segments(a: Seq<InboundSegment>, b: Seq<InboundSegment>, me: Seq<char>, seg: InboundSegment)
    ensures
        segments_view(a + b, me, (a + b).len() as int).0 == segments_view(a, me, a.len() as int).0
            + segments_view(b, me, b.len() as int).0,
        seg matches InboundSegment::Text { text } ==> segments_view(seq![seg], me, 1).0 == or_empty(
            opt_view(text),
        ),
        !(seg is Text) ==> segments_view(seq![seg], me, 1).0 == Seq::<char>::empty(),
{
    lemma_segments_text_suffix(a, b, me, b.len() as int);
    lemma_single_segment_text(seg, me);
}

/// A parsed message: segments when the event carries an array, else the
/// CQ-coded string of `message`, else that of `raw_message`, else nothing.
pub open spec fn message_view(message: InboundPayload, raw_message: Option<Seq<char>>, me: Seq<char>) -> InboundView {
    match message {
        InboundPayload::Segments(segs) => segments_view(segs@, me, segs@.len() as int),
        InboundPayload::Text(t) => {
            let c = cq_parse_from(t@, me, 0);
            (c.0, Seq::empty(), Seq::empty(), c.1)
        },
        InboundPayload::Missing => match raw_message {
            Some(r) => {
                let c = cq_parse_from(r, me, 0);
                (c.0, Seq::empty(), Seq::empty(), c.1)
            },
            None => (Seq::empty(), Seq::empty(), Seq::empty(), false),
        },
    }
}

fn copy_opt(o: &Option<String>) -> (r: Option<String>)
    ensures
        opt_view(r) == opt_view(*o),
{
    match o {
        Some(s) => Some(s.clone()),
        None => None,
    }
}

fn http_only_exec(o: &Option<String>) -> (r: Option<String>)
    ensures
        opt_view(r) == http_only(opt_view(*o)),
{
    match o {
        Some(u) => {
            let v = chars_of(u.as_str());
            let h = chars_of("http");
            if crate::text::starts_with_at(&v, 0, &h) {
                assert(v@.skip(0) =~= v@);
                Some(u.clone())
            } else {
                assert(v@.skip(0) =~= v@);
                None
            }
        },
        None => None,
    }
}

fn image_from_segment(file: &Option<String>, url: &Option<String>) -> (r: Option<MediaRef>)
    ensures
        match r {
            Some(m) => image_of(opt_view(*file), opt_view(*url)) == Some(media_view(m)),
            None => image_of(opt_view(*file), opt_view(*url)) is None,
        },
{
    let f: Vec<char> = match file {
        Some(f) => chars_of(f.as_str()),
        None => Vec::new(),
    };
    assert(f@ == or_empty(opt_view(*file)));
    let prefix = chars_of("base64://");
    proof {
        reveal_strlit("base64://");
    }
    assert(f@.skip(0) =~= f@);
    if crate::text::starts_with_at(&f, 0, &prefix) {
        let mut e: Vec<char> = Vec::new();
        push_range(&mut e, &f, 9, f.len());
        assert(e@ =~= f@.skip(9));
        let encoded = string_of(&e);
        let enc = encoded.as_str();
        if enc.len() > MAX_ENCODED_IMAGE_CHARS {
            return None;
        }
        match decode_base64(enc) {
            Some(bytes) => if bytes.len() <= MAX_INBOUND_IMAGE_BYTES {
                Some(MediaRef::Bytes(bytes))
            } else {
                None
            },
            None => None,
        }
    } else {
        match http_only_exec(url) {
            Some(u) => {
                Some(MediaRef::Url(u))
            },
            None => {
                let fs = string_of(&f);
                match http_only_exec(&Some(fs)) {
                    Some(u) => {
                        Some(MediaRef::Url(u))
                    },
                    None => None,
                }
            },
        }
    }
}

fn file_from_segment(
    file_id: &Option<String>,
    file_name: &Option<String>,
    name: &Option<String>,
    file: &Option<String>,
    url: &Option<String>,
) -> (r: FileRef)
    ensures
        file_view(r) == file_of(
            opt_view(*file_id),
            opt_view(*file_name),
            opt_view(*name),
            opt_view(*file),
            opt_view(*url),
        ),
{
    let n = match file_name {
        Some(n) => n.clone(),
        None => match name {
            Some(n) => n.clone(),
            None => match file {
                Some(n) => n.clone(),
                None => {
                    let mut v: Vec<char> = Vec::new();
                    push_str(&mut v, "file");
                    string_of(&v)
                },
            },
        },
    };
    FileRef { file_id: copy_opt(file_id), name: n, url: http_only_exec(url) }
}

/// Reads the segments of an inbound message.
pub fn parse_segments(segments: &Vec<InboundSegment>, self_id: i64) -> (r: InboundMessage)
    ensures
        inbound_view(r) == segments_view(segments@, signed_decimal(self_id as int), segments@.len() as int),
{
    let me = i64_decimal(self_id);
    let me_s = string_of(&me);
    let mut text: Vec<char> = Vec::new();
    let mut images: Vec<MediaRef> = Vec::new();
    let mut files: Vec<FileRef> = Vec::new();
    let mut at_self = false;
    let mut i: usize = 0;
    while i < segments.len()
        invariant
            i <= segments@.len(),
            me_s@ == signed_decimal(self_id as int),
            (text@, media_views(images@), file_views(files@), at_self) == segments_view(
                segments@,
                me_s@,
                i as int,
            ),
        decreases segments.len() - i,
    {
        let ghost p = segments_view(segments@, me_s@, i as int);
        match &segments[i] {
            InboundSegment::Text { text: t } => {
                if let Some(t) = t {
                    push_str(&mut text, t.as_str());
                } else {
                    assert(text@ + or_empty(None) =~= text@);
                }
            },
            InboundSegment::Image { file, url } => {
                if images.len() < MAX_INBOUND_IMAGES {
                    if let Some(m) = image_from_segment(file, url) {
                        images.push(m);
                        assert(media_views(images@) =~= p.1.push(media_view(m)));
                    }
                }
            },
            InboundSegment::At { qq } => {
                if let Some(q) = qq {
                    if crate::text::str_eq(q.as_str(), me_s.as_str()) {
                        at_self = true;
                    }
                }
            },
            InboundSegment::File { file_id, file_name, name, file, url } => {
                if files.len() < MAX_INBOUND_FILES {
                    let f = file_from_segment(file_id, file_name, name, file, url);
                    files.push(f);
                    assert(file_views(files@) =~= p.2.push(file_view(f)));
                }
            },
            InboundSegment::Other => {},
        }
        i = i + 1;
    }
    InboundMessage { text: string_of(&text), images, files, at_self }
}

/// Parses the `message` field of an event (a segment array, or a CQ-coded
/// string), falling back to `raw_message`.
pub fn parse_message(message: &InboundPayload, raw_message: &Option<String>, self_id: i64) -> (r:
    InboundMessage)
    ensures
        inbound_view(r) == message_view(*message, opt_view(*raw_message), signed_decimal(self_id as int)),
{
    match message {
        InboundPayload::Segments(segs) => parse_segments(segs, self_id),
        InboundPayload::Text(t) => {
            let r = parse_cq_string(t.as_str(), self_id);
            assert(media_views(r.images@) =~= Seq::<MediaView>::empty());
            assert(file_views(r.files@) =~= Seq::<FileView>::empty());
            r
        },
        InboundPayload::Missing => match raw_message {
            Some(raw) => {
                let r = parse_cq_string(raw.as_str(), self_id);
                assert(media_views(r.images@) =~= Seq::<MediaView>::empty());
                assert(file_views(r.files@) =~= Seq::<FileView>::empty());
                r
            },
            None => {
                let r = InboundMessage {
                    text: String::new(),
                    images: Vec::new(),
                    files: Vec::new(),
                    at_self: false,
                };
                assert(media_views(r.images@) =~= Seq::<MediaView>::empty());
                assert(file_views(r.files@) =~= Seq::<FileView>::empty());
                r
            },
        },
    }
}

/// A live connection of one bot account.
pub struct RegisteredConnection<H> {
    pub self_id: i64,
    pub generation: u64,
    pub handle: H,
}

/// Position of the connection of account `id`.
pub open spec fn slot_of<H>(conns: Seq<RegisteredConnection<H>>, id: i64) -> Option<int> {
    if exists|i: int| 0 <= i < conns.len() && #[trigger] conns[i].self_id == id {
        Some(choose|i: int| 0 <= i < conns.len() && #[trigger] conns[i].self_id == id)
    } else {
        None
    }
}

/// Live NapCat connections keyed by bot QQ id. NapCat reconnects on its own
/// schedule, which can leave a half-open predecessor; each new connection
/// takes a newer generation, and the old read loop notices it has been
/// replaced and exits, so replies are never duplicated.
pub struct ConnectionRegistry<H> {
    next_generation: u64,
    connections: Vec<RegisteredConnection<H>>,
}

impl<H> ConnectionRegistry<H> {
    pub closed spec fn last_generation(&self) -> u64 {
        self.next_generation
    }

    /// Generation of the live connection of account `id`.
    pub closed spec fn current(&self, id: i64) -> Option<u64> {
        match slot_of(self.connections@, id) {
            Some(i) => Some(self.connections@[i].generation),
            None => None,
        }
    }

    /// Handle of the live connection of account `id`.
    pub closed spec fn handle_of(&self, id: i64) -> Option<H> {
        match slot_of(self.connections@, id) {
            Some(i) => Some(self.connections@[i].handle),
            None => None,
        }
    }

    /// Accounts hold one connection each, never under id 0 (identity not
    /// known yet), and no connection is newer than the last generation.
    pub closed spec fn wf(&self) -> bool {
        &&& forall|i: int, j: int|
            0 <= i < self.connections@.len() && 0 <= j < self.connections@.len() && i != j
                ==> #[trigger] self.connections@[i].self_id != #[trigger] self.connections@[j].self_id
        &&& forall|i: int|
            0 <= i < self.connections@.len() ==> #[trigger] self.connections@[i].self_id != 0
                && self.connections@[i].generation <= self.next_generation
    }

    proof fn lemma_wf_current(&self, id: i64)
        requires
            self.wf(),
        ensures
            self.current(id) matches Some(g) ==> g <= self.last_generation() && id != 0,
            self.current(id) is Some <==> self.handle_of(id) is Some,
            self.current(id) is None <==> forall|i: int|
                0 <= i < self.connections@.len() ==> #[trigger] self.connections@[i].self_id != id,
    {
    }

    pub fn new() -> (r: Self)
        ensures
            r.wf(),
            r.last_generation() == 0,
            forall|id: i64| r.current(id) is None && r.handle_of(id) is None,
    {
        ConnectionRegistry { next_generation: 0, connections: Vec::new() }
    }

    fn find(&self, id: i64) -> (r: Option<usize>)
        requires
            self.wf(),
        ensures
            match r {
                Some(i) => slot_of(self.connections@, id) == Some(i as int) && i
                    < self.connections@.len(),
                None => slot_of(self.connections@, id) is None,
            },
    {
        let mut i: usize = 0;
        while i < self.connections.len()
            invariant
                i <= self.connections@.len(),
                self.wf(),
                forall|k: int| 0 <= k < i ==> #[trigger] self.connections@[k].self_id != id,
            decreases self.connections.len() - i,
        {
            if self.connections[i].self_id == id {
                proof {
                    let j = slot_of(self.connections@, id)->0;
                    assert(self.connections@[i as int].self_id == id);
                    assert(j == i);
                }
                return Some(i);
            }
            i = i + 1;
        }
        None
    }

    /// Installs `handle` as the connection of `self_id` under `generation`.
    fn put(&mut self, self_id: i64, generation: u64, handle: H)
        requires
            old(self).wf(),
            self_id != 0,
            generation <= old(self).last_generation(),
        ensures
            final(self).wf(),
            final(self).last_generation() == old(self).last_generation(),
            final(self).current(self_id) == Some(generation),
            final(self).handle_of(self_id) == Some(handle),
            forall|id: i64|
                id != self_id ==> final(self).current(id) == old(self).current(id)
                    && final(self).handle_of(id) == old(self).handle_of(id),
    {
        let ghost old_conns = self.connections@;
        let entry = RegisteredConnection { self_id, generation, handle };
        let ghost e = entry;
        let ghost pos: int;
        match self.find(self_id) {
            Some(i) => {
                self.connections.set(i, entry);
                proof {
                    pos = i as int;
                    assert(self.connections@ =~= old_conns.update(pos, e));
                }
            },
            None => {
                self.connections.push(entry);
                proof {
                    pos = old_conns.len() as int;
                    assert(self.connections@ =~= old_conns.push(e));
                    assert forall|j: int| 0 <= j < old_conns.len() implies #[trigger] old_conns[j].self_id
                        != self_id by {}
                }
            },
        }
        proof {
            let c = self.connections@;
            assert(c[pos] == e);
            assert forall|j: int| 0 <= j < c.len() && j != pos implies #[trigger] c[j] == old_conns[j]
                && old_conns[j].self_id != self_id by {
                if pos < old_conns.len() {
                    assert(old_conns[pos].self_id == self_id);
                    assert(old_conns[j].self_id != old_conns[pos].self_id);
                }
            }
            assert forall|a: int, b: int|
                0 <= a < c.len() && 0 <= b < c.len() && a != b implies #[trigger] c[a].self_id
                != #[trigger] c[b].self_id by {
                if a != pos && b != pos {
                    assert(c[a] == old_conns[a]);
                    assert(c[b] == old_conns[b]);
                    assert(old_conns[a].self_id != old_conns[b].self_id);
                } else if a != pos {
                    assert(c[a] == old_conns[a]);
                } else {
                    assert(c[b] == old_conns[b]);
                }
            }
            assert(c[pos].self_id == self_id);
            let k = slot_of(c, self_id)->0;
            assert(k == pos);
            assert forall|id: i64| id != self_id implies self.current(id) == old(self).current(id)
                && self.handle_of(id) == old(self).handle_of(id) by {
                if exists|i: int| 0 <= i < old_conns.len() && #[trigger] old_conns[i].self_id == id {
                    let i = slot_of(old_conns, id)->0;
                    assert(i != pos);
                    assert(c[i] == old_conns[i]);
                    let j = slot_of(c, id)->0;
                    assert(c[j].self_id == id);
                    assert(j != pos);
                    assert(c[j] == old_conns[j]);
                    assert(i == j);
                } else {
                    assert forall|j: int| 0 <= j < c.len() implies #[trigger] c[j].self_id != id by {
                        if j != pos {
                            assert(c[j] == old_conns[j]);
                        }
                    }
                }
            }
        }
    }

    /// Records a new connection and returns its generation, newer than any
    /// before. A connection that has not told its account yet (`self_id`
    /// 0) only takes the generation.
    pub fn register(&mut self, self_id: i64, handle: H) -> (r: u64)
        requires
            old(self).wf(),
            old(self).last_generation() < u64::MAX,
        ensures
            final(self).wf(),
            r == old(self).last_generation() + 1,
            final(self).last_generation() == r,
            forall|id: i64| #[trigger] old(self).current(id) matches Some(g) ==> g < r,
            self_id != 0 ==> final(self).current(self_id) == Some(r)
                && final(self).handle_of(self_id) == Some(handle),
            forall|id: i64|
                id != self_id || self_id == 0 ==> final(self).current(id) == old(self).current(id)
                    && final(self).handle_of(id) == old(self).handle_of(id),
    {
        proof {
            assert forall|id: i64| old(self).current(id) is Some implies old(self).current(id)->0
                <= old(self).last_generation() by {
                self.lemma_wf_current(id);
            }
        }
        self.next_generation = self.next_generation + 1;
        let generation = self.next_generation;
        if self_id != 0 {
            self.put(self_id, generation, handle);
        }
        generation
    }

    /// Binds a connection to the account it announced. Refused for account
    /// 0 and when the account already has a newer connection, so a late
    /// announcement never replaces a newer connection.
    pub fn bind(&mut self, self_id: i64, generation: u64, handle: H) -> (r: bool)
        requires
            old(self).wf(),
            generation <= old(self).last_generation(),
        ensures
            final(self).wf(),
            final(self).last_generation() == old(self).last_generation(),
            r == (self_id != 0 && !(old(self).current(self_id) matches Some(g) && g > generation)),
            r ==> final(self).current(self_id) == Some(generation) && final(self).handle_of(self_id)
                == Some(handle),
            forall|id: i64|
                id != self_id || !r ==> final(self).current(id) == old(self).current(id)
                    && final(self).handle_of(id) == old(self).handle_of(id),
    {
        if self_id == 0 {
            return false;
        }
        match self.find(self_id) {
            Some(i) => {
                if self.connections[i].generation > generation {
                    return false;
                }
            },
            None => {},
        }
        self.put(self_id, generation, handle);
        true
    }

    /// Whether `generation` is the live connection of `self_id`.
    pub fn is_current(&self, self_id: i64, generation: u64) -> (r: bool)
        requires
            self.wf(),
        ensures
            r == (self.current(self_id) == Some(generation)),
    {
        match self.find(self_id) {
            Some(i) => self.connections[i].generation == generation,
            None => false,
        }
    }

    /// Drops the connection of `self_id` if `generation` is still its live one.
    #[verifier::spinoff_prover]
    pub fn remove(&mut self, self_id: i64, generation: u64)
        requires
            old(self).wf(),
        ensures
            final(self).wf(),
            final(self).last_generation() == old(self).last_generation(),
            old(self).current(self_id) == Some(generation) ==> final(self).current(self_id) is None
                && final(self).handle_of(self_id) is None,
            forall|id: i64|
                id != self_id || old(self).current(self_id) != Some(generation)
                    ==> final(self).current(id) == old(self).current(id)
                    && final(self).handle_of(id) == old(self).handle_of(id),
    {
        let i = match self.find(self_id) {
            Some(i) => i,
            None => return,
        };
        if self.connections[i].generation != generation {
            return;
        }
        let ghost old_conns = self.connections@;
        let _ = self.connections.remove(i);
        proof {
            let c = self.connections@;
            assert(c =~= old_conns.remove(i as int));
            assert forall|a: int| 0 <= a < c.len() implies #[trigger] c[a].self_id != self_id by {
                if a < i {
                    assert(c[a] == old_conns[a]);
                } else {
                    assert(c[a] == old_conns[a + 1]);
                }
            }
            assert forall|id: i64| id != self_id implies self.current(id) == old(self).current(id)
                && self.handle_of(id) == old(self).handle_of(id) by {
                if exists|k: int| 0 <= k < old_conns.len() && #[trigger] old_conns[k].self_id == id {
                    let k = slot_of(old_conns, id)->0;
                    let m = if k < i { k } else { k - 1 };
                    assert(c[m] == old_conns[k]);
                    let j = slot_of(c, id)->0;
                    assert(c[j].self_id == id);
                    if j < i {
                        assert(c[j] == old_conns[j]);
                    } else {
                        assert(c[j] == old_conns[j + 1]);
                    }
                    assert(j == m);
                } else {
                    assert forall|j: int| 0 <= j < c.len() implies #[trigger] c[j].self_id != id by {
                        if j < i {
                            assert(c[j] == old_conns[j]);
                        } else {
                            assert(c[j] == old_conns[j + 1]);
                        }
                    }
                }
            }
        }
    }

    /// The live connection of `self_id`.
    pub fn handle(&self, self_id: i64) -> (r: Option<&H>)
        requires
            self.wf(),
        ensures
            r == match self.handle_of(self_id) {
                Some(h) => Some(&h),
                None => None::<&H>,
            },
    {
        match self.find(self_id) {
            Some(i) => Some(&self.connections[i].handle),
            None => None,
        }
    }

    /// Accounts with a live connection, ascending.
    pub fn connected_accounts(&self) -> (r: Vec<i64>)
        requires
            self.wf(),
        ensures
            forall|a: int, b: int| 0 <= a < b < r@.len() ==> r@[a] < r@[b],
            forall|id: i64| r@.contains(id) <==> self.current(id) is Some,
    {
        let mut out: Vec<i64> = Vec::new();
        let mut i: usize = 0;
        while i < self.connections.len()
            invariant
                i <= self.connections@.len(),
                self.wf(),
                forall|a: int, b: int| 0 <= a < b < out@.len() ==> out@[a] < out@[b],
                forall|id: i64|
                    out@.contains(id) <==> exists|k: int|
                        0 <= k < i && #[trigger] self.connections@[k].self_id == id,
            decreases self.connections.len() - i,
        {
            let id = self.connections[i].self_id;
            let mut p: usize = 0;
            while p < out.len() && out[p] < id
                invariant
                    p <= out@.len(),
                    forall|a: int| 0 <= a < p ==> out@[a] < id,
                decreases out.len() - p,
            {
                p = p + 1;
            }
            let ghost before = out@;
            proof {
                assert(!before.contains(id)) by {
                    if before.contains(id) {
                        let k = choose|k: int| 0 <= k < i && #[trigger] self.connections@[k].self_id == id;
                        assert(self.connections@[k].self_id != self.connections@[i as int].self_id);
                    }
                }
            }
            out.insert(p, id);
            proof {
                assert(out@ =~= before.insert(p as int, id));
                assert forall|a: int, b: int| 0 <= a < b < out@.len() implies out@[a] < out@[b] by {
                    if p < before.len() {
                        assert(before[p as int] != id);
                        assert(before[p as int] >= id);
                    }
                }
                assert forall|x: i64| out@.contains(x) <==> exists|k: int|
                    0 <= k < i + 1 && #[trigger] self.connections@[k].self_id == x by {
                    if out@.contains(x) {
                        let j = choose|j: int| 0 <= j < out@.len() && out@[j] == x;
                        if x != id {
                            if j < p {
                                assert(before[j] == x);
                            } else {
                                assert(before[j - 1] == x);
                            }
                            assert(before.contains(x));
                        } else {
                            assert(self.connections@[i as int].self_id == x);
                        }
                    }
                    if exists|k: int| 0 <= k < i + 1 && #[trigger] self.connections@[k].self_id == x {
                        if x == id {
                            assert(out@[p as int] == x);
                        } else {
                            let k = choose|k: int| 0 <= k < i + 1 && #[trigger] self.connections@[k].self_id == x;
                            assert(k < i);
                            assert(before.contains(x));
                            let j = choose|j: int| 0 <= j < before.len() && before[j] == x;
                            if j < p {
                                assert(out@[j] == x);
                            } else {
                                assert(out@[j + 1] == x);
                            }
                        }
                    }
                }
            }
            i = i + 1;
        }
        proof {
            assert forall|id: i64| out@.contains(id) <==> self.current(id) is Some by {
                if self.current(id) is Some {
                    let k = slot_of(self.connections@, id)->0;
                    assert(self.connections@[k].self_id == id);
                }
            }
        }
        out
    }

    /// Handles of the live connections, in the order they were recorded.
    pub closed spec fn handles(&self) -> Seq<H> {
        self.connections@.map_values(|c: RegisteredConnection<H>| c.handle)
    }

    /// Forgets every connection and hands their handles back for the
    /// host to shut down.
    pub fn disconnect_all(&mut self) -> (r: Vec<H>)
        requires
            old(self).wf(),
        ensures
            final(self).wf(),
            r@ == old(self).handles(),
            final(self).last_generation() == old(self).last_generation(),
            forall|id: i64| final(self).current(id) is None && final(self).handle_of(id) is None,
    {
        let ghost all = self.connections@;
        let ghost g = self.next_generation;
        let mut out: Vec<H> = Vec::new();
        while self.connections.len() > 0
            invariant
                self.next_generation == g,
                out@ + self.connections@.map_values(|c: RegisteredConnection<H>| c.handle)
                    == all.map_values(|c: RegisteredConnection<H>| c.handle),
            decreases self.connections.len(),
        {
            let ghost before = self.connections@;
            let c = self.connections.remove(0);
            proof {
                assert(before.map_values(|c: RegisteredConnection<H>| c.handle) =~= seq![c.handle]
                    + self.connections@.map_values(|c: RegisteredConnection<H>| c.handle));
            }
            let ghost prev = out@;
            out.push(c.handle);
            proof {
                assert(prev + (seq![c.handle] + self.connections@.map_values(
                    |c: RegisteredConnection<H>| c.handle,
                )) =~= out@ + self.connections@.map_values(|c: RegisteredConnection<H>| c.handle));
            }
        }
        proof {
            assert(out@ + self.connections@.map_values(|c: RegisteredConnection<H>| c.handle)
                =~= out@);
        }
        out
    }
}

/// Who sent an inbound event and where, or `None` when the bridge ignores
/// it: no sender, the bot's own message, an unknown message type, a group
/// message without a group.
pub open spec fn event_target_spec(
    user_id: i64,
    self_id: i64,
    message_type: Seq<char>,
    group_id: i64,
) -> Option<Target> {
    if user_id == 0 || user_id == self_id {
        None
    } else if message_type == "private"@ {
        Some(Target::Private { user_id })
    } else if message_type == "group"@ {
        if group_id == 0 {
            None
        } else {
            Some(Target::Group { group_id })
        }
    } else {
        None
    }
}

pub open spec fn or_zero(o: Option<i64>) -> i64 {
    match o {
        Some(v) => v,
        None => 0,
    }
}

/// The target of an inbound event from its fields (absent numbers read as
/// 0, an absent type as empty).
pub fn event_target(
    user_id: Option<i64>,
    self_id: Option<i64>,
    message_type: Option<&str>,
    group_id: Option<i64>,
) -> (r: Option<Target>)
    ensures
        r == event_target_spec(
            or_zero(user_id),
            or_zero(self_id),
            match message_type {
                Some(t) => t@,
                None => Seq::empty(),
            },
            or_zero(group_id),
        ),
{
    let user_id = match user_id {
        Some(v) => v,
        None => 0,
    };
    let self_id = match self_id {
        Some(v) => v,
        None => 0,
    };
    let group_id = match group_id {
        Some(v) => v,
        None => 0,
    };
    if user_id == 0 || user_id == self_id {
        return None;
    }
    let kind = match message_type {
        Some(t) => t,
        None => "",
    };
    proof {
        reveal_strlit("");
        assert(""@ =~= Seq::<char>::empty());
    }
    if crate::text::str_eq(kind, "private") {
        Some(Target::Private { user_id })
    } else if crate::text::str_eq(kind, "group") {
        if group_id == 0 {
            None
        } else {
            Some(Target::Group { group_id })
        }
    } else {
        None
    }
}

/// Whether plugin commands see the message first: every message but the
/// built-in reset, whose name the core owns.
pub fn offer_to_plugins(parsed_command: Option<ParsedPlatformCommand>) -> (r: bool)
    ensures
        r == !(parsed_command matches Some(ParsedPlatformCommand::Reset { .. })),
{
    !matches!(parsed_command, Some(ParsedPlatformCommand::Reset { .. }))
}

/// Where an admitted message goes.
pub enum MessageRoute {
    /// A group message that does not wake the bot.
    Silent,
    /// A plugin command already produced the reply.
    PluginResponse,
    Builtin(ParsedPlatformCommand),
    /// A model turn on this text.
    Turn(String),
}

/// The route of an admitted message, as `(kind, command, text)` with kind 0
/// silent, 1 plugin reply, 2 built-in command, 3 turn.
pub open spec fn route_spec(
    keywords: Seq<String>,
    target: Target,
    text: Seq<char>,
    at_self: bool,
    parsed_command: Option<ParsedPlatformCommand>,
    plugin_responded: bool,
) -> (int, Option<ParsedPlatformCommand>, Seq<char>) {
    if plugin_responded {
        (1, None, Seq::empty())
    } else if parsed_command is Some {
        (2, parsed_command, Seq::empty())
    } else if target is Group {
        match group_trigger_spec(keywords, text, at_self) {
            Some(t) => (3, None, t),
            None => (0, None, Seq::empty()),
        }
    } else {
        (3, None, text)
    }
}

pub open spec fn route_view(r: MessageRoute) -> (int, Option<ParsedPlatformCommand>, Seq<char>) {
    match r {
        MessageRoute::Silent => (0, None, Seq::empty()),
        MessageRoute::PluginResponse => (1, None, Seq::empty()),
        MessageRoute::Builtin(c) => (2, Some(c), Seq::empty()),
        MessageRoute::Turn(t) => (3, None, t@),
    }
}

/// Routes an admitted message: a plugin reply or a built-in command wins;
/// otherwise group messages run a turn only when they wake the bot, private
/// messages always do.
pub fn route_message(
    config: &OneBotConfig,
    target: Target,
    parsed: &InboundMessage,
    parsed_command: Option<ParsedPlatformCommand>,
    plugin_responded: bool,
) -> (r: MessageRoute)
    ensures
        route_view(r) == route_spec(
            config.group_chats.trigger_keywords@,
            target,
            parsed.text@,
            parsed.at_self,
            parsed_command,
            plugin_responded,
        ),
{
    if plugin_responded {
        return MessageRoute::PluginResponse;
    }
    if let Some(c) = parsed_command {
        return MessageRoute::Builtin(c);
    }
    match target {
        Target::Group { .. } => match group_trigger_text(config, parsed) {
            Some(t) => MessageRoute::Turn(t),
            None => MessageRoute::Silent,
        },
        Target::Private { .. } => MessageRoute::Turn(parsed.text.clone()),
    }
}

/// What the bridge does with a message once routed and rate-checked.
pub enum MessageAction {
    Stop,
    /// Rate-limited for the first time this window: tell the sender once.
    SlowDownNotice(String),
    SendPluginResponse,
    RunBuiltin(ParsedPlatformCommand),
    RunTurn(String),
}

pub open spec fn slow_down_text(lang: Language) -> Seq<char> {
    tr(lang, "Too many messages — please slow down a little."@, "消息太频繁了，请稍候再发。"@)
}

/// Charges the rate bucket of an admitted message and decides the action.
/// A message that does not wake the bot stops before it is counted, so
/// busy groups never use up the quota of real requests; messages without a
/// bucket are unlimited.
pub fn gate_message(
    window: &mut RateWindow,
    now: u64,
    route: MessageRoute,
    rate_key: &Option<String>,
    rate_limit: u32,
    lang: Language,
) -> (r: MessageAction)
    requires
        old(window).wf(),
    ensures
        final(window).wf(),
        route is Silent || rate_key is None ==> final(window).view() == old(window).view(),
        route is Silent ==> r is Stop,
        !(route is Silent) && rate_key is Some ==> final(window).view() == check_spec(
            old(window).view(),
            now,
            rate_key->0@,
            rate_limit,
        ).0,
        ({
            let d = if route is Silent {
                RateDecision::Allow
            } else {
                match rate_key {
                    Some(k) => check_spec(old(window).view(), now, k@, rate_limit).1,
                    None => RateDecision::Allow,
                }
            };
            &&& d is DropSilently ==> r is Stop
            &&& d is DropWithNotice ==> (r matches MessageAction::SlowDownNotice(t) && t@
                == slow_down_text(lang))
            &&& d is Allow ==> match route {
                MessageRoute::Silent => r is Stop,
                MessageRoute::PluginResponse => r is SendPluginResponse,
                MessageRoute::Builtin(c) => r == MessageAction::RunBuiltin(c),
                MessageRoute::Turn(t) => (r matches MessageAction::RunTurn(u) && u@ == t@),
            }
        }),
{
    if let MessageRoute::Silent = route {
        return MessageAction::Stop;
    }
    let decision = match rate_key {
        Some(k) => window.check_at(now, k.as_str(), rate_limit),
        None => RateDecision::Allow,
    };
    match decision {
        RateDecision::DropSilently => MessageAction::Stop,
        RateDecision::DropWithNotice => {
            let mut v: Vec<char> = Vec::new();
            push_str(
                &mut v,
                text(lang, "Too many messages — please slow down a little.", "消息太频繁了，请稍候再发。"),
            );
            MessageAction::SlowDownNotice(string_of(&v))
        },
        RateDecision::Allow => match route {
            MessageRoute::Silent => MessageAction::Stop,
            MessageRoute::PluginResponse => MessageAction::SendPluginResponse,
            MessageRoute::Builtin(c) => MessageAction::RunBuiltin(c),
            MessageRoute::Turn(t) => MessageAction::RunTurn(t),
        },
    }
}

/// What a built-in command does.
pub enum BuiltinStep {
    /// Answer with this text.
    Reply(String),
    /// Clear the bound session, then answer with `reset_outcome_message`.
    ResetSession,
}

/// Whether the sender may reset: the configured permission of `reset`
/// (admin-only by default).
pub open spec fn may_reset(config: PlatformsConfig, is_admin: bool) -> bool {
    match permission_override(config.commands@, "reset"@) {
        Some(p) => p == PlatformCommandPermission::Everyone || is_admin,
        None => is_admin,
    }
}

/// The step of a built-in command: unknown commands list the available
/// ones; `reset` checks the permission, then refuses arguments, then resets.
pub fn builtin_command_step(
    lang: Language,
    config: &PlatformsConfig,
    command: ParsedPlatformCommand,
    is_admin: bool,
) -> (r: BuiltinStep)
    ensures
        match command {
            ParsedPlatformCommand::Unknown => (r matches BuiltinStep::Reply(t) && t@
                == crate::i18n::tr(lang, "Unknown command. Available commands: "@, "未知命令。可用命令："@)
                + config.command_prefix@ + "reset"@),
            ParsedPlatformCommand::Reset { has_arguments } => if !may_reset(*config, is_admin) {
                (r matches BuiltinStep::Reply(t) && t@ == tr(
                    lang,
                    "Only platform administrators may use"@,
                    "只有通讯平台管理员可以使用"@,
                ) + seq![' '] + config.command_prefix@ + "reset"@ + tr(lang, "."@, "。"@))
            } else if has_arguments {
                (r matches BuiltinStep::Reply(t) && t@ == tr(lang, "Usage"@, "用法"@) + tr(
                    lang,
                    ": "@,
                    "："@,
                ) + config.command_prefix@ + "reset"@)
            } else {
                r is ResetSession
            },
        },
{
    proof {
        reveal_strlit("reset");
    }
    match command {
        ParsedPlatformCommand::Unknown => BuiltinStep::Reply(unknown_command_message(lang, config)),
        ParsedPlatformCommand::Reset { has_arguments } => {
            let reset = match descriptor(RESET_COMMAND_ID) {
                Some(d) => d,
                None => {
                    proof {
                        assert(RESET_COMMAND_ID@ == crate::platforms::commands::reset_id());
                        assert(false);
                    }
                    return BuiltinStep::ResetSession;
                },
            };
            if !is_allowed(config, &reset, is_admin) {
                BuiltinStep::Reply(permission_denied_message(lang, config, &reset))
            } else if has_arguments {
                BuiltinStep::Reply(reset_usage_message(lang, config))
            } else {
                BuiltinStep::ResetSession
            }
        },
    }
}

/// How clearing a session ended.
#[derive(Clone, Copy, Debug, PartialEq, Eq, Structural)]
pub enum ResetOutcome {
    Done,
    /// The conversation is replying right now.
    Busy,
    /// The core is not running.
    Unavailable,
    /// The session could not be found or cleared.
    Failed,
}

pub open spec fn reset_outcome_text(lang: Language, outcome: ResetOutcome) -> Seq<char> {
    match outcome {
        ResetOutcome::Done => tr(lang, "The current conversation has been reset."@, "当前会话已重置。"@),
        ResetOutcome::Busy => tr(
            lang,
            "This conversation is replying right now. Try resetting it again after the reply finishes."@,
            "当前会话正在回复，请在回复结束后重试。"@,
        ),
        ResetOutcome::Unavailable => tr(
            lang,
            "The Miyu core is unavailable, so the conversation was not reset."@,
            "Miyu 核心当前不可用，会话未重置。"@,
        ),
        ResetOutcome::Failed => tr(
            lang,
            "The conversation could not be reset. Check the daemon logs for details."@,
            "无法重置当前会话，请查看 daemon 日志。"@,
        ),
    }
}

/// The answer to `reset` once the session was (or was not) cleared.
pub fn reset_outcome_message(lang: Language, outcome: ResetOutcome) -> (r: &'static str)
    ensures
        r@ == reset_outcome_text(lang, outcome),
{
    match outcome {
        ResetOutcome::Done => text(lang, "The current conversation has been reset.", "当前会话已重置。"),
        ResetOutcome::Busy => text(
            lang,
            "This conversation is replying right now. Try resetting it again after the reply finishes.",
            "当前会话正在回复，请在回复结束后重试。",
        ),
        ResetOutcome::Unavailable => text(
            lang,
            "The Miyu core is unavailable, so the conversation was not reset.",
            "Miyu 核心当前不可用，会话未重置。",
        ),
        ResetOutcome::Failed => text(
            lang,
            "The conversation could not be reset. Check the daemon logs for details.",
            "无法重置当前会话，请查看 daemon 日志。",
        ),
    }
}

/// The OneBot action and id a busy notice goes to: the private sender or
/// the group, when its id is positive.
pub open spec fn busy_target_spec(message_type: Seq<char>, user_id: Option<i64>, group_id: Option<i64>) -> Option<Target> {
    if message_type == "private"@ {
        match user_id {
            Some(u) => if u > 0 {
                Some(Target::Private { user_id: u })
            } else {
                None
            },
            None => None,
        }
    } else if message_type == "group"@ {
        match group_id {
            Some(g) => if g > 0 {
                Some(Target::Group { group_id: g })
            } else {
                None
            },
            None => None,
        }
    } else {
        None
    }
}

/// Where the "busy" notice of a dropped message goes, if anywhere.
pub fn busy_notice_target(message_type: Option<&str>, user_id: Option<i64>, group_id: Option<i64>) -> (r:
    Option<Target>)
    ensures
        r == match message_type {
            Some(t) => busy_target_spec(t@, user_id, group_id),
            None => None,
        },
{
    let kind = match message_type {
        Some(t) => t,
        None => return None,
    };
    if crate::text::str_eq(kind, "private") {
        match user_id {
            Some(u) => if u > 0 {
                Some(Target::Private { user_id: u })
            } else {
                None
            },
            None => None,
        }
    } else if crate::text::str_eq(kind, "group") {
        match group_id {
            Some(g) => if g > 0 {
                Some(Target::Group { group_id: g })
            } else {
                None
            },
            None => None,
        }
    } else {
        None
    }
}

/// The OneBot send action for a target.
pub fn send_action(target: Target) -> (r: &'static str)
    ensures
        r@ == match target {
            Target::Private { .. } => "send_private_msg"@,
            Target::Group { .. } => "send_group_msg"@,
        },
{
    match target {
        Target::Private { .. } => "send_private_msg",
        Target::Group { .. } => "send_group_msg",
    }
}

/// The notice sent when too many messages are in flight.
pub fn busy_notice_text(lang: Language) -> (r: &'static str)
    ensures
        r@ == tr(
            lang,
            "Miyu is handling several messages; please try again shortly."@,
            "Miyu 正在处理多条消息，请稍后再试。"@,
        ),
{
    text(lang, "Miyu is handling several messages; please try again shortly.", "Miyu 正在处理多条消息，请稍后再试。")
}

/// The token an `Authorization` header presents: trimmed, after an optional
/// `Bearer ` or `Token ` scheme.
pub open spec fn presented_token(header: Seq<char>) -> Seq<char> {
    let v = trim(header);
    let rest = if crate::text::has_prefix(v, "Bearer "@) {
        v.skip(7)
    } else if crate::text::has_prefix(v, "Token "@) {
        v.skip(6)
    } else {
        v
    };
    trim(rest)
}

/// Whether a connection presents the configured token. An empty
/// configured token disables the check; otherwise the presented and the
/// configured token are compared by their SHA-256 digests, so timing
/// reveals nothing of the token's length or prefix.
pub open spec fn token_matches_spec(authorization: Option<Seq<char>>, expected: Seq<char>) -> bool {
    let e = trim(expected);
    if e.len() == 0 {
        true
    } else {
        match authorization {
            Some(h) => sha256_of_text(presented_token(h)) == sha256_of_text(e),
            None => false,
        }
    }
}

fn vec_eq_u8(a: &Vec<u8>, b: &Vec<u8>) -> (r: bool)
    ensures
        r == (a@ == b@),
{
    if a.len() != b.len() {
        return false;
    }
    let mut i: usize = 0;
    while i < a.len()
        invariant
            a@.len() == b@.len(),
            i <= a@.len(),
            forall|j: int| 0 <= j < i ==> a@[j] == b@[j],
        decreases a.len() - i,
    {
        if a[i] != b[i] {
            return false;
        }
        i = i + 1;
    }
    assert(a@ =~= b@);
    true
}

fn trimmed_chars(v: &Vec<char>, lo: usize) -> (r: Vec<char>)
    requires
        lo <= v@.len(),
    ensures
        r@ == trim(v@.skip(lo as int)),
{
    let (a, b) = trim_bounds(v, lo, v.len());
    assert(v@.subrange(lo as int, v@.len() as int) =~= v@.skip(lo as int));
    let mut out: Vec<char> = Vec::new();
    push_range(&mut out, v, a, b);
    out
}

/// Checks the `Authorization` header of a connection against the token.
pub fn token_matches(authorization: Option<&str>, expected: &str) -> (r: bool)
    ensures
        r == token_matches_spec(
            match authorization {
                Some(h) => Some(h@),
                None => None,
            },
            expected@,
        ),
{
    let ev = chars_of(expected);
    let e = trimmed_chars(&ev, 0);
    assert(ev@.skip(0) =~= ev@);
    if e.len() == 0 {
        return true;
    }
    let header = match authorization {
        Some(h) => h,
        None => return false,
    };
    let hv = chars_of(header);
    let v = trimmed_chars(&hv, 0);
    assert(hv@.skip(0) =~= hv@);
    let bearer = chars_of("Bearer ");
    let token = chars_of("Token ");
    proof {
        reveal_strlit("Bearer ");
        reveal_strlit("Token ");
    }
    assert(v@.skip(0) =~= v@);
    let start: usize = if crate::text::starts_with_at(&v, 0, &bearer) {
        7
    } else if crate::text::starts_with_at(&v, 0, &token) {
        6
    } else {
        0
    };
    let presented = trimmed_chars(&v, start);
    let a = sha256_text(string_of(&presented).as_str());
    let b = sha256_text(string_of(&e).as_str());
    vec_eq_u8(&a, &b)
}

/// Whether a reverse-WebSocket connection is admitted: with no token
/// configured only loopback peers are, else the token must match.
pub fn connection_authorized(authorization: Option<&str>, expected: &str, peer_is_loopback: bool) -> (r:
    bool)
    ensures
        r == if trim(expected@).len() == 0 {
            peer_is_loopback
        } else {
            token_matches_spec(
                match authorization {
                    Some(h) => Some(h@),
                    None => None,
                },
                expected@,
            )
        },
{
    let ev = chars_of(expected);
    let e = trimmed_chars(&ev, 0);
    assert(ev@.skip(0) =~= ev@);
    if e.len() == 0 {
        peer_is_loopback
    } else {
        token_matches(authorization, expected)
    }
}

pub open spec fn is_host_char(c: char) -> bool {
    ('0' <= c && c <= '9') || ('a' <= c && c <= 'z') || ('A' <= c && c <= 'Z') || c == '.' || c
        == '-' || c == ':' || c == '[' || c == ']'
}

/// The base URL served assets are announced under: the configured one
/// (trimmed, trailing `/` removed) when it is an `http(s)` URL, else
/// `http://` and the request's `Host`, when that looks like a host name.
pub open spec fn asset_base_url_spec(host_header: Option<Seq<char>>, configured: Seq<char>) -> Option<
    Seq<char>,
> {
    let c = crate::tools::image_generation::strip_trailing_slashes(trim(configured));
    if crate::text::has_prefix(c, "http://"@) || crate::text::has_prefix(c, "https://"@) {
        Some(c)
    } else {
        match host_header {
            Some(h) => {
                let host = trim(h);
                if host.len() > 0 && forall|i: int| 0 <= i < host.len() ==> is_host_char(#[trigger] host[i]) {
                    Some("http://"@ + host)
                } else {
                    None
                }
            },
            None => None,
        }
    }
}

fn all_host_chars(host: &Vec<char>) -> (r: bool)
    ensures
        r == forall|i: int| 0 <= i < host@.len() ==> is_host_char(#[trigger] host@[i]),
{
    let mut i: usize = 0;
    while i < host.len()
        invariant
            i <= host@.len(),
            forall|k: int| 0 <= k < i ==> is_host_char(#[trigger] host@[k]),
        decreases host.len() - i,
    {
        let ch = host[i];
        if !(('0' <= ch && ch <= '9') || ('a' <= ch && ch <= 'z') || ('A' <= ch && ch <= 'Z') || ch
            == '.' || ch == '-' || ch == ':' || ch == '[' || ch == ']') {
            assert(!is_host_char(host@[i as int]));
            return false;
        }
        i = i + 1;
    }
    true
}

pub fn resolve_asset_base_url(host_header: Option<&str>, configured: &str) -> (r: Option<String>)
    ensures
        opt_view(r) == asset_base_url_spec(
            match host_header {
                Some(h) => Some(h@),
                None => None,
            },
            configured@,
        ),
{
    let cv = chars_of(configured);
    let t = trimmed_chars(&cv, 0);
    assert(cv@.skip(0) =~= cv@);
    let mut n: usize = t.len();
    assert(t@.take(n as int) =~= t@);
    while n > 0 && t[n - 1] == '/'
        invariant
            n <= t@.len(),
            crate::tools::image_generation::strip_trailing_slashes(t@)
                == crate::tools::image_generation::strip_trailing_slashes(t@.take(n as int)),
        decreases n,
    {
        assert(t@.take(n as int).drop_last() =~= t@.take(n - 1));
        n = n - 1;
    }
    let mut c: Vec<char> = Vec::new();
    push_range(&mut c, &t, 0, n);
    assert(c@ =~= t@.take(n as int));
    let http = chars_of("http://");
    let https = chars_of("https://");
    assert(c@.skip(0) =~= c@);
    if crate::text::starts_with_at(&c, 0, &http) || crate::text::starts_with_at(&c, 0, &https) {
        return Some(string_of(&c));
    }
    let h = match host_header {
        Some(h) => h,
        None => return None,
    };
    let hv = chars_of(h);
    let host = trimmed_chars(&hv, 0);
    assert(hv@.skip(0) =~= hv@);
    if host.len() == 0 {
        return None;
    }
    if !all_host_chars(&host) {
        return None;
    }
    let mut out: Vec<char> = Vec::new();
    push_str(&mut out, "http://");
    push_all(&mut out, &host);
    Some(string_of(&out))
}

} // verus!
