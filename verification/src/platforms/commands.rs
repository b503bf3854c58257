//! Built-in platform commands (`/reset`): parsing, permissions and replies.

use vstd::prelude::*;
use crate::config::{permission_override, PlatformCommandPermission, PlatformsConfig};
use crate::i18n::{text, tr, Language};
use crate::text::{
    all_ws, any_non_ws, ascii_lower, chars_of, has_prefix, has_prefix_in, is_whitespace, is_ws,
    push_all, push_str, str_eq, string_of, to_ascii_lower, trim, word_end,
    trim_bounds,
};

verus! {

/// Id of the built-in conversation reset command.
pub const RESET_COMMAND_ID: &'static str = "reset";

/// A built-in command and who may run it unless configured otherwise.
#[derive(Clone, Copy, Debug)]
pub struct PlatformCommandDescriptor {
    pub id: &'static str,
    pub default_permission: PlatformCommandPermission,
}

/// What a platform message asks for, when it starts with the command prefix.
#[derive(Clone, Copy, Debug, PartialEq, Eq, Structural)]
pub enum ParsedPlatformCommand {
    Reset { has_arguments: bool },
    Unknown,
}

pub open spec fn reset_id() -> Seq<char> {
    seq!['r', 'e', 's', 'e', 't']
}

/// The built-in commands: only `reset`, admin-only by default.
pub fn builtin_commands() -> (v: Vec<PlatformCommandDescriptor>)
    ensures
        v@.len() == 1,
        v@[0].id@ == reset_id(),
        v@[0].default_permission == PlatformCommandPermission::AdminOnly,
{
    let mut v = Vec::new();
    v.push(
        PlatformCommandDescriptor {
            id: RESET_COMMAND_ID,
            default_permission: PlatformCommandPermission::AdminOnly,
        },
    );
    proof {
        reveal_strlit("reset");
    }
    v
}

/// The built-in command named `id`.
pub fn descriptor(id: &str) -> (d: Option<PlatformCommandDescriptor>)
    ensures
        d.is_some() <==> id@ == reset_id(),
        d matches Some(c) ==> c.id@ == reset_id() && c.default_permission
            == PlatformCommandPermission::AdminOnly,
{
    let commands = builtin_commands();
    if str_eq(commands[0].id, id) {
        Some(commands[0])
    } else {
        None
    }
}

/// `str::eq_ignore_ascii_case`.
pub open spec fn eq_ignore_ascii_case(a: Seq<char>, b: Seq<char>) -> bool {
    a.len() == b.len() && forall|i: int| 0 <= i < a.len() ==> ascii_lower(#[trigger] a[i])
        == ascii_lower(b[i])
}

/// Length of the leading run of non-whitespace characters.
pub open spec fn word_len(s: Seq<char>) -> nat
    decreases s.len(),
{
    if s.len() == 0 || is_ws(s[0]) {
        0
    } else {
        1 + word_len(s.drop_first())
    }
}

/// What `text` asks for under `prefix`: `None` when it is no command at all.
///
/// The trimmed text must start with the prefix; the command word follows it
/// directly (a space right after the prefix is an unknown command), is matched
/// case-insensitively, and anything but whitespace after it counts as arguments.
pub open spec fn parse_spec(prefix: Seq<char>, text: Seq<char>) -> Option<ParsedPlatformCommand> {
    let t = trim(text);
    if !has_prefix(t, prefix) {
        None
    } else {
        let rest = t.skip(prefix.len() as int);
        if rest.len() == 0 || is_ws(rest[0]) {
            Some(ParsedPlatformCommand::Unknown)
        } else {
            let w = word_len(rest);
            if eq_ignore_ascii_case(rest.take(w as int), reset_id()) {
                Some(ParsedPlatformCommand::Reset { has_arguments: !all_ws(rest.skip(w as int)) })
            } else {
                Some(ParsedPlatformCommand::Unknown)
            }
        }
    }
}

pub proof fn lemma_word_len(s: Seq<char>, k: int)
    requires
        0 <= k <= s.len(),
        forall|i: int| 0 <= i < k ==> !is_ws(#[trigger] s[i]),
        k == s.len() || is_ws(s[k]),
    ensures
        word_len(s) == k,
    decreases k,
{
    if k > 0 {
        let t = s.drop_first();
        assert forall|i: int| 0 <= i < k - 1 implies !is_ws(#[trigger] t[i]) by {
            assert(t[i] == s[i + 1]);
        }
        lemma_word_len(t, k - 1);
    }
}

fn is_reset_word(v: &Vec<char>, lo: usize, hi: usize) -> (r: bool)
    requires
        lo <= hi <= v@.len(),
    ensures
        r == eq_ignore_ascii_case(v@.subrange(lo as int, hi as int), reset_id()),
{
    let ghost w = v@.subrange(lo as int, hi as int);
    let target = chars_of(RESET_COMMAND_ID);
    proof {
        reveal_strlit("reset");
        assert(target@ =~= reset_id());
    }
    if hi - lo != 5 {
        return false;
    }
    let mut j: usize = 0;
    while j < 5
        invariant
            hi - lo == 5,
            hi <= v@.len(),
            w == v@.subrange(lo as int, hi as int),
            target@ == reset_id(),
            j <= 5,
            forall|m: int|
                0 <= m < j ==> ascii_lower(#[trigger] w[m]) == ascii_lower(reset_id()[m]),
        decreases 5 - j,
    {
        if to_ascii_lower(v[lo + j]) != to_ascii_lower(target[j]) {
            assert(w[j as int] == v@[lo + j]);
            return false;
        }
        assert(w[j as int] == v@[lo + j]);
        j = j + 1;
    }
    true
}

/// Parses a platform message as a command under the configured prefix.
pub fn parse(config: &PlatformsConfig, text: &str) -> (r: Option<ParsedPlatformCommand>)
    ensures
        r == parse_spec(config.command_prefix@, text@),
{
    let v = chars_of(text);
    let prefix = chars_of(config.command_prefix.as_str());
    let (a, b) = trim_bounds(&v, 0, v.len());
    let ghost t = v@.subrange(a as int, b as int);
    proof {
        assert(v@.subrange(0, v@.len() as int) =~= v@);
    }
    if !has_prefix_in(&v, a, b, &prefix) {
        return None;
    }
    let start = a + prefix.len();
    let ghost rest = t.skip(prefix@.len() as int);
    assert(rest =~= v@.subrange(start as int, b as int));
    if start == b || is_whitespace(v[start]) {
        return Some(ParsedPlatformCommand::Unknown);
    }
    let k = word_end(&v, start, b);
    proof {
        assert forall|j: int| 0 <= j < k - start implies !is_ws(#[trigger] rest[j]) by {
            assert(rest[j] == v@[start + j]);
        }
        lemma_word_len(rest, k - start);
        assert(rest.take(k - start) =~= v@.subrange(start as int, k as int));
        assert(rest.skip(k - start) =~= v@.subrange(k as int, b as int));
    }
    if !is_reset_word(&v, start, k) {
        return Some(ParsedPlatformCommand::Unknown);
    }
    let has_arguments = any_non_ws(&v, k, b);
    Some(ParsedPlatformCommand::Reset { has_arguments })
}

/// Whether the sender may run `command`.
pub fn is_allowed(config: &PlatformsConfig, command: &PlatformCommandDescriptor, is_admin: bool) -> (r:
    bool)
    ensures
        r == match permission_override(config.commands@, command.id@) {
            Some(p) => p == PlatformCommandPermission::Everyone || is_admin,
            None => command.default_permission == PlatformCommandPermission::Everyone
                || is_admin,
        },
{
    match config.command_permission(command.id, command.default_permission) {
        PlatformCommandPermission::Everyone => true,
        PlatformCommandPermission::AdminOnly => is_admin,
    }
}

/// The text a user types to run `command`: prefix then command id.
pub fn command_text(config: &PlatformsConfig, command: &str) -> (r: Vec<char>)
    ensures
        r@ == config.command_prefix@ + command@,
{
    let mut v = chars_of(config.command_prefix.as_str());
    push_str(&mut v, command);
    v
}

/// Reply to a sender who may not run `command`.
pub fn permission_denied_message(
    lang: Language,
    config: &PlatformsConfig,
    command: &PlatformCommandDescriptor,
) -> (r: String)
    ensures
        r@ == tr(lang, "Only platform administrators may use"@, "只有通讯平台管理员可以使用"@)
            + seq![' '] + config.command_prefix@ + command.id@ + tr(lang, "."@, "。"@),
{
    let mut v = chars_of(text(lang, "Only platform administrators may use", "只有通讯平台管理员可以使用"));
    v.push(' ');
    let c = command_text(config, command.id);
    push_all(&mut v, &c);
    push_str(&mut v, text(lang, ".", "。"));
    string_of(&v)
}

/// Reply to `/reset` with arguments.
pub fn reset_usage_message(lang: Language, config: &PlatformsConfig) -> (r: String)
    ensures
        r@ == tr(lang, "Usage"@, "用法"@) + tr(lang, ": "@, "："@) + config.command_prefix@
            + "reset"@,
{
    let mut v = chars_of(text(lang, "Usage", "用法"));
    push_str(&mut v, text(lang, ": ", "："));
    let c = command_text(config, RESET_COMMAND_ID);
    push_all(&mut v, &c);
    string_of(&v)
}

/// Reply to an unknown command, listing the available ones.
pub fn unknown_command_message(lang: Language, config: &PlatformsConfig) -> (r: String)
    ensures
        r@ == tr(lang, "Unknown command. Available commands: "@, "未知命令。可用命令："@)
            + config.command_prefix@ + "reset"@,
{
    let commands = builtin_commands();
    let mut v = chars_of(text(lang, "Unknown command. Available commands: ", "未知命令。可用命令："));
    let mut i: usize = 0;
    let ghost head = v@;
    while i < commands.len()
        invariant
            commands@.len() == 1,
            commands@[0].id@ == reset_id(),
            i <= 1,
            i == 0 ==> v@ == head,
            i == 1 ==> v@ == head + config.command_prefix@ + reset_id(),
        decreases commands.len() - i,
    {
        if i > 0 {
            push_str(&mut v, text(lang, ", ", "、"));
        }
        let c = command_text(config, commands[i].id);
        push_all(&mut v, &c);
        i = i + 1;
    }
    proof {
        reveal_strlit("reset");
    }
    string_of(&v)
}

} // verus!
