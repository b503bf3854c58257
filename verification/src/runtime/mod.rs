//! Daemon runtime rules shared by the web server, IPC and platform bridges:
//! accepted message content, the errors users see, engine status, the
//! per-configuration resource cache and web login throttling.

pub mod state;

use vstd::prelude::*;
use crate::text::{chars_of, decimal, push_all, push_range, push_str, string_of, trim, trim_bounds};

verus! {

/// Longest message a user may send, in characters.
pub const MAX_CONTENT_CHARS: usize = 20000;

/// Capacity of the event broadcast channel.
pub const EVENT_CAPACITY: usize = 4096;

/// Length of the web login throttling window, in milliseconds.
pub const LOGIN_WINDOW_MILLIS: u64 = 60000;

/// Failed logins a peer may make per window.
pub const LOGIN_ATTEMPT_LIMIT: u8 = 5;

/// `char::is_control`: the C0 and C1 control characters.
pub open spec fn is_control(c: char) -> bool {
    (c as u32) <= 0x1f || (0x7f <= (c as u32) && (c as u32) <= 0x9f)
}

fn is_control_char(c: char) -> (r: bool)
    ensures
        r == is_control(c),
{
    let u = c as u32;
    u <= 0x1f || (0x7f <= u && u <= 0x9f)
}

/// An error answered to an API request: an HTTP status and a message.
#[derive(Debug)]
pub struct ApiError {
    pub status: u16,
    pub message: String,
}

/// The outcome of checking message content, as `Ok(trimmed)` or
/// `Err((status, message))`.
pub open spec fn validate_content_spec(content: Seq<char>) -> Result<Seq<char>, (u16, Seq<char>)> {
    let t = trim(content);
    if t.len() == 0 {
        Err((400, "content cannot be empty"@))
    } else if t.len() > MAX_CONTENT_CHARS {
        Err((413, "content cannot exceed "@ + decimal(MAX_CONTENT_CHARS as nat) + " characters"@))
    } else if exists|i: int|
        0 <= i < t.len() && is_control(#[trigger] t[i]) && t[i] != '\n' && t[i] != '\r' && t[i]
            != '\t' {
        Err((400, "content contains unsupported control characters"@))
    } else {
        Ok(t)
    }
}

fn api_error(status: u16, message: &str) -> (r: ApiError)
    ensures
        r.status == status,
        r.message@ == message@,
{
    let mut v: Vec<char> = Vec::new();
    push_str(&mut v, message);
    ApiError { status, message: string_of(&v) }
}

/// Checks a user message: trimmed, not empty, not too long, and without
/// control characters other than line breaks and tabs.
pub fn validate_content(content: String) -> (r: Result<String, ApiError>)
    ensures
        match (r, validate_content_spec(content@)) {
            (Ok(s), Ok(t)) => s@ == t,
            (Err(e), Err((status, message))) => e.status == status && e.message@ == message,
            _ => false,
        },
{
    let v = chars_of(content.as_str());
    let (a, b) = trim_bounds(&v, 0, v.len());
    assert(v@.subrange(0, v@.len() as int) =~= v@);
    let ghost t = v@.subrange(a as int, b as int);
    if a == b {
        return Err(api_error(400, "content cannot be empty"));
    }
    if b - a > MAX_CONTENT_CHARS {
        let mut m: Vec<char> = Vec::new();
        push_str(&mut m, "content cannot exceed ");
        let n = crate::text::u64_decimal(MAX_CONTENT_CHARS as u64);
        push_all(&mut m, &n);
        push_str(&mut m, " characters");
        return Err(ApiError { status: 413, message: string_of(&m) });
    }
    let mut i: usize = a;
    while i < b
        invariant
            a <= i <= b <= v@.len(),
            t == v@.subrange(a as int, b as int),
            t == trim(content@),
            0 < t.len() <= MAX_CONTENT_CHARS,
            forall|k: int|
                0 <= k < i - a ==> !(is_control(#[trigger] t[k]) && t[k] != '\n' && t[k] != '\r' && t[k]
                    != '\t'),
        decreases b - i,
    {
        let c = v[i];
        if is_control_char(c) && c != '\n' && c != '\r' && c != '\t' {
            assert(t[i - a] == c);
            return Err(api_error(400, "content contains unsupported control characters"));
        }
        i = i + 1;
    }
    let mut out: Vec<char> = Vec::new();
    push_range(&mut out, &v, a, b);
    Ok(string_of(&out))
}

/// The characters of `s` kept in an error shown to users: no control
/// characters but line feeds and tabs.
pub open spec fn printable(s: Seq<char>) -> Seq<char>
    decreases s.len(),
{
    if s.len() == 0 {
        s
    } else if is_control(s.last()) && s.last() != '\n' && s.last() != '\t' {
        printable(s.drop_last())
    } else {
        printable(s.drop_last()).push(s.last())
    }
}

/// Longest error message shown to users, in characters.
pub const MAX_ERROR_CHARS: usize = 1000;

/// An error as users see it: printable characters only, at most
/// `MAX_ERROR_CHARS`; `operation failed` when nothing readable is left.
pub open spec fn safe_error_spec(message: Seq<char>) -> Seq<char> {
    let p = printable(message);
    let m = if p.len() > MAX_ERROR_CHARS {
        p.take(MAX_ERROR_CHARS as int)
    } else {
        p
    };
    if trim(m).len() == 0 {
        "operation failed"@
    } else {
        m
    }
}

/// Makes an error message safe to show: `message` is the error as
/// displayed.
pub fn safe_error_message(message: &str) -> (r: String)
    ensures
        r@ == safe_error_spec(message@),
{
    let v = chars_of(message);
    let mut out: Vec<char> = Vec::new();
    let mut i: usize = 0;
    while i < v.len()
        invariant
            i <= v@.len(),
            v@ == message@,
            out@ == printable(v@.take(i as int)),
        decreases v.len() - i,
    {
        assert(v@.take(i + 1).drop_last() =~= v@.take(i as int));
        let c = v[i];
        if !(is_control_char(c) && c != '\n' && c != '\t') {
            out.push(c);
        }
        i = i + 1;
    }
    assert(v@.take(v@.len() as int) =~= v@);
    let mut m: Vec<char> = Vec::new();
    let end = if out.len() > MAX_ERROR_CHARS {
        MAX_ERROR_CHARS
    } else {
        out.len()
    };
    push_range(&mut m, &out, 0, end);
    assert(m@ =~= if out@.len() > MAX_ERROR_CHARS {
        out@.take(MAX_ERROR_CHARS as int)
    } else {
        out@
    });
    let (a, b) = trim_bounds(&m, 0, m.len());
    assert(m@.subrange(0, m@.len() as int) =~= m@);
    if a == b {
        let mut f: Vec<char> = Vec::new();
        push_str(&mut f, "operation failed");
        return string_of(&f);
    }
    string_of(&m)
}

/// A token from freshly drawn random bytes: their URL-safe, unpadded
/// base64 form, which can stand in URLs and file names.
pub fn random_token_from(random: &Vec<u8>) -> (r: String)
    ensures
        r@ == crate::codec::base64_url_no_pad_encode(random@),
        r@.len() == crate::codec::unpadded_len(random@.len()),
{
    crate::codec::encode_base64_url_no_pad(random)
}

/// `prefix_token`: the form of generated ids.
pub fn random_id_from(prefix: &str, token: &str) -> (r: String)
    ensures
        r@ == prefix@ + seq!['_'] + token@,
{
    let mut v: Vec<char> = Vec::new();
    push_str(&mut v, prefix);
    v.push('_');
    push_str(&mut v, token);
    string_of(&v)
}

} // verus!
