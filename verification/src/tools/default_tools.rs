//! The built-in file and search tools: which search roots are refused and
//! which directories a root search skips, which paths may never go to the
//! Trash, what counts as a binary file, and how long outputs are cut.
//!
//! Reading files, running ripgrep and moving to the Trash are the host's.

use vstd::prelude::*;
use crate::i18n::{text, tr, Language};
use crate::path::{path_join, path_under, path_under_exec, same_path, same_path_exec, join_path};
use crate::text::{
    chars_of, decimal, line_list, lines, push_all, push_range, push_str, string_of, trim,
    trim_bounds, u64_decimal, views,
};

verus! {

/// A progress message that starts with this is the call's final summary,
/// shown line by line rather than as passing progress.
pub const TOOL_SUMMARY_PREFIX: &'static str = "__tool_summary__";

/// Whether a search root is one of the broad system trees that are
/// refused (`/usr`, `/var`, `/etc`).
pub open spec fn broad_system_path(p: Seq<char>) -> bool {
    same_path(p, "/usr"@) || same_path(p, "/var"@) || same_path(p, "/etc"@)
}

/// The search root, or `None` when it is a broad system tree: a search
/// of `/` itself is protected by excludes, one of `/usr`, `/var` or `/etc`
/// is refused.
pub fn prepare_search_path(path: &str) -> (r: Option<String>)
    ensures
        match r {
            Some(p) => !broad_system_path(path@) && p@ == path@,
            None => broad_system_path(path@),
        },
{
    if same_path_exec(path, "/usr") || same_path_exec(path, "/var") || same_path_exec(path, "/etc") {
        None
    } else {
        Some(string_of(&chars_of(path)))
    }
}

/// The directories (as ripgrep globs) a search of `/` skips.
pub open spec fn root_excludes() -> Seq<Seq<char>> {
    seq![
        "--glob=!dev/**"@,
        "--glob=!proc/**"@,
        "--glob=!sys/**"@,
        "--glob=!run/**"@,
        "--glob=!tmp/**"@,
        "--glob=!var/cache/**"@,
        "--glob=!var/lib/**"@,
        "--glob=!var/log/**"@,
        "--glob=!usr/**"@,
        "--glob=!nix/**"@,
        "--glob=!snap/**"@,
        "--glob=!flatpak/**"@,
    ]
}

/// The exclude arguments of a search under `root`: `.git` directories
/// always, and for `/` itself the system trees too.
pub open spec fn search_excludes_spec(root: Seq<char>) -> Seq<Seq<char>> {
    if same_path(root, "/"@) {
        seq!["--glob=!**/.git/**"@] + root_excludes()
    } else {
        seq!["--glob=!**/.git/**"@]
    }
}

fn owned(s: &str) -> (r: String)
    ensures
        r@ == s@,
{
    string_of(&chars_of(s))
}

/// The ripgrep exclude arguments for a search under `root`.
pub fn search_exclude_args(root: &str) -> (r: Vec<String>)
    ensures
        Seq::new(r@.len(), |i: int| r@[i]@) == search_excludes_spec(root@),
{
    let mut args: Vec<String> = Vec::new();
    args.push(owned("--glob=!**/.git/**"));
    if same_path_exec(root, "/") {
        args.push(owned("--glob=!dev/**"));
        args.push(owned("--glob=!proc/**"));
        args.push(owned("--glob=!sys/**"));
        args.push(owned("--glob=!run/**"));
        args.push(owned("--glob=!tmp/**"));
        args.push(owned("--glob=!var/cache/**"));
        args.push(owned("--glob=!var/lib/**"));
        args.push(owned("--glob=!var/log/**"));
        args.push(owned("--glob=!usr/**"));
        args.push(owned("--glob=!nix/**"));
        args.push(owned("--glob=!snap/**"));
        args.push(owned("--glob=!flatpak/**"));
    }
    assert(Seq::new(args@.len(), |i: int| args@[i]@) =~= search_excludes_spec(root@));
    args
}

/// A byte that counts as non-printable in a text sample: a control byte
/// other than tab, newline, vertical tab, form feed and carriage return.
pub open spec fn non_printable(b: u8) -> bool {
    b < 9 || (13 < b && b < 32)
}

/// How many bytes of `s` are non-printable.
pub open spec fn non_printable_count(s: Seq<u8>) -> nat
    decreases s.len(),
{
    if s.len() == 0 {
        0
    } else {
        non_printable_count(s.drop_last()) + if non_printable(s.last()) {
            1nat
        } else {
            0nat
        }
    }
}

/// A sample of a file's start looks binary when it holds a NUL byte or
/// when more than 30% of its bytes are non-printable.
pub open spec fn looks_binary_spec(sample: Seq<u8>) -> bool {
    sample.contains(0u8) || (sample.len() > 0 && non_printable_count(sample) * 10 > sample.len()
        * 3)
}

proof fn lemma_count_bound(s: Seq<u8>)
    ensures
        non_printable_count(s) <= s.len(),
    decreases s.len(),
{
    if s.len() > 0 {
        lemma_count_bound(s.drop_last());
    }
}

/// Whether a file whose first bytes are `sample` is refused as binary.
pub fn looks_binary(sample: &[u8]) -> (r: bool)
    requires
        sample@.len() <= 0x1000_0000,
    ensures
        r == looks_binary_spec(sample@),
{
    let n = sample.len();
    let mut count: usize = 0;
    let mut zero = false;
    let mut i: usize = 0;
    while i < n
        invariant
            n == sample@.len() <= 0x1000_0000,
            i <= n,
            count == non_printable_count(sample@.take(i as int)),
            count <= i,
            zero == sample@.take(i as int).contains(0u8),
        decreases n - i,
    {
        let b = sample[i];
        proof {
            let t = sample@.take(i as int + 1);
            assert(t.drop_last() =~= sample@.take(i as int));
            assert(t.last() == b);
            if b == 0 {
                assert(t[i as int] == 0u8);
            }
            if t.contains(0u8) && b != 0 {
                let j = choose|j: int| 0 <= j < t.len() && t[j] == 0u8;
                assert(sample@.take(i as int)[j] == 0u8);
            }
        }
        if b == 0 {
            zero = true;
        }
        if b < 9 || (13 < b && b < 32) {
            count = count + 1;
        }
        i = i + 1;
    }
    assert(sample@.take(n as int) =~= sample@);
    zero || (n > 0 && count * 10 > n * 3)
}

/// Why a path may not be moved to the Trash.
#[derive(PartialEq, Eq, Structural, Debug, Clone, Copy)]
pub enum TrashRefusal {
    /// The root or a top-level system directory.
    DangerousSystemPath,
    /// The workspace the tools run in.
    WorkspaceRoot,
    /// The home directory.
    HomeDirectory,
    /// The Trash itself, or something inside it.
    TrashDirectory,
}

/// The system paths that may never be trashed.
pub open spec fn dangerous_paths() -> Seq<Seq<char>> {
    seq![
        "/"@,
        "/bin"@,
        "/boot"@,
        "/dev"@,
        "/etc"@,
        "/home"@,
        "/opt"@,
        "/proc"@,
        "/root"@,
        "/run"@,
        "/sbin"@,
        "/sys"@,
        "/tmp"@,
        "/usr"@,
        "/var"@,
    ]
}

/// The Trash directory under a home directory.
pub open spec fn trash_dir(home: Seq<char>) -> Seq<char> {
    path_join(home, ".local/share/Trash"@)
}

/// Whether `path` may go to the Trash, given the (canonical) workspace
/// and the home directory where one is known; if not, why.
pub open spec fn trash_refusal_spec(path: Seq<char>, workspace: Seq<char>, home: Option<Seq<char>>) -> Option<
    TrashRefusal,
> {
    if exists|i: int| 0 <= i < dangerous_paths().len() && same_path(path, #[trigger] dangerous_paths()[i]) {
        Some(TrashRefusal::DangerousSystemPath)
    } else if same_path(path, workspace) {
        Some(TrashRefusal::WorkspaceRoot)
    } else {
        match home {
            Some(h) => if same_path(path, h) {
                Some(TrashRefusal::HomeDirectory)
            } else if same_path(path, trash_dir(h)) || path_under(path, trash_dir(h)) {
                Some(TrashRefusal::TrashDirectory)
            } else {
                None
            },
            None => None,
        }
    }
}

/// Checks a trash target: not a system path, the workspace, the home
/// directory, or the Trash.
pub fn ensure_safe_trash_target(path: &str, workspace: &str, home: Option<&str>) -> (r: Result<
    (),
    TrashRefusal,
>)
    ensures
        match trash_refusal_spec(path@, workspace@, match home {
            Some(h) => Some(h@),
            None => None,
        }) {
            Some(why) => r == Err::<(), TrashRefusal>(why),
            None => r is Ok,
        },
{
    let dangerous: [&str; 15] = [
        "/",
        "/bin",
        "/boot",
        "/dev",
        "/etc",
        "/home",
        "/opt",
        "/proc",
        "/root",
        "/run",
        "/sbin",
        "/sys",
        "/tmp",
        "/usr",
        "/var",
    ];
    assert(Seq::new(15, |i: int| dangerous@[i]@) =~= dangerous_paths());
    let mut i: usize = 0;
    while i < 15
        invariant
            i <= 15,
            Seq::new(15, |i: int| dangerous@[i]@) == dangerous_paths(),
            forall|k: int| 0 <= k < i ==> !same_path(path@, #[trigger] dangerous_paths()[k]),
        decreases 15 - i,
    {
        if same_path_exec(path, dangerous[i]) {
            assert(dangerous_paths()[i as int] == dangerous@[i as int]@);
            return Err(TrashRefusal::DangerousSystemPath);
        }
        assert(dangerous_paths()[i as int] == dangerous@[i as int]@);
        i = i + 1;
    }
    if same_path_exec(path, workspace) {
        return Err(TrashRefusal::WorkspaceRoot);
    }
    match home {
        Some(h) => {
            if same_path_exec(path, h) {
                return Err(TrashRefusal::HomeDirectory);
            }
            let trash = join_path(h, ".local/share/Trash");
            if same_path_exec(path, trash.as_str()) || path_under_exec(path, trash.as_str()) {
                return Err(TrashRefusal::TrashDirectory);
            }
            Ok(())
        },
        None => Ok(()),
    }
}

/// The result limit of a search: 100 by default, kept within 1..=500.
pub open spec fn max_results_spec(requested: Option<u64>) -> nat {
    match requested {
        Some(n) => if n < 1 {
            1
        } else if n > 500 {
            500
        } else {
            n as nat
        },
        None => 100,
    }
}

pub fn max_results(requested: Option<u64>) -> (r: usize)
    ensures
        r == max_results_spec(requested),
{
    match requested {
        Some(n) => if n < 1 {
            1
        } else if n > 500 {
            500
        } else {
            n as usize
        },
        None => 100,
    }
}

/// A required string argument, trimmed; `None` when it is missing or
/// blank.
pub fn required(value: Option<&str>) -> (r: Option<String>)
    ensures
        match value {
            Some(v) => if trim(v@).len() > 0 {
                r matches Some(s) && s@ == trim(v@)
            } else {
                r is None
            },
            None => r is None,
        },
{
    match value {
        Some(v) => {
            let c = chars_of(v);
            let (lo, hi) = trim_bounds(&c, 0, c.len());
            assert(c@.subrange(0, c@.len() as int) =~= c@);
            if lo < hi {
                let mut out: Vec<char> = Vec::new();
                push_range(&mut out, &c, lo, hi);
                Some(string_of(&out))
            } else {
                None
            }
        },
        None => None,
    }
}

/// The error for a missing required argument `key`.
pub fn missing_argument_message(lang: Language, key: &str) -> (r: String)
    ensures
        r@ == tr(lang, "required argument missing"@, "缺少必需参数"@) + ": "@ + key@,
{
    let mut v: Vec<char> = Vec::new();
    push_str(&mut v, text(lang, "required argument missing", "缺少必需参数"));
    push_str(&mut v, ": ");
    push_str(&mut v, key);
    string_of(&v)
}

/// Lines joined with `\n`.
pub open spec fn join_lines(ls: Seq<Seq<char>>) -> Seq<char>
    decreases ls.len(),
{
    if ls.len() == 0 {
        Seq::empty()
    } else if ls.len() == 1 {
        ls[0]
    } else {
        join_lines(ls.drop_last()) + seq!['\n'] + ls.last()
    }
}

/// A listing cut to its first `max` lines, with a note saying so when
/// lines were dropped.
pub open spec fn limited_lines_spec(out: Seq<char>, max: nat, lang: Language) -> Seq<char> {
    let ls = lines(out);
    if ls.len() > max {
        join_lines(ls.take(max as int)) + "\n["@ + tr(lang, "truncated to the first"@, "已截断到前"@)
            + " "@ + decimal(max) + " "@ + tr(lang, "results"@, "条结果"@) + "]"@
    } else {
        join_lines(ls)
    }
}

/// The first `max` lines of a listing, noting when there were more.
pub fn limited_lines(out: &str, max: u64, lang: Language) -> (r: String)
    ensures
        r@ == limited_lines_spec(out@, max as nat, lang),
{
    let v = chars_of(out);
    let ls = line_list(&v);
    let n = ls.len();
    let keep: usize = if (n as u64) > max {
        max as usize
    } else {
        n
    };
    let ghost kept = if n > max {
        views(ls@).take(max as int)
    } else {
        views(ls@)
    };
    assert(keep <= n);
    let mut joined: Vec<char> = Vec::new();
    let mut i: usize = 0;
    while i < keep
        invariant
            keep <= n == ls@.len(),
            i <= keep,
            joined@ == join_lines(views(ls@).take(i as int)),
        decreases keep - i,
    {
        let ghost before = joined@;
        if i > 0 {
            joined.push('\n');
        }
        push_all(&mut joined, &ls[i]);
        proof {
            let t = views(ls@).take(i as int + 1);
            assert(t.drop_last() =~= views(ls@).take(i as int));
            assert(t.last() == ls@[i as int]@);
            if i == 0 {
                assert(joined@ =~= t[0]);
            } else {
                assert(joined@ =~= join_lines(t.drop_last()) + seq!['\n'] + t.last());
            }
        }
        i = i + 1;
    }
    proof {
        if n <= max {
            assert(views(ls@).take(n as int) =~= views(ls@));
        }
    }
    assert(joined@ == join_lines(kept));
    if (n as u64) > max {
        push_str(&mut joined, "\n[");
        push_str(&mut joined, text(lang, "truncated to the first", "已截断到前"));
        push_str(&mut joined, " ");
        let d = u64_decimal(max);
        push_all(&mut joined, &d);
        push_str(&mut joined, " ");
        push_str(&mut joined, text(lang, "results", "条结果"));
        push_str(&mut joined, "]");
    }
    string_of(&joined)
}

/// What ripgrep's "no match" exit (status 1 with nothing on stdout) is
/// reported as: a plain "no matches", with whatever it wrote on stderr;
/// `None` for any other outcome, which is reported as command output.
pub open spec fn no_match_report_spec(
    exit_code: Option<i32>,
    stdout_empty: bool,
    stderr: Seq<char>,
    lang: Language,
) -> Option<Seq<char>> {
    if exit_code == Some(1i32) && stdout_empty {
        if trim(stderr).len() == 0 {
            Some(tr(lang, "no matches"@, "无匹配"@))
        } else {
            Some(tr(lang, "no matches"@, "无匹配"@) + "\n[stderr]\n"@ + trim(stderr))
        }
    } else {
        None
    }
}

pub fn no_match_report(exit_code: Option<i32>, stdout_empty: bool, stderr: &str, lang: Language) -> (r:
    Option<String>)
    ensures
        match r {
            Some(s) => no_match_report_spec(exit_code, stdout_empty, stderr@, lang) == Some(s@),
            None => no_match_report_spec(exit_code, stdout_empty, stderr@, lang) is None,
        },
{
    let is_one = match exit_code {
        Some(c) => c == 1,
        None => false,
    };
    if !(is_one && stdout_empty) {
        return None;
    }
    let e = chars_of(stderr);
    let (lo, hi) = trim_bounds(&e, 0, e.len());
    assert(e@.subrange(0, e@.len() as int) =~= e@);
    let mut v: Vec<char> = Vec::new();
    push_str(&mut v, text(lang, "no matches", "无匹配"));
    if lo < hi {
        push_str(&mut v, "\n[stderr]\n");
        push_range(&mut v, &e, lo, hi);
    }
    Some(string_of(&v))
}

/// A command's output cut to its tail.
pub struct ClippedOutput {
    pub text: String,
    pub truncated: bool,
    pub omitted_chars: usize,
}

/// `s` without its leading newlines.
pub open spec fn drop_leading_newlines(s: Seq<char>) -> Seq<char>
    decreases s.len(),
{
    if s.len() > 0 && s[0] == '\n' {
        drop_leading_newlines(s.drop_first())
    } else {
        s
    }
}

/// The trimmed output, or, beyond `max` characters, a note of how many
/// leading characters were left out followed by the tail (without its
/// leading newlines).
pub open spec fn clipped_text_spec(value: Seq<char>, max: nat, lang: Language) -> Seq<char> {
    let v = trim(value);
    if v.len() <= max {
        v
    } else {
        let omitted = (v.len() - max) as nat;
        "...["@ + tr(lang, "omitted"@, "已省略"@) + " "@ + decimal(omitted) + " "@ + tr(
            lang,
            "chars, showing tail"@,
            "字符，显示尾部"@,
        ) + "]\n"@ + drop_leading_newlines(v.skip(omitted as int))
    }
}

/// Cuts a command's trimmed output to at most `max` characters of tail.
pub fn clip_output_with_meta(value: &str, max: usize, lang: Language) -> (r: ClippedOutput)
    ensures
        r.text@ == clipped_text_spec(value@, max as nat, lang),
        r.truncated == (trim(value@).len() > max),
        r.omitted_chars == if trim(value@).len() > max {
            trim(value@).len() - max
        } else {
            0
        },
{
    let c = chars_of(value);
    let (lo, hi) = trim_bounds(&c, 0, c.len());
    assert(c@.subrange(0, c@.len() as int) =~= c@);
    let total = hi - lo;
    if total <= max {
        let mut out: Vec<char> = Vec::new();
        push_range(&mut out, &c, lo, hi);
        return ClippedOutput { text: string_of(&out), truncated: false, omitted_chars: 0 };
    }
    let omitted = total - max;
    let ghost v = c@.subrange(lo as int, hi as int);
    let mut start = lo + omitted;
    assert(v.skip(omitted as int) =~= c@.subrange(start as int, hi as int));
    while start < hi && c[start] == '\n'
        invariant
            lo + omitted <= start <= hi <= c@.len(),
            drop_leading_newlines(c@.subrange(start as int, hi as int)) == drop_leading_newlines(
                v.skip(omitted as int),
            ),
        decreases hi - start,
    {
        assert(c@.subrange(start as int, hi as int).drop_first() =~= c@.subrange(
            start as int + 1,
            hi as int,
        ));
        start = start + 1;
    }
    assert(drop_leading_newlines(c@.subrange(start as int, hi as int)) == c@.subrange(
        start as int,
        hi as int,
    ));
    let mut out: Vec<char> = Vec::new();
    push_str(&mut out, "...[");
    push_str(&mut out, text(lang, "omitted", "已省略"));
    push_str(&mut out, " ");
    let d = u64_decimal(omitted as u64);
    push_all(&mut out, &d);
    push_str(&mut out, " ");
    push_str(&mut out, text(lang, "chars, showing tail", "字符，显示尾部"));
    push_str(&mut out, "]\n");
    push_range(&mut out, &c, start, hi);
    ClippedOutput { text: string_of(&out), truncated: true, omitted_chars: omitted }
}

} // verus!
