//! Flattening Markdown for plain-text chat surfaces.

use vstd::prelude::*;
use crate::text::{
    chars_of, has_prefix, lemma_lines_unfold, line_body, lines, newline_in, push_all, push_range,
    skip_ws, skip_ws_back, string_of, trim_end, trim_start,
};

verus! {

/// Index of the first `c` in `s` at or after `from`, or -1.
pub open spec fn find_char(s: Seq<char>, c: char, from: int) -> int
    decreases s.len() - from,
{
    if from < 0 || from >= s.len() {
        -1
    } else if s[from] == c {
        from
    } else {
        find_char(s, c, from + 1)
    }
}

pub proof fn lemma_find_char_range(s: Seq<char>, c: char, from: int)
    requires
        0 <= from,
    ensures
        find_char(s, c, from) == -1 || (from <= find_char(s, c, from) < s.len() && s[find_char(
            s,
            c,
            from,
        )] == c),
    decreases s.len() - from,
{
    if from < s.len() && s[from] != c {
        lemma_find_char_range(s, c, from + 1);
    }
}

pub proof fn lemma_find_char_at(s: Seq<char>, c: char, from: int, k: int)
    requires
        0 <= from <= k <= s.len(),
        forall|j: int| from <= j < k ==> s[j] != c,
        k == s.len() || s[k] == c,
    ensures
        find_char(s, c, from) == if k < s.len() {
            k
        } else {
            -1
        },
    decreases k - from,
{
    if from < k {
        lemma_find_char_at(s, c, from + 1, k);
    }
}

/// The `[text](url)` link opening at `i`: the positions of its `]` and `)`.
pub open spec fn link_at(s: Seq<char>, i: int) -> Option<(int, int)> {
    let close = find_char(s, ']', i + 1);
    if close >= 0 && close + 1 < s.len() && s[close + 1] == '(' {
        let end = find_char(s, ')', close + 2);
        if end >= 0 {
            Some((close, end))
        } else {
            None
        }
    } else {
        None
    }
}

/// A link rendered as `text (url)`; the url is left out when empty or equal to the text.
pub open spec fn render_link(text: Seq<char>, url: Seq<char>) -> Seq<char> {
    if url.len() > 0 && url != text {
        text + seq![' ', '('] + url + seq![')']
    } else {
        text
    }
}

pub proof fn lemma_link_range(s: Seq<char>, i: int)
    requires
        0 <= i < s.len(),
    ensures
        link_at(s, i) matches Some((close, end)) ==> i + 1 <= close && close + 2 <= end < s.len(),
{
    lemma_find_char_range(s, ']', i + 1);
    let close = find_char(s, ']', i + 1);
    if close >= 0 {
        lemma_find_char_range(s, ')', close + 2);
    }
}

/// What inline-markup stripping makes of `s[i..]`: `**`, `__` and backticks
/// are dropped, `[text](url)` becomes `text (url)`, everything else is kept.
pub open spec fn strip_from(s: Seq<char>, i: int) -> Seq<char>
    decreases s.len() - i,
{
    if i < 0 || i >= s.len() {
        seq![]
    } else if s[i] == '*' && i + 1 < s.len() && s[i + 1] == '*' {
        strip_from(s, i + 2)
    } else if s[i] == '_' && i + 1 < s.len() && s[i + 1] == '_' {
        strip_from(s, i + 2)
    } else if s[i] == '`' {
        strip_from(s, i + 1)
    } else if s[i] == '[' && link_at(s, i) is Some {
        proof {
            lemma_link_range(s, i);
        }
        let (close, end) = link_at(s, i).unwrap();
        render_link(s.subrange(i + 1, close), s.subrange(close + 2, end)) + strip_from(s, end + 1)
    } else {
        seq![s[i]] + strip_from(s, i + 1)
    }
}

/// Index of the first `c` in `v[from..]`, or `v.len()`.
fn find_char_exec(v: &Vec<char>, c: char, from: usize) -> (k: usize)
    requires
        from <= v@.len(),
    ensures
        find_char(v@, c, from as int) == if k < v@.len() {
            k as int
        } else {
            -1
        },
        from <= k <= v@.len(),
{
    let mut k = from;
    while k < v.len() && v[k] != c
        invariant
            from <= k <= v@.len(),
            forall|j: int| from <= j < k ==> v@[j] != c,
        decreases v.len() - k,
    {
        k = k + 1;
    }
    proof {
        lemma_find_char_at(v@, c, from as int, k as int);
    }
    k
}

/// Removes `**`, `__`, backticks and rewrites `[text](url)` as `text (url)`.
pub fn strip_inline_markup(line: &str) -> (r: String)
    ensures
        r@ == strip_from(line@, 0),
{
    let chars = chars_of(line);
    let out = strip_chars(&chars);
    string_of(&out)
}

fn strip_chars(chars: &Vec<char>) -> (out: Vec<char>)
    ensures
        out@ == strip_from(chars@, 0),
{
    let n = chars.len();
    let mut out: Vec<char> = Vec::new();
    let mut i: usize = 0;
    while i < n
        invariant
            n == chars@.len(),
            i <= n,
            out@ + strip_from(chars@, i as int) == strip_from(chars@, 0),
        decreases n - i,
    {
        let c = chars[i];
        if c == '*' && i + 1 < n && chars[i + 1] == '*' {
            i = i + 2;
        } else if c == '_' && i + 1 < n && chars[i + 1] == '_' {
            i = i + 2;
        } else if c == '`' {
            i = i + 1;
        } else {
            let mut handled = false;
            if c == '[' {
                let close = find_char_exec(chars, ']', i + 1);
                if close < n && close + 1 < n && chars[close + 1] == '(' {
                    let end = find_char_exec(chars, ')', close + 2);
                    if end < n {
                        let ghost before = out@;
                        let mut text = Vec::new();
                        push_range(&mut text, chars, i + 1, close);
                        let mut url = Vec::new();
                        push_range(&mut url, chars, close + 2, end);
                        push_all(&mut out, &text);
                        if url.len() > 0 && !crate::text::chars_eq(&url, &text) {
                            out.push(' ');
                            out.push('(');
                            push_all(&mut out, &url);
                            out.push(')');
                        }
                        proof {
                            let rl = render_link(text@, url@);
                            assert(out@ =~= before + rl);
                            assert(before + rl + strip_from(chars@, end + 1) =~= before + (rl
                                + strip_from(chars@, end + 1)));
                        }
                        i = end + 1;
                        handled = true;
                    }
                }
            }
            if !handled {
                let ghost before = out@;
                out.push(c);
                assert(before.push(c) + strip_from(chars@, i + 1) =~= before + (seq![c]
                    + strip_from(chars@, i + 1)));
                i = i + 1;
            }
        }
    }
    assert(out@ =~= strip_from(chars@, 0));
    out
}

/// `s` without its leading `c` characters (`str::trim_start_matches`).
pub open spec fn trim_start_char(s: Seq<char>, c: char) -> Seq<char>
    decreases s.len(),
{
    if s.len() > 0 && s[0] == c {
        trim_start_char(s.drop_first(), c)
    } else {
        s
    }
}

pub open spec fn is_fence(trimmed: Seq<char>) -> bool {
    has_prefix(trimmed, seq!['`', '`', '`']) || has_prefix(trimmed, seq!['~', '~', '~'])
}

/// The part of a non-code line whose inline markup is stripped: a heading
/// loses its `#`s, a quote its `> `.
pub open spec fn line_content(line: Seq<char>) -> Seq<char> {
    let trimmed = trim_start(line);
    if trimmed.len() > 0 && trimmed[0] == '#' {
        trim_start(trim_start_char(trimmed, '#'))
    } else if has_prefix(trimmed, seq!['>', ' ']) {
        trimmed.skip(2)
    } else {
        line
    }
}

/// Output so far and whether a code fence is open.
pub struct PlainState {
    pub out: Seq<char>,
    pub in_fence: bool,
}

pub open spec fn plain_step(st: PlainState, line: Seq<char>) -> PlainState {
    if is_fence(trim_start(line)) {
        PlainState { out: st.out, in_fence: !st.in_fence }
    } else if st.in_fence {
        PlainState { out: st.out + line + seq!['\n'], in_fence: true }
    } else {
        PlainState {
            out: st.out + strip_from(line_content(line), 0) + seq!['\n'],
            in_fence: false,
        }
    }
}

pub open spec fn plain_fold(ls: Seq<Seq<char>>) -> PlainState
    decreases ls.len(),
{
    if ls.len() == 0 {
        PlainState { out: seq![], in_fence: false }
    } else {
        plain_step(plain_fold(ls.drop_last()), ls.last())
    }
}

/// Plain text for a Markdown reply: code fences dropped (their bodies kept
/// verbatim), headings and quotes unmarked, inline markup stripped per line.
pub open spec fn markdown_to_plain_spec(text: Seq<char>) -> Seq<char> {
    trim_end(plain_fold(lines(text)).out)
}

proof fn lemma_trim_start_char_index(s: Seq<char>, c: char, k: int)
    requires
        0 <= k <= s.len(),
        forall|i: int| 0 <= i < k ==> #[trigger] s[i] == c,
        k == s.len() || s[k] != c,
    ensures
        trim_start_char(s, c) == s.skip(k),
    decreases k,
{
    if k == 0 {
        assert(s.skip(0) =~= s);
    } else {
        let t = s.drop_first();
        assert forall|i: int| 0 <= i < k - 1 implies #[trigger] t[i] == c by {
            assert(t[i] == s[i + 1]);
        }
        lemma_trim_start_char_index(t, c, k - 1);
        assert(t.skip(k - 1) =~= s.skip(k));
    }
}

/// A heading line loses its whole run of `#`s and the whitespace after it:
/// when the line, leading whitespace aside, starts with exactly `k` `#`s,
/// what remains is the rest of the line with its leading whitespace removed.
pub proof fn headings_lose_their_whole_marker(line: Seq<char>, k: int)
    requires
        1 <= k <= trim_start(line).len(),
        forall|i: int| 0 <= i < k ==> #[trigger] trim_start(line)[i] == '#',
        k == trim_start(line).len() || trim_start(line)[k] != '#',
    ensures
        line_content(line) == trim_start(trim_start(line).skip(k)),
{
    lemma_trim_start_char_index(trim_start(line), '#', k);
}

/// Bounds of `line_content(v[lo..hi])`.
fn line_content_bounds(v: &Vec<char>, lo: usize, hi: usize) -> (r: (usize, usize))
    requires
        lo <= hi <= v@.len(),
    ensures
        lo <= r.0 <= r.1 <= hi,
        line_content(v@.subrange(lo as int, hi as int)) == v@.subrange(r.0 as int, r.1 as int),
{
    let ghost line = v@.subrange(lo as int, hi as int);
    let a = skip_ws(v, lo, hi);
    let ghost trimmed = v@.subrange(a as int, hi as int);
    if a < hi && v[a] == '#' {
        let mut b = a;
        while b < hi && v[b] == '#'
            invariant
                a <= b <= hi <= v@.len(),
                forall|j: int| a <= j < b ==> v@[j] == '#',
            decreases hi - b,
        {
            b = b + 1;
        }
        proof {
            assert forall|j: int| 0 <= j < b - a implies #[trigger] trimmed[j] == '#' by {
                assert(trimmed[j] == v@[a + j]);
            }
            if b < hi {
                assert(trimmed[b - a] == v@[b as int]);
            }
            lemma_trim_start_char_index(trimmed, '#', b - a);
            assert(trimmed.skip(b - a) =~= v@.subrange(b as int, hi as int));
        }
        let c = skip_ws(v, b, hi);
        (c, hi)
    } else if hi - a >= 2 && v[a] == '>' && v[a + 1] == ' ' {
        proof {
            assert(trimmed.take(2) =~= seq!['>', ' ']);
            assert(trimmed.skip(2) =~= v@.subrange(a + 2, hi as int));
        }
        (a + 2, hi)
    } else {
        proof {
            if trimmed.len() >= 2 && trimmed.take(2) == seq!['>', ' '] {
                assert(trimmed.take(2)[0] == v@[a as int]);
                assert(trimmed.take(2)[1] == v@[a + 1]);
            }
        }
        (lo, hi)
    }
}

fn is_fence_at(v: &Vec<char>, a: usize, hi: usize) -> (r: bool)
    requires
        a <= hi <= v@.len(),
    ensures
        r == is_fence(v@.subrange(a as int, hi as int)),
{
    let ghost t = v@.subrange(a as int, hi as int);
    if hi - a >= 3 {
        proof {
            assert(t.take(3)[0] == v@[a as int]);
            assert(t.take(3)[1] == v@[a + 1]);
            assert(t.take(3)[2] == v@[a + 2]);
        }
        let r = (v[a] == '`' && v[a + 1] == '`' && v[a + 2] == '`') || (v[a] == '~' && v[a + 1]
            == '~' && v[a + 2] == '~');
        proof {
            if v@[a as int] == '`' && v@[a + 1] == '`' && v@[a + 2] == '`' {
                assert(t.take(3) =~= seq!['`', '`', '`']);
            }
            if v@[a as int] == '~' && v@[a + 1] == '~' && v@[a + 2] == '~' {
                assert(t.take(3) =~= seq!['~', '~', '~']);
            }
        }
        r
    } else {
        false
    }
}

/// One line `v[lo..hi]`.
fn plain_step_exec(out: &mut Vec<char>, in_fence: &mut bool, v: &Vec<char>, lo: usize, hi: usize)
    requires
        lo <= hi <= v@.len(),
    ensures
        (PlainState { out: final(out)@, in_fence: *final(in_fence) }) == plain_step(
            PlainState { out: old(out)@, in_fence: *old(in_fence) },
            v@.subrange(lo as int, hi as int),
        ),
{
    let a = skip_ws(v, lo, hi);
    if is_fence_at(v, a, hi) {
        *in_fence = !*in_fence;
        return ;
    }
    let ghost o = out@;
    if *in_fence {
        push_range(out, v, lo, hi);
        out.push('\n');
        assert(out@ =~= o + v@.subrange(lo as int, hi as int) + seq!['\n']);
        return ;
    }
    let (x, y) = line_content_bounds(v, lo, hi);
    let mut content = Vec::new();
    push_range(&mut content, v, x, y);
    assert(content@ =~= v@.subrange(x as int, y as int));
    let stripped = strip_chars(&content);
    push_all(out, &stripped);
    out.push('\n');
    assert(out@ =~= o + strip_from(line_content(v@.subrange(lo as int, hi as int)), 0) + seq!['\n']);
}

/// Strips Markdown decoration for plain-text chat surfaces. Deliberately
/// conservative: fenced code bodies are kept verbatim, a single `*` stays,
/// list markers and newlines stay.
pub fn markdown_to_plain(text: &str) -> (r: String)
    ensures
        r@ == markdown_to_plain_spec(text@),
{
    let v = chars_of(text);
    let n = v.len();
    let mut out: Vec<char> = Vec::new();
    let mut in_fence = false;
    let ghost all = lines(v@);
    let ghost mut done: Seq<Seq<char>> = seq![];
    let mut pos: usize = 0;
    assert(v@.subrange(0, n as int) =~= v@);
    assert(done + all =~= all);
    assert(out@ =~= seq![]);
    while pos < n
        invariant
            n == v@.len(),
            pos <= n,
            all == lines(v@),
            done + lines(v@.subrange(pos as int, n as int)) == all,
            (PlainState { out: out@, in_fence }) == plain_fold(done),
        decreases n - pos,
    {
        let ghost s = v@.subrange(pos as int, n as int);
        let k = newline_in(&v, pos, n);
        proof {
            assert forall|j: int| 0 <= j < k - pos implies s[j] != '\n' by {
                assert(s[j] == v@[pos + j]);
            }
            lemma_lines_unfold(s, k - pos);
        }
        let mut end = k;
        if k < n && k > pos && v[k - 1] == '\r' {
            end = k - 1;
        }
        proof {
            if k < n {
                assert(s.take(k - pos) =~= v@.subrange(pos as int, k as int));
                assert(line_body(s.take(k - pos), true) =~= v@.subrange(pos as int, end as int));
                assert(s.skip(k - pos + 1) =~= v@.subrange(k + 1, n as int));
            } else {
                assert(s =~= v@.subrange(pos as int, end as int));
            }
        }
        let ghost line = v@.subrange(pos as int, end as int);
        plain_step_exec(&mut out, &mut in_fence, &v, pos, end);
        proof {
            assert(done.push(line).drop_last() =~= done);
            if k < n {
                assert(done.push(line) + lines(v@.subrange(k + 1, n as int)) =~= done + (seq![line]
                    + lines(v@.subrange(k + 1, n as int))));
            } else {
                assert(done.push(line) + lines(v@.subrange(n as int, n as int)) =~= done + seq![line]);
            }
            done = done.push(line);
        }
        if k < n {
            pos = k + 1;
        } else {
            pos = n;
        }
    }
    proof {
        assert(v@.subrange(pos as int, n as int).len() == 0);
        assert(done =~= all);
    }
    let e = skip_ws_back(&out, 0, out.len());
    let mut r = Vec::new();
    push_range(&mut r, &out, 0, e);
    proof {
        assert(out@.subrange(0, out@.len() as int) =~= out@);
        assert(r@ =~= out@.subrange(0, e as int));
    }
    string_of(&r)
}

} // verus!
