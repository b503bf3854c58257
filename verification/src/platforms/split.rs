//! Splitting an over-long reply into several platform messages.

use vstd::prelude::*;
use crate::text::{
    all_ws, chars_of, find_newline, is_ws, lemma_find_newline_range, lemma_lines_unfold, lemma_trim_len,
    line_body, lines, newline_in, push_range, string_of, trim, trim_bounds, trim_end, trim_start,
};

verus! {

/// Index of the first `"\n\n"` in `s` at or after `i`, or -1.
pub open spec fn find_blank_line(s: Seq<char>, i: int) -> int
    decreases s.len() - i,
{
    if i < 0 || i + 1 >= s.len() {
        -1
    } else if s[i] == '\n' && s[i + 1] == '\n' {
        i
    } else {
        find_blank_line(s, i + 1)
    }
}

pub proof fn lemma_find_blank_line_range(s: Seq<char>, i: int)
    requires
        0 <= i,
    ensures
        find_blank_line(s, i) == -1 || (i <= find_blank_line(s, i) && find_blank_line(s, i) + 2
            <= s.len()),
    decreases s.len() - i,
{
    if i + 1 < s.len() && !(s[i] == '\n' && s[i + 1] == '\n') {
        lemma_find_blank_line_range(s, i + 1);
    }
}

/// `s.split("\n\n")`: the pieces between non-overlapping blank-line separators.
pub open spec fn paragraphs(s: Seq<char>) -> Seq<Seq<char>>
    decreases s.len(),
{
    let k = find_blank_line(s, 0);
    if k < 0 {
        seq![s]
    } else {
        proof {
            lemma_find_blank_line_range(s, 0);
        }
        seq![s.take(k)] + paragraphs(s.skip(k + 2))
    }
}

/// The chunks produced so far and the chunk being packed.
pub struct SplitState {
    pub chunks: Seq<Seq<char>>,
    pub current: Seq<char>,
}

/// Emits the packed chunk (trimmed, and only when something is left).
pub open spec fn flush(st: SplitState) -> SplitState {
    SplitState {
        chunks: if trim(st.current).len() > 0 {
            st.chunks.push(trim(st.current))
        } else {
            st.chunks
        },
        current: seq![],
    }
}

/// Cuts a line longer than the limit into pieces of exactly `max` characters;
/// the trimmed remainder follows when it is not blank.
pub open spec fn hard_pieces(line: Seq<char>, max: nat) -> Seq<Seq<char>>
    decreases line.len(),
{
    if max > 0 && line.len() >= max {
        seq![line.take(max as int)] + hard_pieces(line.skip(max as int), max)
    } else if trim(line).len() > 0 {
        seq![trim(line)]
    } else {
        seq![]
    }
}

/// Adds `piece` to the packed chunk after `sep` (when the chunk is not empty),
/// flushing first when the result would exceed `max`.
pub open spec fn pack(st: SplitState, piece: Seq<char>, sep: Seq<char>, max: nat) -> SplitState {
    let st1 = if st.current.len() + piece.len() + sep.len() > max {
        flush(st)
    } else {
        st
    };
    SplitState {
        chunks: st1.chunks,
        current: if st1.current.len() > 0 {
            st1.current + sep + piece
        } else {
            piece
        },
    }
}

/// One line of an oversized paragraph.
pub open spec fn line_step(st: SplitState, line: Seq<char>, max: nat) -> SplitState {
    if line.len() > max {
        SplitState { chunks: flush(st).chunks + hard_pieces(line, max), current: seq![] }
    } else {
        pack(st, line, seq!['\n'], max)
    }
}

pub open spec fn fold_lines(st: SplitState, ls: Seq<Seq<char>>, max: nat) -> SplitState
    decreases ls.len(),
{
    if ls.len() == 0 {
        st
    } else {
        line_step(fold_lines(st, ls.drop_last(), max), ls.last(), max)
    }
}

/// One paragraph: packed whole when it fits, else line by line.
pub open spec fn paragraph_step(st: SplitState, p: Seq<char>, max: nat) -> SplitState {
    if p.len() > max {
        flush(fold_lines(flush(st), lines(p), max))
    } else {
        pack(st, p, seq!['\n', '\n'], max)
    }
}

pub open spec fn fold_paragraphs(st: SplitState, ps: Seq<Seq<char>>, max: nat) -> SplitState
    decreases ps.len(),
{
    if ps.len() == 0 {
        st
    } else {
        paragraph_step(fold_paragraphs(st, ps.drop_last(), max), ps.last(), max)
    }
}

pub open spec fn empty_state() -> SplitState {
    SplitState { chunks: seq![], current: seq![] }
}

/// The messages `split_reply` sends for `text` under a limit of `max` characters.
pub open spec fn split_reply_spec(text: Seq<char>, max: nat) -> Seq<Seq<char>> {
    let t = trim(text);
    if t.len() == 0 {
        seq![]
    } else if max == 0 || t.len() <= max {
        seq![t]
    } else {
        flush(fold_paragraphs(empty_state(), paragraphs(t), max)).chunks
    }
}

/// The character views of a sequence of strings.
pub open spec fn string_views(v: Seq<String>) -> Seq<Seq<char>> {
    v.map_values(|c: String| c@)
}

pub open spec fn views(v: Seq<Vec<char>>) -> Seq<Seq<char>> {
    v.map_values(|c: Vec<char>| c@)
}

pub open spec fn state_of(chunks: Seq<Vec<char>>, current: Seq<char>) -> SplitState {
    SplitState { chunks: views(chunks), current }
}

proof fn lemma_views_push(v: Seq<Vec<char>>, c: Vec<char>)
    ensures
        views(v.push(c)) == views(v).push(c@),
{
    assert(views(v.push(c)) =~= views(v).push(c@));
}

/// Emits the packed chunk.
fn flush_exec(chunks: &mut Vec<Vec<char>>, current: &mut Vec<char>)
    ensures
        state_of(final(chunks)@, final(current)@) == flush(state_of(old(chunks)@, old(current)@)),
{
    let (a, b) = trim_bounds(current, 0, current.len());
    proof {
        assert(current@.subrange(0, current@.len() as int) =~= current@);
    }
    if a < b {
        let mut piece = Vec::new();
        push_range(&mut piece, current, a, b);
        assert(piece@ =~= current@.subrange(a as int, b as int));
        proof {
            lemma_views_push(chunks@, piece);
        }
        chunks.push(piece);
    }
    *current = Vec::new();
    assert(current@ =~= seq![]);
}

proof fn lemma_hard_pieces_unfold(s: Seq<char>, max: nat)
    requires
        max > 0,
        s.len() >= max,
    ensures
        hard_pieces(s, max) == seq![s.take(max as int)] + hard_pieces(s.skip(max as int), max),
{
}

/// Appends `hard_pieces(v[lo..hi], max)` to `chunks`.
fn hard_split_exec(chunks: &mut Vec<Vec<char>>, v: &Vec<char>, lo: usize, hi: usize, max: usize)
    requires
        lo <= hi <= v@.len(),
        max > 0,
    ensures
        views(final(chunks)@) == views(old(chunks)@) + hard_pieces(
            v@.subrange(lo as int, hi as int),
            max as nat,
        ),
{
    let ghost goal = views(chunks@) + hard_pieces(v@.subrange(lo as int, hi as int), max as nat);
    let mut pos = lo;
    while hi - pos >= max
        invariant
            lo <= pos <= hi <= v@.len(),
            max > 0,
            views(chunks@) + hard_pieces(v@.subrange(pos as int, hi as int), max as nat) == goal,
        decreases hi - pos,
    {
        let ghost rest = v@.subrange(pos as int, hi as int);
        let mut piece = Vec::new();
        push_range(&mut piece, v, pos, pos + max);
        proof {
            lemma_hard_pieces_unfold(rest, max as nat);
            assert(rest.take(max as int) =~= piece@);
            assert(rest.skip(max as int) =~= v@.subrange(pos + max, hi as int));
            lemma_views_push(chunks@, piece);
            assert(views(chunks@).push(piece@) + hard_pieces(
                v@.subrange(pos + max, hi as int),
                max as nat,
            ) =~= views(chunks@) + hard_pieces(rest, max as nat));
        }
        chunks.push(piece);
        pos = pos + max;
    }
    let (a, b) = trim_bounds(v, pos, hi);
    if a < b {
        let mut piece = Vec::new();
        push_range(&mut piece, v, a, b);
        assert(piece@ =~= v@.subrange(a as int, b as int));
        proof {
            lemma_views_push(chunks@, piece);
        }
        chunks.push(piece);
    }
    assert(views(chunks@) =~= goal);
}

/// `pack` for the piece `v[lo..hi]`.
fn pack_exec(
    chunks: &mut Vec<Vec<char>>,
    current: &mut Vec<char>,
    v: &Vec<char>,
    lo: usize,
    hi: usize,
    sep: &Vec<char>,
    max: usize,
)
    requires
        lo <= hi <= v@.len(),
    ensures
        state_of(final(chunks)@, final(current)@) == pack(
            state_of(old(chunks)@, old(current)@),
            v@.subrange(lo as int, hi as int),
            sep@,
            max as nat,
        ),
{
    if (current.len() as u128) + ((hi - lo) as u128) + (sep.len() as u128) > (max as u128) {
        flush_exec(chunks, current);
    }
    if current.len() > 0 {
        let ghost c0 = current@;
        let mut i: usize = 0;
        while i < sep.len()
            invariant
                i <= sep@.len(),
                current@ == c0 + sep@.take(i as int),
            decreases sep.len() - i,
        {
            current.push(sep[i]);
            i = i + 1;
            assert(current@ =~= c0 + sep@.take(i as int));
        }
        assert(sep@.take(sep@.len() as int) =~= sep@);
        push_range(current, v, lo, hi);
    } else {
        push_range(current, v, lo, hi);
        assert(current@ =~= v@.subrange(lo as int, hi as int));
    }
}

/// One line `v[lo..hi]` of an oversized paragraph.
fn line_step_exec(
    chunks: &mut Vec<Vec<char>>,
    current: &mut Vec<char>,
    v: &Vec<char>,
    lo: usize,
    hi: usize,
    max: usize,
)
    requires
        lo <= hi <= v@.len(),
        max > 0,
    ensures
        state_of(final(chunks)@, final(current)@) == line_step(
            state_of(old(chunks)@, old(current)@),
            v@.subrange(lo as int, hi as int),
            max as nat,
        ),
{
    if hi - lo > max {
        flush_exec(chunks, current);
        hard_split_exec(chunks, v, lo, hi, max);
    } else {
        let mut sep = Vec::new();
        sep.push('\n');
        assert(sep@ =~= seq!['\n']);
        pack_exec(chunks, current, v, lo, hi, &sep, max);
    }
}

/// Packs the lines of the oversized paragraph `v[lo..hi]`.
fn fold_lines_exec(
    chunks: &mut Vec<Vec<char>>,
    current: &mut Vec<char>,
    v: &Vec<char>,
    lo: usize,
    hi: usize,
    max: usize,
)
    requires
        lo <= hi <= v@.len(),
        max > 0,
    ensures
        state_of(final(chunks)@, final(current)@) == fold_lines(
            state_of(old(chunks)@, old(current)@),
            lines(v@.subrange(lo as int, hi as int)),
            max as nat,
        ),
{
    let ghost st0 = state_of(chunks@, current@);
    let ghost all = lines(v@.subrange(lo as int, hi as int));
    let ghost mut done: Seq<Seq<char>> = seq![];
    let mut pos = lo;
    assert(done + all =~= all);
    while pos < hi
        invariant
            lo <= pos <= hi <= v@.len(),
            max > 0,
            all == lines(v@.subrange(lo as int, hi as int)),
            done + lines(v@.subrange(pos as int, hi as int)) == all,
            state_of(chunks@, current@) == fold_lines(st0, done, max as nat),
        decreases hi - pos,
    {
        let ghost s = v@.subrange(pos as int, hi as int);
        let k = newline_in(v, pos, hi);
        proof {
            assert forall|j: int| 0 <= j < k - pos implies s[j] != '\n' by {
                assert(s[j] == v@[pos + j]);
            }
            lemma_lines_unfold(s, k - pos);
        }
        let mut end = k;
        if k < hi && k > pos && v[k - 1] == '\r' {
            end = k - 1;
        }
        proof {
            if k < hi {
                assert(s.take(k - pos) =~= v@.subrange(pos as int, k as int));
                assert(line_body(s.take(k - pos), true) =~= v@.subrange(pos as int, end as int));
                assert(s.skip(k - pos + 1) =~= v@.subrange(k + 1, hi as int));
            } else {
                assert(s =~= v@.subrange(pos as int, end as int));
            }
        }
        let ghost line = v@.subrange(pos as int, end as int);
        line_step_exec(chunks, current, v, pos, end, max);
        proof {
            assert(done.push(line).drop_last() =~= done);
            if k < hi {
                assert(done.push(line) + lines(v@.subrange(k + 1, hi as int)) =~= done + (seq![line]
                    + lines(v@.subrange(k + 1, hi as int))));
            } else {
                assert(done.push(line) + lines(v@.subrange(hi as int, hi as int)) =~= done + seq![line]);
            }
            done = done.push(line);
        }
        if k < hi {
            pos = k + 1;
        } else {
            pos = hi;
        }
    }
    proof {
        assert(v@.subrange(pos as int, hi as int).len() == 0);
        assert(done =~= all);
    }
}

/// One paragraph `v[lo..hi]`.
fn paragraph_step_exec(
    chunks: &mut Vec<Vec<char>>,
    current: &mut Vec<char>,
    v: &Vec<char>,
    lo: usize,
    hi: usize,
    max: usize,
)
    requires
        lo <= hi <= v@.len(),
        max > 0,
    ensures
        state_of(final(chunks)@, final(current)@) == paragraph_step(
            state_of(old(chunks)@, old(current)@),
            v@.subrange(lo as int, hi as int),
            max as nat,
        ),
{
    if hi - lo > max {
        flush_exec(chunks, current);
        fold_lines_exec(chunks, current, v, lo, hi, max);
        flush_exec(chunks, current);
    } else {
        let mut sep = Vec::new();
        sep.push('\n');
        sep.push('\n');
        assert(sep@ =~= seq!['\n', '\n']);
        pack_exec(chunks, current, v, lo, hi, &sep, max);
    }
}

pub open spec fn blank_at(s: Seq<char>, j: int) -> bool {
    0 <= j && j + 1 < s.len() && s[j] == '\n' && s[j + 1] == '\n'
}

proof fn lemma_find_blank_line_at(s: Seq<char>, i: int, k: int)
    requires
        0 <= i <= k,
        forall|j: int| i <= j < k ==> !#[trigger] blank_at(s, j),
        blank_at(s, k) || k + 1 >= s.len(),
    ensures
        find_blank_line(s, i) == if k + 1 < s.len() {
            k
        } else {
            -1
        },
    decreases k - i,
{
    if i < k && i + 1 < s.len() {
        assert(!blank_at(s, i));
        lemma_find_blank_line_at(s, i + 1, k);
    }
}

/// Index of the first `"\n\n"` starting in `v[lo..hi]`, or `hi` when there is none.
fn blank_line_in(v: &Vec<char>, lo: usize, hi: usize) -> (k: usize)
    requires
        lo <= hi <= v@.len(),
    ensures
        lo <= k <= hi,
        forall|j: int| lo <= j < k ==> !#[trigger] blank_at(v@.subrange(lo as int, hi as int), j - lo),
        k == hi || blank_at(v@.subrange(lo as int, hi as int), k - lo),
{
    let ghost s = v@.subrange(lo as int, hi as int);
    let mut k = lo;
    while k < hi && hi - k > 1 && !(v[k] == '\n' && v[k + 1] == '\n')
        invariant
            lo <= k <= hi <= v@.len(),
            s == v@.subrange(lo as int, hi as int),
            forall|j: int| lo <= j < k ==> !#[trigger] blank_at(s, j - lo),
        decreases hi - k,
    {
        assert(s[k - lo] == v@[k as int] && s[k - lo + 1] == v@[k + 1]);
        k = k + 1;
    }
    if k < hi && hi - k > 1 {
        assert(s[k - lo] == v@[k as int] && s[k - lo + 1] == v@[k + 1]);
        k
    } else {
        hi
    }
}

/// Splits an over-long reply on paragraph, then line, then raw character
/// boundaries, so that no message exceeds `max_chars` characters.
pub fn split_reply(text: &str, max_chars: usize) -> (r: Vec<String>)
    ensures
        string_views(r@) == split_reply_spec(text@, max_chars as nat),
{
    let v = chars_of(text);
    let (a, b) = trim_bounds(&v, 0, v.len());
    proof {
        assert(v@.subrange(0, v@.len() as int) =~= v@);
    }
    let ghost t = v@.subrange(a as int, b as int);
    let mut out: Vec<String> = Vec::new();
    if a == b {
        assert(string_views(out@) =~= seq![]);
        return out;
    }
    if max_chars == 0 || b - a <= max_chars {
        let mut piece = Vec::new();
        push_range(&mut piece, &v, a, b);
        out.push(string_of(&piece));
        assert(string_views(out@) =~= seq![t]);
        return out;
    }
    let mut chunks: Vec<Vec<char>> = Vec::new();
    let mut current: Vec<char> = Vec::new();
    let ghost all = paragraphs(t);
    let ghost mut done: Seq<Seq<char>> = seq![];
    let mut pos = a;
    assert(views(chunks@) =~= seq![]);
    assert(current@ =~= seq![]);
    assert(done + all =~= all);
    loop
        invariant_except_break
            done + paragraphs(v@.subrange(pos as int, b as int)) == all,
        invariant
            a <= pos <= b <= v@.len(),
            max_chars > 0,
            t == v@.subrange(a as int, b as int),
            all == paragraphs(t),
            state_of(chunks@, current@) == fold_paragraphs(empty_state(), done, max_chars as nat),
        ensures
            done == all,
        decreases b - pos,
    {
        let ghost s = v@.subrange(pos as int, b as int);
        let k = blank_line_in(&v, pos, b);
        proof {
            let kk = k - pos;
            assert forall|j: int| 0 <= j < kk implies !#[trigger] blank_at(s, j) by {
                assert(!blank_at(s, (j + pos) - pos));
            }
            lemma_find_blank_line_at(s, 0, kk);
        }
        paragraph_step_exec(&mut chunks, &mut current, &v, pos, k, max_chars);
        let ghost p = v@.subrange(pos as int, k as int);
        proof {
            assert(done.push(p).drop_last() =~= done);
            if k < b {
                assert(s.take(k - pos) =~= p);
                assert(s.skip(k - pos + 2) =~= v@.subrange(k + 2, b as int));
                assert(done.push(p) + paragraphs(v@.subrange(k + 2, b as int)) =~= done + (seq![p]
                    + paragraphs(v@.subrange(k + 2, b as int))));
            } else {
                assert(s =~= p);
                assert(done.push(p) =~= done + seq![p]);
            }
            done = done.push(p);
        }
        if k < b {
            pos = k + 2;
        } else {
            break;
        }
    }
    flush_exec(&mut chunks, &mut current);
    let mut i: usize = 0;
    while i < chunks.len()
        invariant
            i <= chunks@.len(),
            out@.len() == i,
            string_views(out@) == views(chunks@).take(i as int),
        decreases chunks.len() - i,
    {
        let piece = string_of(&chunks[i]);
        let ghost before = out@;
        out.push(piece);
        proof {
            assert(out@ == before.push(piece));
            assert forall|j: int| 0 <= j <= i implies #[trigger] string_views(out@)[j] == views(chunks@).take(i + 1)[j] by {
                if j < i {
                    assert(out@[j] == before[j]);
                    assert(string_views(before)[j] == views(chunks@).take(
                        i as int,
                    )[j]);
                }
            }
        }
        i = i + 1;
        assert(string_views(out@) =~= views(chunks@).take(i as int));
    }
    assert(views(chunks@).take(chunks@.len() as int) =~= views(chunks@));
    out
}

/// Every chunk is non-empty and at most `max` characters long.
pub open spec fn chunks_fit(chunks: Seq<Seq<char>>, max: nat) -> bool {
    forall|i: int| 0 <= i < chunks.len() ==> 0 < #[trigger] chunks[i].len() <= max
}

pub open spec fn state_fits(st: SplitState, max: nat) -> bool {
    chunks_fit(st.chunks, max) && st.current.len() <= max
}

proof fn lemma_flush_fits(st: SplitState, max: nat)
    requires
        state_fits(st, max),
    ensures
        state_fits(flush(st), max),
{
    lemma_trim_len(st.current);
    let f = flush(st);
    assert forall|i: int| 0 <= i < f.chunks.len() implies 0 < #[trigger] f.chunks[i].len() <= max by {
        if i < st.chunks.len() {
            assert(f.chunks[i] == st.chunks[i]);
        }
    }
}

proof fn lemma_chunks_fit_append(a: Seq<Seq<char>>, b: Seq<Seq<char>>, max: nat)
    requires
        chunks_fit(a, max),
        chunks_fit(b, max),
    ensures
        chunks_fit(a + b, max),
{
    assert forall|i: int| 0 <= i < (a + b).len() implies 0 < #[trigger] (a + b)[i].len() <= max by {
        if i < a.len() {
            assert((a + b)[i] == a[i]);
        } else {
            assert((a + b)[i] == b[i - a.len()]);
        }
    }
}

proof fn lemma_hard_pieces_fit(line: Seq<char>, max: nat)
    requires
        max > 0,
    ensures
        chunks_fit(hard_pieces(line, max), max),
    decreases line.len(),
{
    if line.len() >= max {
        lemma_hard_pieces_fit(line.skip(max as int), max);
        lemma_chunks_fit_append(seq![line.take(max as int)], hard_pieces(line.skip(max as int), max), max);
    } else {
        lemma_trim_len(line);
    }
}

proof fn lemma_pack_fits(st: SplitState, piece: Seq<char>, sep: Seq<char>, max: nat)
    requires
        state_fits(st, max),
        piece.len() <= max,
    ensures
        state_fits(pack(st, piece, sep, max), max),
{
    lemma_flush_fits(st, max);
}

proof fn lemma_line_step_fits(st: SplitState, line: Seq<char>, max: nat)
    requires
        state_fits(st, max),
        max > 0,
    ensures
        state_fits(line_step(st, line, max), max),
{
    if line.len() > max {
        lemma_flush_fits(st, max);
        lemma_hard_pieces_fit(line, max);
        lemma_chunks_fit_append(flush(st).chunks, hard_pieces(line, max), max);
    } else {
        lemma_pack_fits(st, line, seq!['\n'], max);
    }
}

proof fn lemma_fold_lines_fits(st: SplitState, ls: Seq<Seq<char>>, max: nat)
    requires
        state_fits(st, max),
        max > 0,
    ensures
        state_fits(fold_lines(st, ls, max), max),
    decreases ls.len(),
{
    if ls.len() > 0 {
        lemma_fold_lines_fits(st, ls.drop_last(), max);
        lemma_line_step_fits(fold_lines(st, ls.drop_last(), max), ls.last(), max);
    }
}

proof fn lemma_paragraph_step_fits(st: SplitState, p: Seq<char>, max: nat)
    requires
        state_fits(st, max),
        max > 0,
    ensures
        state_fits(paragraph_step(st, p, max), max),
{
    if p.len() > max {
        lemma_flush_fits(st, max);
        lemma_fold_lines_fits(flush(st), lines(p), max);
        lemma_flush_fits(fold_lines(flush(st), lines(p), max), max);
    } else {
        lemma_pack_fits(st, p, seq!['\n', '\n'], max);
    }
}

proof fn lemma_fold_paragraphs_fits(st: SplitState, ps: Seq<Seq<char>>, max: nat)
    requires
        state_fits(st, max),
        max > 0,
    ensures
        state_fits(fold_paragraphs(st, ps, max), max),
    decreases ps.len(),
{
    if ps.len() > 0 {
        lemma_fold_paragraphs_fits(st, ps.drop_last(), max);
        lemma_paragraph_step_fits(fold_paragraphs(st, ps.drop_last(), max), ps.last(), max);
    }
}

/// With a positive limit, every message `split_reply` produces is non-empty and
/// at most `max` characters long.
pub proof fn split_reply_chunks_fit(text: Seq<char>, max: nat)
    requires
        max > 0,
    ensures
        chunks_fit(split_reply_spec(text, max), max),
{
    let t = trim(text);
    if t.len() > 0 && t.len() > max {
        lemma_fold_paragraphs_fits(empty_state(), paragraphs(t), max);
        lemma_flush_fits(fold_paragraphs(empty_state(), paragraphs(t), max), max);
    }
}

/// A reply that is blank after trimming produces no message; one that fits the
/// limit (or any reply when the limit is 0) is sent whole, trimmed.
pub proof fn split_reply_short_texts(text: Seq<char>, max: nat)
    ensures
        trim(text).len() == 0 ==> split_reply_spec(text, max).len() == 0,
        trim(text).len() > 0 && (max == 0 || trim(text).len() <= max) ==> split_reply_spec(text, max)
            == seq![trim(text)],
{
}

// ------------------------------ nothing visible is lost ------------------------------

/// The characters of `s` that are not whitespace, in order.
pub open spec fn visible(s: Seq<char>) -> Seq<char>
    decreases s.len(),
{
    if s.len() == 0 {
        seq![]
    } else if is_ws(s.last()) {
        visible(s.drop_last())
    } else {
        visible(s.drop_last()).push(s.last())
    }
}

/// The visible characters of several texts, one after another.
pub open spec fn visible_all(ss: Seq<Seq<char>>) -> Seq<char>
    decreases ss.len(),
{
    if ss.len() == 0 {
        seq![]
    } else {
        visible_all(ss.drop_last()) + visible(ss.last())
    }
}

proof fn lemma_visible_concat(a: Seq<char>, b: Seq<char>)
    ensures
        visible(a + b) == visible(a) + visible(b),
    decreases b.len(),
{
    if b.len() == 0 {
        assert(a + b =~= a);
        assert(visible(a) + visible(b) =~= visible(a));
    } else {
        assert((a + b).drop_last() =~= a + b.drop_last());
        assert((a + b).last() == b.last());
        lemma_visible_concat(a, b.drop_last());
        if is_ws(b.last()) {
        } else {
            assert(visible(a) + visible(b.drop_last()).push(b.last()) =~= (visible(a) + visible(
                b.drop_last(),
            )).push(b.last()));
        }
    }
}

proof fn lemma_visible_all_ws(s: Seq<char>)
    requires
        all_ws(s),
    ensures
        visible(s) == Seq::<char>::empty(),
    decreases s.len(),
{
    if s.len() > 0 {
        assert(all_ws(s.drop_last())) by {
            assert forall|i: int| 0 <= i < s.drop_last().len() implies is_ws(#[trigger] s.drop_last()[i]) by {
                assert(s.drop_last()[i] == s[i]);
            }
        }
        lemma_visible_all_ws(s.drop_last());
        assert(is_ws(s[s.len() - 1]));
    }
}

proof fn lemma_visible_single(c: char)
    ensures
        visible(seq![c]) == if is_ws(c) {
            Seq::<char>::empty()
        } else {
            seq![c]
        },
{
    let s = seq![c];
    assert(s.drop_last() =~= Seq::<char>::empty());
    assert(s.last() == c);
    assert(visible(Seq::<char>::empty()) == Seq::<char>::empty());
    assert(Seq::<char>::empty().push(c) =~= seq![c]);
}

proof fn lemma_visible_trim_start(s: Seq<char>)
    ensures
        visible(trim_start(s)) == visible(s),
        trim_start(s).len() > 0 ==> visible(s).len() > 0,
    decreases s.len(),
{
    if s.len() > 0 {
        assert(s =~= seq![s[0]] + s.drop_first());
        lemma_visible_concat(seq![s[0]], s.drop_first());
        lemma_visible_single(s[0]);
        if is_ws(s[0]) {
            lemma_visible_trim_start(s.drop_first());
            assert(trim_start(s) == trim_start(s.drop_first()));
            assert(Seq::<char>::empty() + visible(s.drop_first()) =~= visible(s.drop_first()));
        } else {
            assert(trim_start(s) == s);
        }
    }
}

proof fn lemma_visible_trim_end(s: Seq<char>)
    ensures
        visible(trim_end(s)) == visible(s),
    decreases s.len(),
{
    if s.len() > 0 && is_ws(s.last()) {
        lemma_visible_trim_end(s.drop_last());
    }
}

proof fn lemma_visible_trim(s: Seq<char>)
    ensures
        visible(trim(s)) == visible(s),
        trim(s).len() > 0 ==> visible(s).len() > 0,
        trim(s).len() == 0 ==> visible(s) == Seq::<char>::empty(),
{
    lemma_visible_trim_start(s);
    lemma_visible_trim_end(trim_start(s));
    if trim(s).len() > 0 {
        lemma_trim_len(s);
        assert(trim_start(s).len() > 0);
    }
}

proof fn lemma_visible_all_single(x: Seq<char>)
    ensures
        visible_all(seq![x]) == visible(x),
{
    let ss = seq![x];
    assert(ss.drop_last() =~= Seq::<Seq<char>>::empty());
    assert(ss.last() == x);
    assert(visible_all(Seq::<Seq<char>>::empty()) == Seq::<char>::empty());
    assert(Seq::<char>::empty() + visible(x) =~= visible(x));
}

proof fn lemma_blank_line_found(s: Seq<char>, i: int)
    requires
        0 <= i,
        find_blank_line(s, i) >= 0,
    ensures
        s[find_blank_line(s, i)] == '\n',
        s[find_blank_line(s, i) + 1] == '\n',
    decreases s.len() - i,
{
    if i + 1 < s.len() && !(s[i] == '\n' && s[i + 1] == '\n') {
        lemma_blank_line_found(s, i + 1);
    }
}

proof fn lemma_visible_all_concat(a: Seq<Seq<char>>, b: Seq<Seq<char>>)
    ensures
        visible_all(a + b) == visible_all(a) + visible_all(b),
    decreases b.len(),
{
    if b.len() == 0 {
        assert(a + b =~= a);
        assert(visible_all(a) + visible_all(b) =~= visible_all(a));
    } else {
        assert((a + b).drop_last() =~= a + b.drop_last());
        assert((a + b).last() == b.last());
        lemma_visible_all_concat(a, b.drop_last());
        assert(visible_all(a) + visible_all(b.drop_last()) + visible(b.last()) =~= visible_all(a) + (
        visible_all(b.drop_last()) + visible(b.last())));
    }
}

proof fn lemma_visible_paragraphs(s: Seq<char>)
    ensures
        visible_all(paragraphs(s)) == visible(s),
    decreases s.len(),
{
    let k = find_blank_line(s, 0);
    if k < 0 {
        lemma_visible_all_single(s);
    } else {
        lemma_find_blank_line_range(s, 0);
        lemma_blank_line_found(s, 0);
        lemma_visible_paragraphs(s.skip(k + 2));
        lemma_visible_all_concat(seq![s.take(k)], paragraphs(s.skip(k + 2)));
        lemma_visible_all_single(s.take(k));
        let sep = s.subrange(k, k + 2);
        assert(s =~= s.take(k) + sep + s.skip(k + 2));
        assert(sep =~= seq!['\n', '\n']);
        lemma_visible_all_ws(sep);
        lemma_visible_concat(s.take(k) + sep, s.skip(k + 2));
        lemma_visible_concat(s.take(k), sep);
        assert(visible(s.take(k)) + Seq::<char>::empty() =~= visible(s.take(k)));
    }
}

proof fn lemma_visible_line_body(s: Seq<char>, had_newline: bool)
    ensures
        visible(line_body(s, had_newline)) == visible(s),
{
    if had_newline && s.len() > 0 && s.last() == '\r' {
        assert(is_ws(s.last()));
    }
}

proof fn lemma_visible_lines(s: Seq<char>)
    ensures
        visible_all(lines(s)) == visible(s),
    decreases s.len(),
{
    if s.len() > 0 {
        let k = find_newline(s, 0);
        lemma_find_newline_range(s, 0);
        if k >= s.len() {
            lemma_visible_all_single(line_body(s, false));
            lemma_visible_line_body(s, false);
        } else {
            lemma_visible_lines(s.skip(k + 1));
            lemma_visible_all_concat(seq![line_body(s.take(k), true)], lines(s.skip(k + 1)));
            lemma_visible_all_single(line_body(s.take(k), true));
            lemma_visible_line_body(s.take(k), true);
            let sep = s.subrange(k, k + 1);
            assert(s =~= s.take(k) + sep + s.skip(k + 1));
            assert(sep =~= seq!['\n']);
            lemma_visible_all_ws(sep);
            lemma_visible_concat(s.take(k) + sep, s.skip(k + 1));
            lemma_visible_concat(s.take(k), sep);
            assert(visible(s.take(k)) + Seq::<char>::empty() =~= visible(s.take(k)));
        }
    }
}

proof fn lemma_visible_hard_pieces(line: Seq<char>, max: nat)
    ensures
        visible_all(hard_pieces(line, max)) == visible(line),
    decreases line.len(),
{
    if max > 0 && line.len() >= max {
        lemma_visible_hard_pieces(line.skip(max as int), max);
        lemma_visible_all_concat(seq![line.take(max as int)], hard_pieces(line.skip(max as int), max));
        lemma_visible_all_single(line.take(max as int));
        assert(line =~= line.take(max as int) + line.skip(max as int));
        lemma_visible_concat(line.take(max as int), line.skip(max as int));
    } else {
        lemma_visible_trim(line);
        if trim(line).len() > 0 {
            lemma_visible_all_single(trim(line));
        }
    }
}

/// What a packing state has taken in, visibly.
pub open spec fn state_visible(st: SplitState) -> Seq<char> {
    visible_all(st.chunks) + visible(st.current)
}

proof fn lemma_flush_visible(st: SplitState)
    ensures
        state_visible(flush(st)) == state_visible(st),
        flush(st).current.len() == 0,
{
    lemma_visible_trim(st.current);
    if trim(st.current).len() > 0 {
        assert(st.chunks.push(trim(st.current)).drop_last() =~= st.chunks);
    }
    assert(visible(Seq::<char>::empty()) =~= Seq::<char>::empty());
    assert(state_visible(flush(st)) =~= state_visible(st));
}

proof fn lemma_pack_visible(st: SplitState, piece: Seq<char>, sep: Seq<char>, max: nat)
    requires
        all_ws(sep),
    ensures
        state_visible(pack(st, piece, sep, max)) == state_visible(st) + visible(piece),
{
    let st1 = if st.current.len() + piece.len() + sep.len() > max {
        flush(st)
    } else {
        st
    };
    lemma_flush_visible(st);
    lemma_visible_all_ws(sep);
    if st1.current.len() > 0 {
        lemma_visible_concat(st1.current + sep, piece);
        lemma_visible_concat(st1.current, sep);
        assert(visible(st1.current) + Seq::<char>::empty() =~= visible(st1.current));
    } else {
        assert(st1.current =~= Seq::<char>::empty());
    }
    assert(visible_all(st1.chunks) + (visible(st1.current) + visible(piece)) =~= visible_all(st1.chunks)
        + visible(st1.current) + visible(piece));
}

proof fn lemma_fold_lines_visible(st: SplitState, ls: Seq<Seq<char>>, max: nat)
    ensures
        state_visible(fold_lines(st, ls, max)) == state_visible(st) + visible_all(ls),
    decreases ls.len(),
{
    if ls.len() == 0 {
        assert(state_visible(st) + Seq::<char>::empty() =~= state_visible(st));
    } else {
        lemma_fold_lines_visible(st, ls.drop_last(), max);
        let s1 = fold_lines(st, ls.drop_last(), max);
        let line = ls.last();
        if line.len() > max {
            lemma_flush_visible(s1);
            lemma_visible_hard_pieces(line, max);
            lemma_visible_all_concat(flush(s1).chunks, hard_pieces(line, max));
            assert(visible(Seq::<char>::empty()) =~= Seq::<char>::empty());
        } else {
            assert(all_ws(seq!['\n']));
            lemma_pack_visible(s1, line, seq!['\n'], max);
        }
        assert(state_visible(st) + visible_all(ls.drop_last()) + visible(line) =~= state_visible(st) + (
        visible_all(ls.drop_last()) + visible(line)));
    }
}

proof fn lemma_fold_paragraphs_visible(st: SplitState, ps: Seq<Seq<char>>, max: nat)
    ensures
        state_visible(fold_paragraphs(st, ps, max)) == state_visible(st) + visible_all(ps),
    decreases ps.len(),
{
    if ps.len() == 0 {
        assert(state_visible(st) + Seq::<char>::empty() =~= state_visible(st));
    } else {
        lemma_fold_paragraphs_visible(st, ps.drop_last(), max);
        let s1 = fold_paragraphs(st, ps.drop_last(), max);
        let p = ps.last();
        if p.len() > max {
            lemma_flush_visible(s1);
            lemma_fold_lines_visible(flush(s1), lines(p), max);
            lemma_flush_visible(fold_lines(flush(s1), lines(p), max));
            lemma_visible_lines(p);
        } else {
            let sep2 = seq!['\n', '\n'];
            assert(all_ws(sep2)) by {
                assert forall|i: int| 0 <= i < sep2.len() implies is_ws(#[trigger] sep2[i]) by {}
            }
            lemma_pack_visible(s1, p, seq!['\n', '\n'], max);
        }
        assert(state_visible(st) + visible_all(ps.drop_last()) + visible(p) =~= state_visible(st) + (
        visible_all(ps.drop_last()) + visible(p)));
    }
}

/// Splitting loses, adds and reorders no visible character: the messages
/// put back together hold the reply's non-whitespace characters exactly,
/// and a reply with anything visible in it gives at least one message.
pub proof fn split_reply_keeps_every_visible_character(text: Seq<char>, max: nat)
    ensures
        visible_all(split_reply_spec(text, max)) == visible(text),
        split_reply_spec(text, max).len() > 0 <==> trim(text).len() > 0,
{
    let t = trim(text);
    lemma_visible_trim(text);
    if t.len() == 0 {
    } else if max == 0 || t.len() <= max {
        lemma_visible_all_single(t);
    } else {
        let st = fold_paragraphs(empty_state(), paragraphs(t), max);
        lemma_fold_paragraphs_visible(empty_state(), paragraphs(t), max);
        lemma_visible_paragraphs(t);
        lemma_flush_visible(st);
        assert(state_visible(empty_state()) =~= Seq::<char>::empty());
        assert(visible(flush(st).current) =~= Seq::<char>::empty());
        assert(visible_all(flush(st).chunks) =~= state_visible(flush(st)));
        if flush(st).chunks.len() == 0 {
            assert(visible_all(flush(st).chunks) =~= Seq::<char>::empty());
        }
    }
}

} // verus!
