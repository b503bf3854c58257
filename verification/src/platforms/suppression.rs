//! Cutting reply text that a tool already delivered directly.
//!
//! Ranges are byte offsets into the reply's UTF-8 encoding, as the turn
//! driver records them while the reply streams in.

use vstd::prelude::*;
use vstd::utf8::{
    decode_utf8, is_char_boundary, is_char_boundary_iff_not_is_continuation_byte,
    is_char_boundary_start_end_of_seq, valid_utf8, valid_utf8_concat, valid_utf8_split,
};
use vstd::string::StringSliceAdditionalSpecFns;

verus! {

broadcast use vstd::utf8::encode_utf8_valid_utf8;

pub open spec fn clamp(x: int, lo: int, hi: int) -> int {
    if x < lo {
        lo
    } else if x > hi {
        hi
    } else {
        x
    }
}

/// Bytes kept so far and the cursor after the last cut range.
pub struct CutState {
    pub out: Seq<u8>,
    pub cursor: int,
}

/// One range: clamped to the text after the cursor; skipped unless the text
/// before it and the range itself are whole characters.
pub open spec fn cut_step(b: Seq<u8>, st: CutState, range: (usize, usize)) -> CutState {
    let start = clamp(range.0 as int, st.cursor, b.len() as int);
    let end = clamp(range.1 as int, start, b.len() as int);
    if is_char_boundary(b, st.cursor) && is_char_boundary(b, start) && is_char_boundary(b, end) {
        CutState { out: st.out + b.subrange(st.cursor, start), cursor: end }
    } else {
        st
    }
}

pub open spec fn cut_fold(b: Seq<u8>, ranges: Seq<(usize, usize)>) -> CutState
    decreases ranges.len(),
{
    if ranges.len() == 0 {
        CutState { out: seq![], cursor: 0 }
    } else {
        cut_step(b, cut_fold(b, ranges.drop_last()), ranges.last())
    }
}

/// The bytes of `b` left after cutting `ranges` in order.
pub open spec fn cut_bytes(b: Seq<u8>, ranges: Seq<(usize, usize)>) -> Seq<u8> {
    let st = cut_fold(b, ranges);
    st.out + b.subrange(st.cursor, b.len() as int)
}

proof fn lemma_valid_slice(b: Seq<u8>, c: int, s: int)
    requires
        valid_utf8(b),
        0 <= c <= s <= b.len(),
        is_char_boundary(b, c),
        is_char_boundary(b, s),
    ensures
        valid_utf8(b.subrange(c, s)),
{
    valid_utf8_split(b, s);
    let p = b.subrange(0, s);
    if c < s {
        is_char_boundary_iff_not_is_continuation_byte(b, c);
        is_char_boundary_iff_not_is_continuation_byte(p, c);
        assert(p[c] == b[c]);
    } else {
        is_char_boundary_start_end_of_seq(p);
    }
    valid_utf8_split(p, c);
    assert(p.subrange(c, p.len() as int) =~= b.subrange(c, s));
}

proof fn lemma_cut_fold_valid(b: Seq<u8>, ranges: Seq<(usize, usize)>)
    requires
        valid_utf8(b),
    ensures
        valid_utf8(cut_fold(b, ranges).out),
        0 <= cut_fold(b, ranges).cursor <= b.len(),
        is_char_boundary(b, cut_fold(b, ranges).cursor),
    decreases ranges.len(),
{
    if ranges.len() == 0 {
        is_char_boundary_start_end_of_seq(b);
        assert(valid_utf8(Seq::<u8>::empty())) by {
            reveal_with_fuel(valid_utf8, 1);
        }
    } else {
        lemma_cut_fold_valid(b, ranges.drop_last());
        let st = cut_fold(b, ranges.drop_last());
        let r = ranges.last();
        let start = clamp(r.0 as int, st.cursor, b.len() as int);
        let end = clamp(r.1 as int, start, b.len() as int);
        if is_char_boundary(b, st.cursor) && is_char_boundary(b, start) && is_char_boundary(b, end) {
            lemma_valid_slice(b, st.cursor, start);
            valid_utf8_concat(st.out, b.subrange(st.cursor, start));
        }
    }
}

/// Converts bytes known to be UTF-8 into a string (`String::from_utf8`).
#[verifier::external_body]
fn string_from_utf8(bytes: Vec<u8>) -> (r: Option<String>)
    ensures
        r is Some <==> valid_utf8(bytes@),
        r matches Some(s) ==> s@ == decode_utf8(bytes@),
{
    String::from_utf8(bytes).ok()
}

/// `text` without the byte ranges in `ranges` (processed in order, each
/// clamped to the text after the previous one; a range that would split a
/// character is skipped).
pub fn cut_suppressed_ranges(text: &str, ranges: &Vec<(usize, usize)>) -> (r: String)
    ensures
        r@ == decode_utf8(cut_bytes(text.spec_bytes(), ranges@)),
{
    let b = text.as_bytes();
    let ghost bs = text.spec_bytes();
    let n = b.len();
    let mut out: Vec<u8> = Vec::new();
    let mut cursor: usize = 0;
    let mut i: usize = 0;
    proof {
        assert(out@ =~= seq![]);
        vstd::utf8::encode_utf8_valid_utf8(text@);
        assert(valid_utf8(bs));
    }
    while i < ranges.len()
        invariant
            valid_utf8(bs),
            bs == text.spec_bytes(),
            b@ == bs,
            n == bs.len(),
            i <= ranges@.len(),
            cursor <= n,
            (CutState { out: out@, cursor: cursor as int }) == cut_fold(bs, ranges@.take(i as int)),
        decreases ranges.len() - i,
    {
        let ghost st = cut_fold(bs, ranges@.take(i as int));
        let (s0, e0) = ranges[i];
        let start = if s0 < cursor {
            cursor
        } else if s0 > n {
            n
        } else {
            s0
        };
        let end = if e0 < start {
            start
        } else if e0 > n {
            n
        } else {
            e0
        };
        let ok = text.is_char_boundary(cursor) && text.is_char_boundary(start)
            && text.is_char_boundary(end);
        if ok {
            let ghost before = out@;
            let mut j = cursor;
            while j < start
                invariant
                    b@ == bs,
                    cursor <= j <= start <= n == bs.len(),
                    out@ == before + bs.subrange(cursor as int, j as int),
                decreases start - j,
            {
                out.push(b[j]);
                j = j + 1;
                assert(out@ =~= before + bs.subrange(cursor as int, j as int));
            }
            cursor = end;
        }
        proof {
            assert(ranges@.take(i + 1).drop_last() =~= ranges@.take(i as int));
            assert(ranges@.take(i + 1).last() == ranges@[i as int]);
            let nst = cut_step(bs, st, ranges@[i as int]);
            assert(out@ =~= nst.out);
            assert(cursor == nst.cursor);
        }
        i = i + 1;
    }
    assert(ranges@.take(ranges@.len() as int) =~= ranges@);
    let ghost before = out@;
    let mut j = cursor;
    while j < n
        invariant
            valid_utf8(bs),
            b@ == bs,
            cursor <= j <= n == bs.len(),
            out@ == before + bs.subrange(cursor as int, j as int),
        decreases n - j,
    {
        out.push(b[j]);
        j = j + 1;
        assert(out@ =~= before + bs.subrange(cursor as int, j as int));
    }
    proof {
        lemma_cut_fold_valid(bs, ranges@);
        is_char_boundary_start_end_of_seq(bs);
        lemma_valid_slice(bs, cursor as int, n as int);
        valid_utf8_concat(before, bs.subrange(cursor as int, n as int));
    }
    match string_from_utf8(out) {
        Some(s) => s,
        None => {
            proof {
                assert(false);
            }
            String::new()
        },
    }
}

/// Cutting no ranges gives the text back unchanged.
pub proof fn cut_nothing_keeps_text(text: Seq<char>)
    ensures
        decode_utf8(cut_bytes(vstd::utf8::encode_utf8(text), seq![])) == text,
{
    let b = vstd::utf8::encode_utf8(text);
    assert(cut_fold(b, seq![]).out + b.subrange(0, b.len() as int) =~= b);
    vstd::utf8::encode_utf8_decode_utf8(text);
}

/// The ranges lie in order inside `b`, do not overlap, and start and end
/// on character boundaries.
pub open spec fn ranges_ordered(b: Seq<u8>, ranges: Seq<(usize, usize)>) -> bool {
    &&& forall|i: int|
        0 <= i < ranges.len() ==> #[trigger] ranges[i].0 <= ranges[i].1 <= b.len() && is_char_boundary(
            b,
            ranges[i].0 as int,
        ) && is_char_boundary(b, ranges[i].1 as int)
    &&& forall|i: int, j: int| 0 <= i < j < ranges.len() ==> #[trigger] ranges[i].1 <= #[trigger] ranges[j].0
}

/// Where the last range ends (0 with none).
pub open spec fn last_end(ranges: Seq<(usize, usize)>) -> int {
    if ranges.len() == 0 {
        0
    } else {
        ranges.last().1 as int
    }
}

/// The bytes between the ranges, up to the last one.
pub open spec fn kept_between(b: Seq<u8>, ranges: Seq<(usize, usize)>) -> Seq<u8>
    decreases ranges.len(),
{
    if ranges.len() == 0 {
        seq![]
    } else {
        kept_between(b, ranges.drop_last()) + b.subrange(last_end(ranges.drop_last()), ranges.last().0 as int)
    }
}

/// How many bytes the ranges cover.
pub open spec fn removed_len(ranges: Seq<(usize, usize)>) -> int
    decreases ranges.len(),
{
    if ranges.len() == 0 {
        0
    } else {
        removed_len(ranges.drop_last()) + ranges.last().1 - ranges.last().0
    }
}

proof fn lemma_ordered_fold(b: Seq<u8>, ranges: Seq<(usize, usize)>)
    requires
        valid_utf8(b),
        ranges_ordered(b, ranges),
    ensures
        cut_fold(b, ranges) == (CutState { out: kept_between(b, ranges), cursor: last_end(ranges) }),
        kept_between(b, ranges).len() == last_end(ranges) - removed_len(ranges),
        0 <= last_end(ranges) <= b.len(),
    decreases ranges.len(),
{
    is_char_boundary_start_end_of_seq(b);
    if ranges.len() > 0 {
        let prev = ranges.drop_last();
        assert(ranges_ordered(b, prev)) by {
            assert forall|i: int| 0 <= i < prev.len() implies #[trigger] prev[i].0 <= prev[i].1 <= b.len()
                && is_char_boundary(b, prev[i].0 as int) && is_char_boundary(b, prev[i].1 as int) by {
                assert(prev[i] == ranges[i]);
            }
            assert forall|i: int, j: int| 0 <= i < j < prev.len() implies #[trigger] prev[i].1 <= #[trigger] prev[j].0 by {
                assert(prev[i] == ranges[i]);
                assert(prev[j] == ranges[j]);
            }
        }
        lemma_ordered_fold(b, prev);
        let r = ranges.last();
        assert(r == ranges[ranges.len() - 1]);
        if prev.len() > 0 {
            assert(prev.last() == ranges[ranges.len() - 2]);
        }
        assert(last_end(prev) <= r.0);
    }
}

/// Ranges in order, apart and on character boundaries are cut exactly: what
/// stays is the text between them and after the last, and it is shorter by
/// the bytes they cover.
pub proof fn ordered_cuts_keep_the_rest(text: Seq<char>, ranges: Seq<(usize, usize)>)
    requires
        ranges_ordered(vstd::utf8::encode_utf8(text), ranges),
    ensures
        cut_bytes(vstd::utf8::encode_utf8(text), ranges) == kept_between(vstd::utf8::encode_utf8(text), ranges)
            + vstd::utf8::encode_utf8(text).subrange(
            last_end(ranges),
            vstd::utf8::encode_utf8(text).len() as int,
        ),
        cut_bytes(vstd::utf8::encode_utf8(text), ranges).len() == vstd::utf8::encode_utf8(text).len()
            - removed_len(ranges),
{
    let b = vstd::utf8::encode_utf8(text);
    lemma_ordered_fold(b, ranges);
}

} // verus!
