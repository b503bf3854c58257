//! Character-level text utilities shared by the rest of the library.
//!
//! Text is handled as sequences of Unicode scalar values (`Seq<char>`), the
//! view vstd gives to `str` and `String`.

use vstd::prelude::*;
use vstd::std_specs::iter::IteratorSpec;

verus! {

broadcast use vstd::string::group_string_axioms;

/// Unicode `White_Space`, the property behind `char::is_whitespace`.
pub open spec fn is_ws(c: char) -> bool {
    let u = c as u32;
    (0x9 <= u && u <= 0xd) || u == 0x20 || u == 0x85 || u == 0xa0 || u == 0x1680
        || (0x2000 <= u && u <= 0x200a) || u == 0x2028 || u == 0x2029 || u == 0x202f
        || u == 0x205f || u == 0x3000
}

/// `s` with leading whitespace removed (`str::trim_start`).
pub open spec fn trim_start(s: Seq<char>) -> Seq<char>
    decreases s.len(),
{
    if s.len() > 0 && is_ws(s[0]) {
        trim_start(s.drop_first())
    } else {
        s
    }
}

/// `s` with trailing whitespace removed (`str::trim_end`).
pub open spec fn trim_end(s: Seq<char>) -> Seq<char>
    decreases s.len(),
{
    if s.len() > 0 && is_ws(s.last()) {
        trim_end(s.drop_last())
    } else {
        s
    }
}

/// `str::trim`.
pub open spec fn trim(s: Seq<char>) -> Seq<char> {
    trim_end(trim_start(s))
}

/// `prefix` is a prefix of `s`.
pub open spec fn has_prefix(s: Seq<char>, prefix: Seq<char>) -> bool {
    prefix.len() <= s.len() && s.take(prefix.len() as int) == prefix
}

/// `suffix` is a suffix of `s`.
pub open spec fn has_suffix(s: Seq<char>, suffix: Seq<char>) -> bool {
    suffix.len() <= s.len() && s.skip(s.len() - suffix.len()) == suffix
}

/// Every character of `s` satisfies `is_ws`.
pub open spec fn all_ws(s: Seq<char>) -> bool {
    forall|i: int| 0 <= i < s.len() ==> is_ws(#[trigger] s[i])
}

/// Decimal digits of `n`, as `Display` writes an unsigned integer.
pub open spec fn decimal(n: nat) -> Seq<char>
    decreases n,
{
    if n < 10 {
        seq![digit_char(n)]
    } else {
        decimal(n / 10).push(digit_char(n % 10))
    }
}

pub open spec fn digit_char(d: nat) -> char {
    ((d % 10) + 48) as char
}

/// Decimal rendering of a signed integer, as `Display` writes it.
pub open spec fn signed_decimal(n: int) -> Seq<char> {
    if n < 0 {
        seq!['-'] + decimal((-n) as nat)
    } else {
        decimal(n as nat)
    }
}

pub proof fn lemma_trim_start_index(s: Seq<char>, k: int)
    requires
        0 <= k <= s.len(),
        forall|i: int| 0 <= i < k ==> is_ws(#[trigger] s[i]),
        k == s.len() || !is_ws(s[k]),
    ensures
        trim_start(s) == s.skip(k),
    decreases k,
{
    if k == 0 {
        assert(s.skip(0) =~= s);
    } else {
        let t = s.drop_first();
        assert forall|i: int| 0 <= i < k - 1 implies is_ws(#[trigger] t[i]) by {
            assert(t[i] == s[i + 1]);
        }
        lemma_trim_start_index(t, k - 1);
        assert(t.skip(k - 1) =~= s.skip(k));
    }
}

pub proof fn lemma_trim_end_index(s: Seq<char>, k: int)
    requires
        0 <= k <= s.len(),
        forall|i: int| k <= i < s.len() ==> is_ws(#[trigger] s[i]),
        k == 0 || !is_ws(s[k - 1]),
    ensures
        trim_end(s) == s.take(k),
    decreases s.len() - k,
{
    if k == s.len() {
        assert(s.take(k) =~= s);
    } else {
        let t = s.drop_last();
        assert forall|i: int| k <= i < t.len() implies is_ws(#[trigger] t[i]) by {
            assert(t[i] == s[i]);
        }
        lemma_trim_end_index(t, k);
        assert(t.take(k) =~= s.take(k));
    }
}

pub proof fn lemma_trim_start_len(s: Seq<char>)
    ensures
        trim_start(s).len() <= s.len(),
    decreases s.len(),
{
    if s.len() > 0 && is_ws(s[0]) {
        lemma_trim_start_len(s.drop_first());
    }
}

pub proof fn lemma_trim_end_len(s: Seq<char>)
    ensures
        trim_end(s).len() <= s.len(),
    decreases s.len(),
{
    if s.len() > 0 && is_ws(s.last()) {
        lemma_trim_end_len(s.drop_last());
    }
}

/// Trimming never lengthens a text.
pub proof fn lemma_trim_len(s: Seq<char>)
    ensures
        trim(s).len() <= s.len(),
{
    lemma_trim_start_len(s);
    lemma_trim_end_len(trim_start(s));
}

/// `char::is_whitespace`.
pub fn is_whitespace(c: char) -> (b: bool)
    ensures
        b == is_ws(c),
{
    let u = c as u32;
    (0x9 <= u && u <= 0xd) || u == 0x20 || u == 0x85 || u == 0xa0 || u == 0x1680 || (0x2000
        <= u && u <= 0x200a) || u == 0x2028 || u == 0x2029 || u == 0x202f || u == 0x205f || u
        == 0x3000
}

/// Copies the characters of `s` into a vector.
pub fn chars_of(s: &str) -> (v: Vec<char>)
    ensures
        v@ == s@,
{
    let mut v: Vec<char> = Vec::new();
    for c in it: s.chars()
        invariant
            v@ == it.seq().take(it.index() as int),
            it.seq() == s@,
    {
        v.push(c);
    }
    v
}

/// Appends the characters of `s` to `v`.
pub fn push_str(v: &mut Vec<char>, s: &str)
    ensures
        final(v)@ == old(v)@ + s@,
{
    let ghost start = v@;
    for c in it: s.chars()
        invariant
            v@ == start + it.seq().take(it.index() as int),
            it.seq() == s@,
    {
        v.push(c);
        assert(v@ =~= start + it.seq().take(it.index() + 1));
    }
}

/// Appends `v[lo..hi]` to `out`.
pub fn push_range(out: &mut Vec<char>, v: &Vec<char>, lo: usize, hi: usize)
    requires
        lo <= hi <= v@.len(),
    ensures
        final(out)@ == old(out)@ + v@.subrange(lo as int, hi as int),
{
    let ghost start = out@;
    let mut i = lo;
    while i < hi
        invariant
            lo <= i <= hi <= v@.len(),
            out@ == start + v@.subrange(lo as int, i as int),
        decreases hi - i,
    {
        out.push(v[i]);
        i = i + 1;
        assert(out@ =~= start + v@.subrange(lo as int, i as int));
    }
}

/// Appends `w` to `out`.
pub fn push_all(out: &mut Vec<char>, w: &Vec<char>)
    ensures
        final(out)@ == old(out)@ + w@,
{
    push_range(out, w, 0, w.len());
    assert(w@.subrange(0, w@.len() as int) =~= w@);
}

/// A copy of a vector of plain values.
pub fn copy_vec<T: Copy>(v: &Vec<T>) -> (r: Vec<T>)
    ensures
        r@ == v@,
{
    let mut r: Vec<T> = Vec::new();
    let mut i: usize = 0;
    while i < v.len()
        invariant
            i <= v@.len(),
            r@ == v@.take(i as int),
        decreases v.len() - i,
    {
        r.push(v[i]);
        i = i + 1;
        assert(r@ =~= v@.take(i as int));
    }
    assert(v@.take(v@.len() as int) =~= v@);
    r
}

/// What `String::from_utf8_lossy` makes of `bytes`: the text, each invalid
/// sequence replaced by U+FFFD.
pub uninterp spec fn utf8_lossy(bytes: Seq<u8>) -> Seq<char>;

/// `String::from_utf8_lossy(bytes)`, owned: a function of `bytes`, which
/// valid UTF-8 decodes unchanged.
#[verifier::external_body]
pub(crate) fn from_utf8_lossy(bytes: &[u8]) -> (r: String)
    ensures
        r@ == utf8_lossy(bytes@),
        vstd::utf8::valid_utf8(bytes@) ==> r@ == vstd::utf8::decode_utf8(bytes@),
{
    String::from_utf8_lossy(bytes).into_owned()
}

/// `String::push`.
#[verifier::external_body]
fn string_push(s: &mut String, c: char)
    ensures
        final(s)@ == old(s)@.push(c),
{
    s.push(c)
}

/// Builds a `String` holding the characters of `v`.
pub fn string_of(v: &Vec<char>) -> (s: String)
    ensures
        s@ == v@,
{
    let mut s = String::new();
    let mut i: usize = 0;
    while i < v.len()
        invariant
            i <= v@.len(),
            s@ == v@.take(i as int),
        decreases v.len() - i,
    {
        string_push(&mut s, v[i]);
        i = i + 1;
        assert(s@ =~= v@.take(i as int));
    }
    assert(v@.take(v@.len() as int) =~= v@);
    s
}

/// Index of the first non-whitespace character of `v[lo..hi]`, or `hi`.
pub fn skip_ws(v: &Vec<char>, lo: usize, hi: usize) -> (k: usize)
    requires
        lo <= hi <= v@.len(),
    ensures
        lo <= k <= hi,
        forall|i: int| lo <= i < k ==> is_ws(#[trigger] v@[i]),
        k == hi || !is_ws(v@[k as int]),
        trim_start(v@.subrange(lo as int, hi as int)) == v@.subrange(k as int, hi as int),
{
    let mut k = lo;
    while k < hi && is_whitespace(v[k])
        invariant
            lo <= k <= hi <= v@.len(),
            forall|i: int| lo <= i < k ==> is_ws(#[trigger] v@[i]),
        decreases hi - k,
    {
        k = k + 1;
    }
    proof {
        let s = v@.subrange(lo as int, hi as int);
        assert forall|i: int| 0 <= i < k - lo implies is_ws(#[trigger] s[i]) by {
            assert(s[i] == v@[lo + i]);
        }
        lemma_trim_start_index(s, k - lo);
        assert(s.skip(k - lo) =~= v@.subrange(k as int, hi as int));
    }
    k
}

/// End of `v[lo..hi]` with trailing whitespace removed.
pub fn skip_ws_back(v: &Vec<char>, lo: usize, hi: usize) -> (k: usize)
    requires
        lo <= hi <= v@.len(),
    ensures
        lo <= k <= hi,
        forall|i: int| k <= i < hi ==> is_ws(#[trigger] v@[i]),
        k == lo || !is_ws(v@[k - 1]),
        trim_end(v@.subrange(lo as int, hi as int)) == v@.subrange(lo as int, k as int),
{
    let mut k = hi;
    while k > lo && is_whitespace(v[k - 1])
        invariant
            lo <= k <= hi <= v@.len(),
            forall|i: int| k <= i < hi ==> is_ws(#[trigger] v@[i]),
        decreases k - lo,
    {
        k = k - 1;
    }
    proof {
        let s = v@.subrange(lo as int, hi as int);
        assert forall|i: int| k - lo <= i < s.len() implies is_ws(#[trigger] s[i]) by {
            assert(s[i] == v@[lo + i]);
        }
        lemma_trim_end_index(s, k - lo);
        assert(s.take(k - lo) =~= v@.subrange(lo as int, k as int));
    }
    k
}

/// Bounds of `trim(v[lo..hi])`.
pub fn trim_bounds(v: &Vec<char>, lo: usize, hi: usize) -> (r: (usize, usize))
    requires
        lo <= hi <= v@.len(),
    ensures
        lo <= r.0 <= r.1 <= hi,
        trim(v@.subrange(lo as int, hi as int)) == v@.subrange(r.0 as int, r.1 as int),
{
    let a = skip_ws(v, lo, hi);
    let b = skip_ws_back(v, a, hi);
    (a, b)
}

/// `v[lo..]` starts with `p`.
pub fn starts_with_at(v: &Vec<char>, lo: usize, p: &Vec<char>) -> (b: bool)
    requires
        lo <= v@.len(),
    ensures
        b == has_prefix(v@.skip(lo as int), p@),
{
    let vlen = v.len();
    if p.len() > vlen - lo {
        return false;
    }
    let mut i: usize = 0;
    while i < p.len()
        invariant
            vlen == v@.len(),
            i <= p@.len(),
            lo <= v@.len(),
            lo + p@.len() <= v@.len(),
            forall|j: int| 0 <= j < i ==> v@[lo + j] == p@[j],
        decreases p.len() - i,
    {
        assert(lo + i < v@.len());
        if v[lo + i] != p[i] {
            assert(v@.skip(lo as int).take(p@.len() as int)[i as int] != p@[i as int]);
            return false;
        }
        i = i + 1;
    }
    assert(v@.skip(lo as int).take(p@.len() as int) =~= p@);
    true
}

/// `a == b` for character vectors.
pub fn chars_eq(a: &Vec<char>, b: &Vec<char>) -> (r: bool)
    ensures
        r == (a@ == b@),
{
    if a.len() != b.len() {
        return false;
    }
    let mut i: usize = 0;
    while i < a.len()
        invariant
            a@.len() == b@.len(),
            i <= a@.len(),
            forall|j: int| 0 <= j < i ==> a@[j] == b@[j],
        decreases a.len() - i,
    {
        if a[i] != b[i] {
            return false;
        }
        i = i + 1;
    }
    assert(a@ =~= b@);
    true
}

/// `a == b` for a string and a string slice.
pub fn str_eq(a: &str, b: &str) -> (r: bool)
    ensures
        r == (a@ == b@),
{
    let x = chars_of(a);
    let y = chars_of(b);
    chars_eq(&x, &y)
}

/// `v[lo..hi]` starts with `p`.
pub fn has_prefix_in(v: &Vec<char>, lo: usize, hi: usize, p: &Vec<char>) -> (b: bool)
    requires
        lo <= hi <= v@.len(),
    ensures
        b == has_prefix(v@.subrange(lo as int, hi as int), p@),
{
    let ghost t = v@.subrange(lo as int, hi as int);
    if p.len() > hi - lo {
        return false;
    }
    let mut i: usize = 0;
    while i < p.len()
        invariant
            lo <= hi <= v@.len(),
            t == v@.subrange(lo as int, hi as int),
            p@.len() <= hi - lo,
            i <= p@.len(),
            forall|j: int| 0 <= j < i ==> v@[lo + j] == p@[j],
        decreases p.len() - i,
    {
        if v[lo + i] != p[i] {
            assert(t.take(p@.len() as int)[i as int] == v@[lo + i]);
            return false;
        }
        i = i + 1;
    }
    assert(t.take(p@.len() as int) =~= p@);
    true
}

/// Whether `v[lo..hi]` holds a character other than whitespace.
pub fn any_non_ws(v: &Vec<char>, lo: usize, hi: usize) -> (b: bool)
    requires
        lo <= hi <= v@.len(),
    ensures
        b == !all_ws(v@.subrange(lo as int, hi as int)),
{
    let ghost t = v@.subrange(lo as int, hi as int);
    let mut m = lo;
    while m < hi
        invariant
            lo <= m <= hi <= v@.len(),
            t == v@.subrange(lo as int, hi as int),
            forall|j: int| lo <= j < m ==> is_ws(#[trigger] v@[j]),
        decreases hi - m,
    {
        if !is_whitespace(v[m]) {
            assert(t[m - lo] == v@[m as int]);
            return true;
        }
        m = m + 1;
    }
    assert forall|j: int| 0 <= j < t.len() implies is_ws(#[trigger] t[j]) by {
        assert(t[j] == v@[lo + j]);
    }
    false
}

/// End of the run of non-whitespace characters starting at `lo`.
pub fn word_end(v: &Vec<char>, lo: usize, hi: usize) -> (k: usize)
    requires
        lo <= hi <= v@.len(),
    ensures
        lo <= k <= hi,
        forall|j: int| lo <= j < k ==> !is_ws(#[trigger] v@[j]),
        k == hi || is_ws(v@[k as int]),
{
    let mut k = lo;
    while k < hi && !is_whitespace(v[k])
        invariant
            lo <= k <= hi <= v@.len(),
            forall|j: int| lo <= j < k ==> !is_ws(#[trigger] v@[j]),
        decreases hi - k,
    {
        k = k + 1;
    }
    k
}

/// Decimal digits of `n`.
pub fn u64_decimal(n: u64) -> (v: Vec<char>)
    ensures
        v@ == decimal(n as nat),
    decreases n,
{
    if n < 10 {
        let mut v = Vec::new();
        v.push(((n as u32) + 48) as u8 as char);
        proof {
            assert(v@ =~= seq![digit_char(n as nat)]);
        }
        v
    } else {
        let mut v = u64_decimal(n / 10);
        let d = (n % 10) as u32;
        v.push((d + 48) as u8 as char);
        proof {
            assert(v@ =~= decimal((n / 10) as nat).push(digit_char(n as nat % 10)));
        }
        v
    }
}

/// Decimal rendering of a signed integer.
pub fn i64_decimal(n: i64) -> (v: Vec<char>)
    ensures
        v@ == signed_decimal(n as int),
{
    if n < 0 {
        let m: u64 = if n == i64::MIN {
            9223372036854775808u64
        } else {
            (-n) as u64
        };
        let mut v = Vec::new();
        v.push('-');
        let d = u64_decimal(m);
        push_all(&mut v, &d);
        proof {
            assert(v@ =~= seq!['-'] + decimal((-(n as int)) as nat));
        }
        v
    } else {
        u64_decimal(n as u64)
    }
}

/// Index of the first `'\n'` in `s` at or after `i`, or `s.len()`.
pub open spec fn find_newline(s: Seq<char>, i: int) -> int
    decreases s.len() - i,
{
    if i < 0 || i >= s.len() {
        s.len() as int
    } else if s[i] == '\n' {
        i
    } else {
        find_newline(s, i + 1)
    }
}

pub proof fn lemma_find_newline_range(s: Seq<char>, i: int)
    requires
        0 <= i <= s.len(),
    ensures
        i <= find_newline(s, i) <= s.len(),
        find_newline(s, i) < s.len() ==> s[find_newline(s, i)] == '\n',
        forall|j: int| i <= j < find_newline(s, i) ==> s[j] != '\n',
    decreases s.len() - i,
{
    if i < s.len() && s[i] != '\n' {
        lemma_find_newline_range(s, i + 1);
    }
}

/// A line as `str::lines` yields it: a `'\r'` right before the `'\n'` is dropped.
pub open spec fn line_body(s: Seq<char>, had_newline: bool) -> Seq<char> {
    if had_newline && s.len() > 0 && s.last() == '\r' {
        s.drop_last()
    } else {
        s
    }
}

/// `str::lines`.
pub open spec fn lines(s: Seq<char>) -> Seq<Seq<char>>
    decreases s.len(),
{
    if s.len() == 0 {
        seq![]
    } else {
        let k = find_newline(s, 0);
        proof {
            lemma_find_newline_range(s, 0);
        }
        if k >= s.len() {
            seq![line_body(s, false)]
        } else {
            seq![line_body(s.take(k), true)] + lines(s.skip(k + 1))
        }
    }
}

pub proof fn lemma_find_newline_at(s: Seq<char>, i: int, k: int)
    requires
        0 <= i <= k <= s.len(),
        forall|j: int| i <= j < k ==> s[j] != '\n',
        k == s.len() || s[k] == '\n',
    ensures
        find_newline(s, i) == k,
    decreases k - i,
{
    if i < k {
        lemma_find_newline_at(s, i + 1, k);
    }
}

pub proof fn lemma_lines_unfold(s: Seq<char>, k: int)
    requires
        s.len() > 0,
        0 <= k <= s.len(),
        forall|j: int| 0 <= j < k ==> s[j] != '\n',
        k == s.len() || s[k] == '\n',
    ensures
        k == s.len() ==> lines(s) == seq![line_body(s, false)],
        k < s.len() ==> lines(s) == seq![line_body(s.take(k), true)] + lines(s.skip(k + 1)),
{
    lemma_find_newline_at(s, 0, k);
}

/// Index of the first `'\n'` in `v[lo..hi]`, or `hi`.
pub fn newline_in(v: &Vec<char>, lo: usize, hi: usize) -> (k: usize)
    requires
        lo <= hi <= v@.len(),
    ensures
        lo <= k <= hi,
        forall|j: int| lo <= j < k ==> v@[j] != '\n',
        k == hi || v@[k as int] == '\n',
{
    let mut k = lo;
    while k < hi && v[k] != '\n'
        invariant
            lo <= k <= hi <= v@.len(),
            forall|j: int| lo <= j < k ==> v@[j] != '\n',
        decreases hi - k,
    {
        k = k + 1;
    }
    k
}

/// `s` starts with `p` at position `i`.
pub proof fn lemma_prefix_at(s: Seq<char>, i: int, p: Seq<char>)
    requires
        0 <= i <= s.len(),
    ensures
        has_prefix(s.skip(i), p) == (i + p.len() <= s.len() && s.subrange(
            i,
            i + p.len(),
        ) == p),
{
    if i + p.len() <= s.len() {
        assert(s.skip(i).take(p.len() as int) =~= s.subrange(i, i + p.len()));
    }
}

/// First position at or after `i` where `p` occurs in `s`, or -1.
pub open spec fn find_from(s: Seq<char>, p: Seq<char>, i: int) -> int
    decreases s.len() + 1 - i,
{
    if i < 0 || i + p.len() > s.len() {
        -1
    } else if s.subrange(i, i + p.len()) == p {
        i
    } else {
        find_from(s, p, i + 1)
    }
}

pub proof fn lemma_find_from(s: Seq<char>, p: Seq<char>, i: int)
    ensures
        find_from(s, p, i) == -1 || (i <= find_from(s, p, i) && find_from(s, p, i) + p.len()
            <= s.len() && s.subrange(find_from(s, p, i), find_from(s, p, i) + p.len()) == p),
    decreases s.len() + 1 - i,
{
    if !(i < 0 || i + p.len() > s.len()) && s.subrange(i, i + p.len()) != p {
        lemma_find_from(s, p, i + 1);
    }
}

pub fn find_chars(v: &Vec<char>, p: &Vec<char>, i: usize) -> (r: Option<usize>)
    requires
        i <= v@.len(),
    ensures
        match r {
            Some(k) => find_from(v@, p@, i as int) == k as int,
            None => find_from(v@, p@, i as int) == -1,
        },
{
    let mut k: usize = i;
    while p.len() <= v.len() - k
        invariant
            i <= k <= v@.len(),
            find_from(v@, p@, i as int) == find_from(v@, p@, k as int),
        decreases v.len() - k,
    {
        proof {
            lemma_prefix_at(v@, k as int, p@);
            if p@.len() == 0 {
                assert(v@.skip(k as int).take(0) =~= p@);
            }
        }
        if starts_with_at(v, k, p) {
            return Some(k);
        }
        k = k + 1;
    }
    None
}

/// ASCII lower-casing of one character (`char::to_ascii_lowercase`).
pub open spec fn ascii_lower(c: char) -> char {
    if 'A' <= c && c <= 'Z' {
        ((c as u32) + 32) as char
    } else {
        c
    }
}

/// `char::to_ascii_lowercase`.
pub fn to_ascii_lower(c: char) -> (r: char)
    ensures
        r == ascii_lower(c),
{
    if 'A' <= c && c <= 'Z' {
        ((c as u32) + 32) as u8 as char
    } else {
        c
    }
}

/// ASCII lower-casing of every character (`str::to_ascii_lowercase`).
pub open spec fn lower_chars(s: Seq<char>) -> Seq<char> {
    s.map_values(|c: char| ascii_lower(c))
}

/// `v` with every ASCII capital lowered.
pub fn lower_ascii(v: &Vec<char>) -> (r: Vec<char>)
    ensures
        r@ == lower_chars(v@),
{
    let mut out: Vec<char> = Vec::new();
    let mut i: usize = 0;
    while i < v.len()
        invariant
            i <= v@.len(),
            out@ == lower_chars(v@.take(i as int)),
        decreases v.len() - i,
    {
        out.push(to_ascii_lower(v[i]));
        i = i + 1;
        assert(out@ =~= lower_chars(v@.take(i as int)));
    }
    assert(v@.take(v@.len() as int) =~= v@);
    out
}

/// The contents of each vector of characters in `v`.
pub open spec fn views(v: Seq<Vec<char>>) -> Seq<Seq<char>> {
    Seq::new(v.len(), |i: int| v[i]@)
}

/// The lines of `v`, as `str::lines` splits them.
pub fn line_list(v: &Vec<char>) -> (r: Vec<Vec<char>>)
    ensures
        views(r@) == lines(v@),
{
    let hi = v.len();
    let ghost all = lines(v@);
    let mut out: Vec<Vec<char>> = Vec::new();
    let mut pos: usize = 0;
    assert(v@.subrange(0, hi as int) =~= v@);
    assert(views(out@) + all =~= all);
    while pos < hi
        invariant
            pos <= hi == v@.len(),
            all == lines(v@),
            views(out@) + lines(v@.subrange(pos as int, hi as int)) == all,
        decreases hi - pos,
    {
        let ghost s = v@.subrange(pos as int, hi as int);
        let ghost done = views(out@);
        let k = newline_in(v, pos, hi);
        proof {
            assert forall|j: int| 0 <= j < k - pos implies s[j] != '\n' by {
                assert(s[j] == v@[pos + j]);
            }
            lemma_lines_unfold(s, k - pos);
        }
        let mut end = k;
        if k < hi && k > pos && v[k - 1] == '\r' {
            end = k - 1;
        }
        proof {
            if k < hi {
                assert(s.take(k - pos) =~= v@.subrange(pos as int, k as int));
                assert(line_body(s.take(k - pos), true) =~= v@.subrange(pos as int, end as int));
                assert(s.skip(k - pos + 1) =~= v@.subrange(k + 1, hi as int));
            } else {
                assert(s =~= v@.subrange(pos as int, end as int));
            }
        }
        let mut line: Vec<char> = Vec::new();
        push_range(&mut line, v, pos, end);
        out.push(line);
        proof {
            let l = v@.subrange(pos as int, end as int);
            assert(views(out@) =~= done.push(l));
            if k < hi {
                assert(done.push(l) + lines(v@.subrange(k + 1, hi as int)) =~= done + (seq![l]
                    + lines(v@.subrange(k + 1, hi as int))));
            } else {
                assert(done.push(l) + lines(v@.subrange(hi as int, hi as int)) =~= done + seq![l]);
            }
        }
        if k < hi {
            pos = k + 1;
        } else {
            pos = hi;
        }
    }
    assert(v@.subrange(pos as int, hi as int).len() == 0);
    assert(views(out@) =~= all);
    out
}

/// Whether every character of `s` is an ASCII digit.
pub open spec fn all_digits(s: Seq<char>) -> bool {
    forall|i: int| 0 <= i < s.len() ==> '0' <= #[trigger] s[i] && s[i] <= '9'
}

/// The value of a string of decimal digits.
pub open spec fn digits_value(s: Seq<char>) -> nat
    decreases s.len(),
{
    if s.len() == 0 {
        0
    } else {
        digits_value(s.drop_last()) * 10 + (s.last() as nat - '0' as nat) as nat
    }
}

/// `str::parse::<i64>`: an optional `+` or `-`, then at least one ASCII
/// digit and nothing else, with a value that fits.
pub open spec fn parse_i64_spec(s: Seq<char>) -> Option<i64> {
    let neg = s.len() > 0 && s[0] == '-';
    let body = if s.len() > 0 && (s[0] == '-' || s[0] == '+') {
        s.skip(1)
    } else {
        s
    };
    if body.len() == 0 || !all_digits(body) {
        None
    } else if neg {
        if digits_value(body) <= 0x8000_0000_0000_0000 {
            Some((0 - digits_value(body)) as i64)
        } else {
            None
        }
    } else if digits_value(body) <= 0x7fff_ffff_ffff_ffff {
        Some(digits_value(body) as i64)
    } else {
        None
    }
}

/// Parses a decimal `i64` as `str::parse` does.
pub fn parse_i64(s: &str) -> (r: Option<i64>)
    ensures
        r == parse_i64_spec(s@),
{
    let v = chars_of(s);
    let n = v.len();
    let neg = n > 0 && v[0] == '-';
    let start: usize = if n > 0 && (v[0] == '-' || v[0] == '+') {
        1
    } else {
        0
    };
    let ghost body = v@.skip(start as int);
    assert(body =~= v@.subrange(start as int, n as int));
    if start >= n {
        return None;
    }
    let mut acc: u128 = 0;
    let mut big = false;
    let mut i = start;
    while i < n
        invariant
            start <= i <= n == v@.len(),
            v@ == s@,
            start < n,
            neg == (s@.len() > 0 && s@[0] == '-'),
            start as int == (if s@.len() > 0 && (s@[0] == '-' || s@[0] == '+') {
                1int
            } else {
                0int
            }),
            body == v@.skip(start as int),
            body == v@.subrange(start as int, n as int),
            all_digits(v@.subrange(start as int, i as int)),
            !big ==> acc == digits_value(v@.subrange(start as int, i as int)) && acc <= 0x8000_0000_0000_0000,
            big ==> digits_value(v@.subrange(start as int, i as int)) > 0x8000_0000_0000_0000,
        decreases n - i,
    {
        let c = v[i];
        let ghost prefix = v@.subrange(start as int, i as int);
        let ghost next = v@.subrange(start as int, i as int + 1);
        assert(next.drop_last() =~= prefix);
        assert(next.last() == c);
        if !('0' <= c && c <= '9') {
            assert(!all_digits(body)) by {
                assert(body[i - start] == c);
            }
            return None;
        }
        assert(all_digits(next)) by {
            assert forall|k: int| 0 <= k < next.len() implies '0' <= #[trigger] next[k] && next[k] <= '9' by {
                if k < prefix.len() {
                    assert(next[k] == prefix[k]);
                }
            }
        }
        let d = (c as u32 - '0' as u32) as u128;
        if !big {
            acc = acc * 10 + d;
            if acc > 0x8000_0000_0000_0000 {
                big = true;
            }
        }
        i = i + 1;
    }
    assert(v@.subrange(start as int, n as int) == body);
    proof {
        if start == 0 {
            assert(v@.skip(0) =~= v@);
        }
    }
    if big {
        return None;
    }
    if neg {
        if acc <= 0x8000_0000_0000_0000 {
            proof {
                assert(digits_value(body) == acc);
            }
            if acc == 0x8000_0000_0000_0000 {
                Some(i64::MIN)
            } else {
                Some(0 - (acc as i64))
            }
        } else {
            None
        }
    } else if acc <= 0x7fff_ffff_ffff_ffff {
        Some(acc as i64)
    } else {
        None
    }
}

} // verus!
