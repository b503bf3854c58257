//! Unix paths as text: their components, equality and prefixes by
//! components, joining, file names and extensions.

use vstd::prelude::*;
use crate::text::{views, chars_of, has_prefix, push_all, push_range, push_str, string_of, trim, trim_bounds};

verus! {

/// A piece between slashes as a component: none when it is empty or `.`.
pub open spec fn piece(seg: Seq<char>) -> Seq<Seq<char>> {
    if seg.len() == 0 || seg == seq!['.'] {
        Seq::empty()
    } else {
        seq![seg]
    }
}

/// The named components of `s` from index `i` on, the current piece
/// having begun at `start`: the pieces between slashes, without empty
/// pieces and without `.`.
pub open spec fn scan_pieces(s: Seq<char>, start: int, i: int) -> Seq<Seq<char>>
    decreases s.len() - i,
{
    if i >= s.len() {
        piece(s.subrange(start, s.len() as int))
    } else if s[i] == '/' {
        piece(s.subrange(start, i)) + scan_pieces(s, i + 1, i + 1)
    } else {
        scan_pieces(s, start, i + 1)
    }
}

/// The named components of `s` from index `i` on.
pub open spec fn segments_from(s: Seq<char>, i: int) -> Seq<Seq<char>> {
    scan_pieces(s, i, i)
}

/// The components of a Unix path, as `std::path::Path` reads them: `/`
/// for the root, `.` for a leading current-directory mark, then each
/// named piece (`..` included), with empty pieces and inner `.` dropped.
pub open spec fn components(s: Seq<char>) -> Seq<Seq<char>> {
    if s.len() > 0 && s[0] == '/' {
        seq![seq!['/']] + segments_from(s, 1)
    } else if s.len() > 0 && s[0] == '.' && (s.len() == 1 || s[1] == '/') {
        seq![seq!['.']] + segments_from(s, 1)
    } else {
        segments_from(s, 0)
    }
}

/// Two paths are equal when their components are.
pub open spec fn same_path(a: Seq<char>, b: Seq<char>) -> bool {
    components(a) == components(b)
}

/// `p` lies at or under `base` when the components of `base` begin those
/// of `p`.
pub open spec fn path_under(p: Seq<char>, base: Seq<char>) -> bool {
    components(base).len() <= components(p).len() && components(p).subrange(
        0,
        components(base).len() as int,
    ) == components(base)
}

/// The last component, where it is a named one (not the root, a leading
/// `.`, or `..`).
pub open spec fn file_name_of(s: Seq<char>) -> Option<Seq<char>> {
    let c = components(s);
    if c.len() > 0 && c.last() != seq!['/'] && c.last() != seq!['.'] && c.last() != seq!['.', '.'] {
        Some(c.last())
    } else {
        None
    }
}

/// Index of the last `.` in `s` before `hi`, or -1.
pub open spec fn last_dot_before(s: Seq<char>, hi: int) -> int
    decreases hi,
{
    if hi <= 0 {
        -1
    } else if s[hi - 1] == '.' {
        hi - 1
    } else {
        last_dot_before(s, hi - 1)
    }
}

/// The extension of a file name: what follows its last `.`, unless that
/// dot is the name's first character or there is none.
pub open spec fn name_extension(name: Seq<char>) -> Option<Seq<char>> {
    let d = last_dot_before(name, name.len() as int);
    if d <= 0 {
        None
    } else {
        Some(name.subrange(d + 1, name.len() as int))
    }
}

/// The extension of the path's file name.
pub open spec fn extension_of(s: Seq<char>) -> Option<Seq<char>> {
    match file_name_of(s) {
        Some(name) => name_extension(name),
        None => None,
    }
}

/// `base` joined with `part` as `PathBuf::join` does: an absolute `part`
/// replaces `base`; otherwise a `/` goes between them unless `base` is
/// empty or already ends in one.
pub open spec fn path_join(base: Seq<char>, part: Seq<char>) -> Seq<char> {
    if part.len() > 0 && part[0] == '/' {
        part
    } else if base.len() == 0 || base.last() == '/' {
        base + part
    } else {
        base + seq!['/'] + part
    }
}

/// A tool's path argument resolved: trimmed, `~/` taken from the home
/// directory where one is known, relative paths taken from the working
/// directory.
pub open spec fn expanded_path(value: Seq<char>, home: Option<Seq<char>>, workdir: Seq<char>) -> Seq<
    char,
> {
    let v = trim(value);
    if has_prefix(v, seq!['~', '/']) && home is Some {
        path_join(home->0, v.skip(2))
    } else if v.len() > 0 && v[0] == '/' {
        v
    } else {
        path_join(workdir, v)
    }
}

fn segments_into(v: &Vec<char>, start: usize, out: &mut Vec<Vec<char>>)
    requires
        start <= v@.len(),
    ensures
        views(final(out)@) == views(old(out)@) + segments_from(v@, start as int),
{
    let n = v.len();
    let mut lo = start;
    let mut i = start;
    while i < n
        invariant
            n == v@.len(),
            start <= lo <= i <= n,
            views(out@) + scan_pieces(v@, lo as int, i as int) == views(old(out)@)
                + segments_from(v@, start as int),
        decreases n - i,
    {
        if v[i] == '/' {
            let ghost before = views(out@);
            let ghost seg = v@.subrange(lo as int, i as int);
            push_piece(v, lo, i, out);
            proof {
                assert(before + (piece(seg) + scan_pieces(v@, i as int + 1, i as int + 1)) =~= (
                before + piece(seg)) + scan_pieces(v@, i as int + 1, i as int + 1));
            }
            lo = i + 1;
        }
        i = i + 1;
    }
    push_piece(v, lo, n, out);
}

fn push_piece(v: &Vec<char>, lo: usize, hi: usize, out: &mut Vec<Vec<char>>)
    requires
        lo <= hi <= v@.len(),
    ensures
        views(final(out)@) == views(old(out)@) + piece(v@.subrange(lo as int, hi as int)),
{
    let ghost seg = v@.subrange(lo as int, hi as int);
    let skip = hi == lo || (hi == lo + 1 && v[lo] == '.');
    proof {
        if hi == lo + 1 && v@[lo as int] == '.' {
            assert(seg =~= seq!['.']);
        }
        if !skip {
            assert(seg.len() != 0);
            if seg == seq!['.'] {
                assert(seg.len() == 1);
                assert(seg[0] == v@[lo as int]);
            }
        }
    }
    if skip {
        assert(views(old(out)@) + piece(seg) =~= views(old(out)@));
    } else {
        let mut p: Vec<char> = Vec::new();
        push_range(&mut p, v, lo, hi);
        out.push(p);
        assert(views(out@) =~= views(old(out)@) + piece(seg));
    }
}

/// The components of `p` (see `components`).
pub fn path_components(p: &str) -> (r: Vec<Vec<char>>)
    ensures
        views(r@) == components(p@),
{
    let v = chars_of(p);
    let n = v.len();
    let mut out: Vec<Vec<char>> = Vec::new();
    if n > 0 && v[0] == '/' {
        let mut root: Vec<char> = Vec::new();
        root.push('/');
        assert(root@ =~= seq!['/']);
        out.push(root);
        assert(views(out@) =~= seq![seq!['/']]);
        segments_into(&v, 1, &mut out);
    } else if n > 0 && v[0] == '.' && (n == 1 || v[1] == '/') {
        let mut cur: Vec<char> = Vec::new();
        cur.push('.');
        assert(cur@ =~= seq!['.']);
        out.push(cur);
        assert(views(out@) =~= seq![seq!['.']]);
        segments_into(&v, 1, &mut out);
    } else {
        assert(views(out@) =~= Seq::<Seq<char>>::empty());
        segments_into(&v, 0, &mut out);
        assert(views(out@) =~= segments_from(v@, 0));
    }
    out
}

fn chars_vec_eq(a: &Vec<char>, b: &Vec<char>) -> (r: bool)
    ensures
        r == (a@ == b@),
{
    crate::text::chars_eq(a, b)
}

/// Whether the component lists `a[..k]` and `b[..k]` agree.
fn components_agree(a: &Vec<Vec<char>>, b: &Vec<Vec<char>>, k: usize) -> (r: bool)
    requires
        k <= a@.len(),
        k <= b@.len(),
    ensures
        r == (views(a@).subrange(0, k as int) == views(b@).subrange(0, k as int)),
{
    let mut i: usize = 0;
    while i < k
        invariant
            k <= a@.len(),
            k <= b@.len(),
            i <= k,
            views(a@).subrange(0, i as int) == views(b@).subrange(0, i as int),
        decreases k - i,
    {
        if !chars_vec_eq(&a[i], &b[i]) {
            assert(views(a@).subrange(0, k as int)[i as int] != views(b@).subrange(
                0,
                k as int,
            )[i as int]);
            return false;
        }
        assert(views(a@).subrange(0, i as int + 1) =~= views(b@).subrange(0, i as int + 1))
            by {
            assert forall|t: int| 0 <= t < i + 1 implies views(a@)[t] == views(b@)[t] by {
                if t < i {
                    assert(views(a@).subrange(0, i as int)[t] == views(b@).subrange(
                        0,
                        i as int,
                    )[t]);
                }
            }
        }
        i = i + 1;
    }
    true
}

/// Whether `a` and `b` name the same path, component by component.
pub fn same_path_exec(a: &str, b: &str) -> (r: bool)
    ensures
        r == same_path(a@, b@),
{
    let ca = path_components(a);
    let cb = path_components(b);
    if ca.len() != cb.len() {
        assert(views(ca@).len() != views(cb@).len());
        return false;
    }
    let r = components_agree(&ca, &cb, ca.len());
    assert(views(ca@).subrange(0, ca@.len() as int) =~= views(ca@));
    assert(views(cb@).subrange(0, cb@.len() as int) =~= views(cb@));
    r
}

/// Whether `p` lies at or under `base`, component by component.
pub fn path_under_exec(p: &str, base: &str) -> (r: bool)
    ensures
        r == path_under(p@, base@),
{
    let cp = path_components(p);
    let cb = path_components(base);
    if cb.len() > cp.len() {
        return false;
    }
    let r = components_agree(&cp, &cb, cb.len());
    assert(views(cb@).subrange(0, cb@.len() as int) =~= views(cb@));
    r
}

/// The file name of `p` (see `file_name_of`).
pub fn file_name(p: &str) -> (r: Option<Vec<char>>)
    ensures
        match r {
            Some(n) => file_name_of(p@) == Some(n@),
            None => file_name_of(p@) is None,
        },
{
    let c = path_components(p);
    let n = c.len();
    if n == 0 {
        return None;
    }
    let last = &c[n - 1];
    assert(views(c@).last() == last@);
    let root = vec!['/'];
    let cur = vec!['.'];
    let up = vec!['.', '.'];
    if chars_vec_eq(last, &root) || chars_vec_eq(last, &cur) || chars_vec_eq(last, &up) {
        assert(root@ =~= seq!['/']);
        assert(cur@ =~= seq!['.']);
        assert(up@ =~= seq!['.', '.']);
        None
    } else {
        assert(root@ =~= seq!['/']);
        assert(cur@ =~= seq!['.']);
        assert(up@ =~= seq!['.', '.']);
        let mut out: Vec<char> = Vec::new();
        push_all(&mut out, last);
        Some(out)
    }
}

fn dot_end(v: &Vec<char>) -> (hi: usize)
    ensures
        hi as int == last_dot_before(v@, v@.len() as int) + 1,
        hi <= v@.len(),
{
    let mut hi = v.len();
    while hi > 0 && v[hi - 1] != '.'
        invariant
            hi <= v@.len(),
            last_dot_before(v@, hi as int) == last_dot_before(v@, v@.len() as int),
        decreases hi,
    {
        hi = hi - 1;
    }
    hi
}

/// The extension of `p`'s file name (see `extension_of`).
pub fn extension(p: &str) -> (r: Option<Vec<char>>)
    ensures
        match r {
            Some(e) => extension_of(p@) == Some(e@),
            None => extension_of(p@) is None,
        },
{
    match file_name(p) {
        None => None,
        Some(name) => {
            let hi = dot_end(&name);
            if hi <= 1 {
                None
            } else {
                let mut out: Vec<char> = Vec::new();
                push_range(&mut out, &name, hi, name.len());
                Some(out)
            }
        },
    }
}

/// `base` joined with `part` (see `path_join`).
pub fn join_path(base: &str, part: &str) -> (r: String)
    ensures
        r@ == path_join(base@, part@),
{
    let b = chars_of(base);
    let p = chars_of(part);
    let mut v: Vec<char> = Vec::new();
    if p.len() > 0 && p[0] == '/' {
        push_all(&mut v, &p);
    } else if b.len() == 0 || b[b.len() - 1] == '/' {
        push_all(&mut v, &b);
        push_all(&mut v, &p);
    } else {
        push_all(&mut v, &b);
        v.push('/');
        push_all(&mut v, &p);
    }
    string_of(&v)
}

/// A tool's path argument resolved (see `expanded_path`).
pub fn expand_path(value: &str, home: Option<&str>, workdir: &str) -> (r: String)
    ensures
        r@ == expanded_path(value@, match home {
            Some(h) => Some(h@),
            None => None,
        }, workdir@),
{
    let v = chars_of(value);
    let (lo, hi) = trim_bounds(&v, 0, v.len());
    let mut t: Vec<char> = Vec::new();
    push_range(&mut t, &v, lo, hi);
    assert(v@.subrange(0, v@.len() as int) =~= v@);
    assert(t@ == trim(value@));
    let tail_start: usize = if t.len() >= 2 { 2 } else { t.len() };
    let mut rest: Vec<char> = Vec::new();
    push_range(&mut rest, &t, tail_start, t.len());
    let tilde = t.len() >= 2 && t[0] == '~' && t[1] == '/';
    proof {
        if tilde {
            assert(t@.subrange(0, 2) =~= seq!['~', '/']);
            assert(rest@ =~= t@.skip(2));
        }
        if has_prefix(t@, seq!['~', '/']) {
            assert(t@[0] == t@.subrange(0, 2)[0]);
            assert(t@[1] == t@.subrange(0, 2)[1]);
        }
    }
    match home {
        Some(h) => {
            if tilde {
                return join_path(h, string_of(&rest).as_str());
            }
        },
        None => {},
    }
    let ts = string_of(&t);
    if t.len() > 0 && t[0] == '/' {
        ts
    } else {
        join_path(workdir, ts.as_str())
    }
}

} // verus!
