//! The model's platform tools: which QQ ids a mention may name, and what
//! `send_message_to_user` may carry.
//!
//! Argument decoding, file metadata and the sends are the host's.

use vstd::prelude::*;
use crate::path::path_join;
use crate::platforms::outbound::OutboundSegment;
use crate::text::{chars_of, has_prefix, push_range, push_str, str_eq, string_of, trim, trim_bounds};

verus! {

/// Images one `send_message_to_user` call may attach.
pub const MAX_TOOL_IMAGES: usize = 4;

/// Files one `send_message_to_user` call may attach.
pub const MAX_TOOL_FILES: usize = 4;

/// Members one mention may name.
pub const MAX_TOOL_MENTIONS: usize = 32;

/// Why a mention is refused.
#[derive(PartialEq, Eq, Debug)]
pub enum MentionError {
    /// Not a group conversation.
    NotAGroup,
    /// No ids.
    Empty,
    /// More than `MAX_TOOL_MENTIONS` ids.
    TooMany,
    /// The entry at this position is not a (non-empty) string.
    NotAString(usize),
    /// The entry at this position is not a 5-12 digit QQ id.
    BadId(usize),
    /// These ids are not members of the group.
    NotMembers(Vec<String>),
}

/// A QQ id as a mention takes it: 5 to 12 ASCII digits, not starting with 0.
pub open spec fn qq_id_shape(id: Seq<char>) -> bool {
    &&& 5 <= id.len() <= 12
    &&& '1' <= id[0] && id[0] <= '9'
    &&& forall|i: int| 0 <= i < id.len() ==> '0' <= #[trigger] id[i] && id[i] <= '9'
}

fn qq_id_shaped(id: &str) -> (r: bool)
    ensures
        r == qq_id_shape(id@),
{
    let v = chars_of(id);
    let n = v.len();
    if n < 5 || n > 12 {
        return false;
    }
    if !('1' <= v[0] && v[0] <= '9') {
        return false;
    }
    let mut i: usize = 0;
    while i < n
        invariant
            n == v@.len(),
            v@ == id@,
            i <= n,
            forall|k: int| 0 <= k < i ==> '0' <= #[trigger] v@[k] && v@[k] <= '9',
        decreases n - i,
    {
        if !('0' <= v[i] && v[i] <= '9') {
            return false;
        }
        i = i + 1;
    }
    true
}

/// The ids of a mention, each kept once in first-seen order, or the first
/// reason they are refused.
pub open spec fn mention_ids_spec(ids: Seq<Option<Seq<char>>>) -> Result<Seq<Seq<char>>, MentionError> {
    if ids.len() == 0 {
        Err(MentionError::Empty)
    } else if ids.len() > MAX_TOOL_MENTIONS {
        Err(MentionError::TooMany)
    } else {
        mention_scan(ids, ids.len() as int)
    }
}

pub open spec fn mention_scan(ids: Seq<Option<Seq<char>>>, n: int) -> Result<Seq<Seq<char>>, MentionError>
    decreases n,
{
    if n <= 0 {
        Ok(Seq::empty())
    } else {
        match mention_scan(ids, n - 1) {
            Err(e) => Err(e),
            Ok(kept) => match ids[n - 1] {
                None => Err(MentionError::NotAString((n - 1) as usize)),
                Some(id) => if id.len() == 0 {
                    Err(MentionError::NotAString((n - 1) as usize))
                } else if !qq_id_shape(id) {
                    Err(MentionError::BadId((n - 1) as usize))
                } else if kept.contains(id) {
                    Ok(kept)
                } else {
                    Ok(kept.push(id))
                },
            },
        }
    }
}

fn contains_text(v: &Vec<String>, s: &str) -> (r: bool)
    ensures
        r == Seq::new(v@.len(), |i: int| v@[i]@).contains(s@),
{
    let ghost views = Seq::new(v@.len(), |i: int| v@[i]@);
    let mut i: usize = 0;
    while i < v.len()
        invariant
            i <= v@.len(),
            views == Seq::new(v@.len(), |i: int| v@[i]@),
            forall|k: int| 0 <= k < i ==> views[k] != s@,
        decreases v.len() - i,
    {
        if str_eq(v[i].as_str(), s) {
            assert(views[i as int] == s@);
            return true;
        }
        i = i + 1;
    }
    false
}

/// Checks a mention's ids (`None` for an entry that is not a string).
pub fn mention_ids(is_group: bool, ids: &Vec<Option<String>>) -> (r: Result<Vec<String>, MentionError>)
    ensures
        !is_group ==> r == Err::<Vec<String>, MentionError>(MentionError::NotAGroup),
        is_group ==> match mention_ids_spec(
            Seq::new(ids@.len(), |i: int| match ids@[i] {
                Some(s) => Some(s@),
                None => None,
            }),
        ) {
            Err(e) => r == Err::<Vec<String>, MentionError>(e),
            Ok(kept) => r matches Ok(v) && Seq::new(v@.len(), |i: int| v@[i]@) == kept,
        },
{
    if !is_group {
        return Err(MentionError::NotAGroup);
    }
    let ghost iv = Seq::new(ids@.len(), |i: int| match ids@[i] {
        Some(s) => Some(s@),
        None => None::<Seq<char>>,
    });
    let n = ids.len();
    if n == 0 {
        return Err(MentionError::Empty);
    }
    if n > MAX_TOOL_MENTIONS {
        return Err(MentionError::TooMany);
    }
    let mut kept: Vec<String> = Vec::new();
    let mut i: usize = 0;
    assert(Seq::new(kept@.len(), |k: int| kept@[k]@) =~= Seq::<Seq<char>>::empty());
    while i < n
        invariant
            n == ids@.len() == iv.len(),
            is_group,
            0 < n <= MAX_TOOL_MENTIONS,
            iv == Seq::new(ids@.len(), |i: int| match ids@[i] {
                Some(s) => Some(s@),
                None => None::<Seq<char>>,
            }),
            i <= n,
            mention_scan(iv, i as int) == Ok::<Seq<Seq<char>>, MentionError>(
                Seq::new(kept@.len(), |k: int| kept@[k]@),
            ),
        decreases n - i,
    {
        let ghost before = Seq::new(kept@.len(), |k: int| kept@[k]@);
        match &ids[i] {
            None => {
                proof {
                    lemma_scan_stays_err(iv, i as int + 1, MentionError::NotAString(i));
                }
                return Err(MentionError::NotAString(i));
            },
            Some(id) => {
                if id.as_str().is_empty() {
                    proof {
                        lemma_scan_stays_err(iv, i as int + 1, MentionError::NotAString(i));
                    }
                    return Err(MentionError::NotAString(i));
                }
                if !qq_id_shaped(id.as_str()) {
                    proof {
                        lemma_scan_stays_err(iv, i as int + 1, MentionError::BadId(i));
                    }
                    return Err(MentionError::BadId(i));
                }
                if !contains_text(&kept, id.as_str()) {
                    kept.push(string_of(&chars_of(id.as_str())));
                    assert(Seq::new(kept@.len(), |k: int| kept@[k]@) =~= before.push(id@));
                }
            },
        }
        i = i + 1;
    }
    Ok(kept)
}

proof fn lemma_scan_stays_err(ids: Seq<Option<Seq<char>>>, i: int, e: MentionError)
    requires
        0 < i <= ids.len(),
        mention_scan(ids, i) == Err::<Seq<Seq<char>>, MentionError>(e),
    ensures
        mention_scan(ids, ids.len() as int) == Err::<Seq<Seq<char>>, MentionError>(e),
    decreases ids.len() - i,
{
    if i < ids.len() {
        lemma_scan_stays_err(ids, i + 1, e);
    }
}

/// The ids that are not among `members`, in order.
pub open spec fn not_members(ids: Seq<Seq<char>>, members: Seq<Seq<char>>) -> Seq<Seq<char>>
    decreases ids.len(),
{
    if ids.len() == 0 {
        ids
    } else {
        let rest = not_members(ids.drop_last(), members);
        if members.contains(ids.last()) {
            rest
        } else {
            rest.push(ids.last())
        }
    }
}

/// The ids that are not members of the group, in order.
pub fn missing_members(ids: &Vec<String>, members: &Vec<String>) -> (r: Vec<String>)
    ensures
        Seq::new(r@.len(), |i: int| r@[i]@) == not_members(
            Seq::new(ids@.len(), |i: int| ids@[i]@),
            Seq::new(members@.len(), |i: int| members@[i]@),
        ),
{
    let ghost iv = Seq::new(ids@.len(), |i: int| ids@[i]@);
    let ghost mv = Seq::new(members@.len(), |i: int| members@[i]@);
    let mut out: Vec<String> = Vec::new();
    let mut i: usize = 0;
    assert(Seq::new(out@.len(), |k: int| out@[k]@) =~= not_members(iv.take(0), mv));
    while i < ids.len()
        invariant
            i <= ids@.len(),
            iv == Seq::new(ids@.len(), |i: int| ids@[i]@),
            mv == Seq::new(members@.len(), |i: int| members@[i]@),
            Seq::new(out@.len(), |k: int| out@[k]@) == not_members(iv.take(i as int), mv),
        decreases ids.len() - i,
    {
        let ghost before = Seq::new(out@.len(), |k: int| out@[k]@);
        proof {
            let t = iv.take(i as int + 1);
            assert(t.drop_last() =~= iv.take(i as int));
            assert(t.last() == iv[i as int]);
        }
        if !contains_text(members, ids[i].as_str()) {
            out.push(string_of(&chars_of(ids[i].as_str())));
            assert(Seq::new(out@.len(), |k: int| out@[k]@) =~= before.push(iv[i as int]));
        }
        i = i + 1;
    }
    assert(iv.take(ids@.len() as int) =~= iv);
    out
}

/// Why a `send_message_to_user` call is refused.
#[derive(PartialEq, Eq, Structural, Debug, Clone, Copy)]
pub enum ToolSendError {
    /// More than `MAX_TOOL_IMAGES` images.
    TooManyImages,
    /// More than `MAX_TOOL_FILES` files.
    TooManyFiles,
    /// Local attachments from someone who may not use host tools.
    AttachmentsNotAllowed,
    /// Neither text nor attachments.
    NothingToSend,
}

/// The checks a send makes before it touches any attachment.
pub fn check_tool_send(
    has_text: bool,
    image_count: usize,
    file_count: usize,
    host_tools_allowed: bool,
) -> (r: Result<(), ToolSendError>)
    ensures
        r == if image_count > MAX_TOOL_IMAGES {
            Err::<(), ToolSendError>(ToolSendError::TooManyImages)
        } else if file_count > MAX_TOOL_FILES {
            Err::<(), ToolSendError>(ToolSendError::TooManyFiles)
        } else if (image_count > 0 || file_count > 0) && !host_tools_allowed {
            Err::<(), ToolSendError>(ToolSendError::AttachmentsNotAllowed)
        } else if !has_text && image_count == 0 && file_count == 0 {
            Err::<(), ToolSendError>(ToolSendError::NothingToSend)
        } else {
            Ok::<(), ToolSendError>(())
        },
{
    if image_count > MAX_TOOL_IMAGES {
        Err(ToolSendError::TooManyImages)
    } else if file_count > MAX_TOOL_FILES {
        Err(ToolSendError::TooManyFiles)
    } else if (image_count > 0 || file_count > 0) && !host_tools_allowed {
        Err(ToolSendError::AttachmentsNotAllowed)
    } else if !has_text && image_count == 0 && file_count == 0 {
        Err(ToolSendError::NothingToSend)
    } else {
        Ok(())
    }
}

/// The text segment of a send: the text as Markdown unless it is missing
/// or blank.
pub fn tool_text_segment(text: Option<&str>) -> (r: Option<OutboundSegment>)
    ensures
        match text {
            Some(t) => if trim(t@).len() > 0 {
                r matches Some(OutboundSegment::Markdown(m)) && m@ == t@
            } else {
                r is None
            },
            None => r is None,
        },
{
    match text {
        Some(t) => {
            let v = chars_of(t);
            let (lo, hi) = trim_bounds(&v, 0, v.len());
            assert(v@.subrange(0, v@.len() as int) =~= v@);
            if lo < hi {
                Some(OutboundSegment::Markdown(string_of(&v)))
            } else {
                None
            }
        },
        None => None,
    }
}

/// Where an attachment path points: trimmed; `~/` under the home
/// directory (or a literal `~` when none is known); relative paths under
/// the working directory. `None` when it is missing or blank.
pub open spec fn attachment_path_spec(raw: Option<Seq<char>>, home: Option<Seq<char>>, workdir: Seq<char>) -> Option<
    Seq<char>,
> {
    match raw {
        None => None,
        Some(r) => {
            let t = trim(r);
            if t.len() == 0 {
                None
            } else {
                let p = if has_prefix(t, seq!['~', '/']) {
                    path_join(
                        match home {
                            Some(h) => h,
                            None => seq!['~'],
                        },
                        t.skip(2),
                    )
                } else {
                    t
                };
                Some(
                    if p.len() > 0 && p[0] == '/' {
                        p
                    } else {
                        path_join(workdir, p)
                    },
                )
            }
        },
    }
}

pub fn attachment_path(raw: Option<&str>, home: Option<&str>, workdir: &str) -> (r: Option<String>)
    ensures
        match r {
            Some(p) => attachment_path_spec(match raw {
                Some(x) => Some(x@),
                None => None,
            }, match home {
                Some(h) => Some(h@),
                None => None,
            }, workdir@) == Some(p@),
            None => attachment_path_spec(match raw {
                Some(x) => Some(x@),
                None => None,
            }, match home {
                Some(h) => Some(h@),
                None => None,
            }, workdir@) is None,
        },
{
    let r = match raw {
        None => {
            return None;
        },
        Some(r) => r,
    };
    let v = chars_of(r);
    let (lo, hi) = trim_bounds(&v, 0, v.len());
    assert(v@.subrange(0, v@.len() as int) =~= v@);
    if lo == hi {
        return None;
    }
    let mut t: Vec<char> = Vec::new();
    push_range(&mut t, &v, lo, hi);
    let tilde = t.len() >= 2 && t[0] == '~' && t[1] == '/';
    proof {
        if tilde {
            assert(t@.subrange(0, 2) =~= seq!['~', '/']);
        }
        if has_prefix(t@, seq!['~', '/']) {
            assert(t@[0] == t@.subrange(0, 2)[0]);
            assert(t@[1] == t@.subrange(0, 2)[1]);
        }
    }
    let p: String = if tilde {
        let mut rest: Vec<char> = Vec::new();
        push_range(&mut rest, &t, 2, t.len());
        assert(rest@ =~= t@.skip(2));
        let base: String = match home {
            Some(h) => string_of(&chars_of(h)),
            None => string_of(&chars_of("~")),
        };
        proof {
            reveal_strlit("~");
            assert("~"@ =~= seq!['~']);
        }
        crate::path::join_path(base.as_str(), string_of(&rest).as_str())
    } else {
        string_of(&t)
    };
    let pv = chars_of(p.as_str());
    if pv.len() > 0 && pv[0] == '/' {
        Some(p)
    } else {
        Some(crate::path::join_path(workdir, p.as_str()))
    }
}

/// An image's alt text: trimmed, empty when missing.
pub fn attachment_alt(alt: Option<&str>) -> (r: String)
    ensures
        r@ == match alt {
            Some(a) => trim(a@),
            None => Seq::<char>::empty(),
        },
{
    match alt {
        Some(a) => {
            let v = chars_of(a);
            let (lo, hi) = trim_bounds(&v, 0, v.len());
            assert(v@.subrange(0, v@.len() as int) =~= v@);
            let mut out: Vec<char> = Vec::new();
            push_range(&mut out, &v, lo, hi);
            string_of(&out)
        },
        None => String::new(),
    }
}

/// A file's display name: trimmed, `None` when missing or blank.
pub fn attachment_name(name: Option<&str>) -> (r: Option<String>)
    ensures
        match name {
            Some(n) => if trim(n@).len() > 0 {
                r matches Some(s) && s@ == trim(n@)
            } else {
                r is None
            },
            None => r is None,
        },
{
    match name {
        Some(n) => {
            let v = chars_of(n);
            let (lo, hi) = trim_bounds(&v, 0, v.len());
            assert(v@.subrange(0, v@.len() as int) =~= v@);
            if lo < hi {
                let mut out: Vec<char> = Vec::new();
                push_range(&mut out, &v, lo, hi);
                Some(string_of(&out))
            } else {
                None
            }
        },
        None => None,
    }
}

} // verus!
