//! Reply shaping for a turn that streams several model rounds.
//!
//! A tool may deliver part of the answer directly; text the model writes
//! after such a send repeats it and is cut before the reply goes out.

use vstd::prelude::*;
use super::closed_ranges;
use super::outbound::{OutboundBody, OutboundMessage, OutboundSegment, OutboundForwardNode};
use super::suppression::cut_bytes;
use crate::text::{chars_of, push_range, push_str, push_all, string_of, trim, trim_bounds, all_ws};

pub use super::suppression::cut_suppressed_ranges;

verus! {

/// Direct-send suppression across model rounds.
pub struct ReplySuppression {
    pub ranges: Vec<(usize, usize)>,
    pub open_at: Option<usize>,
    pub final_reply_already_sent: bool,
}

impl ReplySuppression {
    pub fn new() -> (r: Self)
        ensures
            r.ranges@.len() == 0,
            r.open_at is None,
            !r.final_reply_already_sent,
    {
        ReplySuppression { ranges: Vec::new(), open_at: None, final_reply_already_sent: false }
    }

    /// A direct send succeeded after `text_len` bytes: suppression starts at the
    /// earliest such point.
    pub fn direct_send_succeeded(&mut self, text_len: usize)
        ensures
            final(self).ranges@ == old(self).ranges@,
            final(self).open_at == Some(
                match old(self).open_at {
                    Some(s) => if s < text_len {
                        s
                    } else {
                        text_len
                    },
                    None => text_len,
                },
            ),
            final(self).final_reply_already_sent,
    {
        self.open_at = Some(
            match self.open_at {
                Some(existing) => if existing < text_len {
                    existing
                } else {
                    text_len
                },
                None => text_len,
            },
        );
        self.final_reply_already_sent = true;
    }

    /// A new model round starts: a direct send answers its continuation too, so
    /// the round is suppressed from its first byte.
    pub fn model_started(&mut self)
        ensures
            final(self).ranges@.len() == 0,
            final(self).open_at == if old(self).final_reply_already_sent {
                Some(0usize)
            } else {
                None
            },
            final(self).final_reply_already_sent == old(self).final_reply_already_sent,
    {
        self.ranges = Vec::new();
        self.open_at = if self.final_reply_already_sent {
            Some(0)
        } else {
            None
        };
    }

    /// A queued prompt was consumed: its answer is never suppressed.
    pub fn queued_prompt_consumed(&mut self)
        ensures
            final(self).ranges@.len() == 0,
            final(self).open_at is None,
            !final(self).final_reply_already_sent,
    {
        self.ranges = Vec::new();
        self.open_at = None;
        self.final_reply_already_sent = false;
    }

    pub fn finish(self, text_len: usize) -> (r: (Vec<(usize, usize)>, bool))
        ensures
            r.0@ == closed_ranges(self.ranges@, self.open_at, text_len),
            r.1 == self.final_reply_already_sent,
    {
        let mut s = self;
        s.close_range(text_len);
        (s.ranges, s.final_reply_already_sent)
    }

    pub fn close_range(&mut self, text_len: usize)
        ensures
            final(self).ranges@ == closed_ranges(old(self).ranges@, old(self).open_at, text_len),
            final(self).open_at is None,
            final(self).final_reply_already_sent == old(self).final_reply_already_sent,
    {
        if let Some(start) = self.open_at.take() {
            if start < text_len {
                self.ranges.push((start, text_len));
            }
        }
    }

    /// The ranges to cut when the current round's `text_len` bytes are sent
    /// mid-turn; the state is left as it is.
    pub fn round_ranges(&self, text_len: usize) -> (r: Vec<(usize, usize)>)
        ensures
            r@ == closed_ranges(self.ranges@, self.open_at, text_len),
    {
        let mut ranges = crate::text::copy_vec(&self.ranges);
        if let Some(start) = self.open_at {
            if start < text_len {
                ranges.push((start, text_len));
            }
        }
        ranges
    }
}

/// A new model round: its text starts empty and suppression restarts.
pub fn start_model_reply(text: &mut String, suppression: &mut ReplySuppression)
    ensures
        final(text)@.len() == 0,
        final(suppression).ranges@.len() == 0,
        final(suppression).open_at == if old(suppression).final_reply_already_sent {
            Some(0usize)
        } else {
            None
        },
        final(suppression).final_reply_already_sent == old(suppression).final_reply_already_sent,
{
    *text = String::new();
    suppression.model_started();
}

/// The text of a just-finished model round that goes out mid-turn: the
/// round's text without what a direct send already delivered, trimmed;
/// `None` when nothing is left.
pub open spec fn intermediate_text_spec(text: Seq<char>, ranges: Seq<(usize, usize)>) -> Option<Seq<char>> {
    let visible = trim(vstd::utf8::decode_utf8(cut_bytes(vstd::utf8::encode_utf8(text), ranges)));
    if visible.len() == 0 {
        None
    } else {
        Some(visible)
    }
}

pub fn intermediate_reply_text(text: &str, suppression: &ReplySuppression) -> (r: Option<String>)
    ensures
        match r {
            Some(t) => intermediate_text_spec(
                text@,
                closed_ranges(suppression.ranges@, suppression.open_at, vstd::utf8::encode_utf8(text@).len() as usize),
            ) == Some(t@),
            None => intermediate_text_spec(
                text@,
                closed_ranges(suppression.ranges@, suppression.open_at, vstd::utf8::encode_utf8(text@).len() as usize),
            ) is None,
        },
{
    let ranges = suppression.round_ranges(text.len());
    let cut = cut_suppressed_ranges(text, &ranges);
    let v = chars_of(cut.as_str());
    let (lo, hi) = trim_bounds(&v, 0, v.len());
    assert(v@.subrange(0, v@.len() as int) =~= v@);
    if lo == hi {
        None
    } else {
        let mut out: Vec<char> = Vec::new();
        push_range(&mut out, &v, lo, hi);
        Some(string_of(&out))
    }
}

/// The text of a message's plain segments, concatenated; `None` when it
/// carries an image or a file. Mentions add nothing.
pub open spec fn plain_text_of(segs: Seq<OutboundSegment>) -> Option<Seq<char>>
    decreases segs.len(),
{
    if segs.len() == 0 {
        Some(Seq::empty())
    } else {
        match plain_text_of(segs.drop_last()) {
            None => None,
            Some(t) => match segs.last() {
                OutboundSegment::Markdown(p) => Some(t + p@),
                OutboundSegment::Text(p) => Some(t + p@),
                OutboundSegment::Mention(_) => Some(t),
                _ => None,
            },
        }
    }
}

/// Scans `s` from `i` at parenthesis depth `depth`: every character lies
/// inside full-width parentheses, which nest and close exactly at the end.
pub open spec fn parenthesized_from(s: Seq<char>, i: int, depth: nat) -> bool
    decreases s.len() - i,
{
    if i >= s.len() {
        depth == 0
    } else if s[i] == '（' {
        parenthesized_from(s, i + 1, depth + 1)
    } else if s[i] == '）' {
        if depth == 0 {
            false
        } else if depth == 1 && i + 1 < s.len() {
            false
        } else {
            parenthesized_from(s, i + 1, (depth - 1) as nat)
        }
    } else if depth == 0 {
        false
    } else {
        parenthesized_from(s, i + 1, depth)
    }
}

/// Whether plain segments read as nothing but a parenthetical aside.
pub open spec fn parenthetical_text(segs: Seq<OutboundSegment>) -> bool {
    match plain_text_of(segs) {
        None => false,
        Some(t) => {
            let t = trim(t);
            t.len() > 0 && t[0] == '（' && t.last() == '）' && parenthesized_from(t, 0, 0)
        },
    }
}

/// Whether a message is nothing but a full-width parenthetical aside,
/// such as `（小声）`: plain text only, non-blank, opening with `（`,
/// closing with `）`, and wholly inside one outer pair.
pub open spec fn parenthetical_only_spec(message: OutboundMessage) -> bool {
    match message.body {
        OutboundBody::Forward(_) => false,
        OutboundBody::Segments(segs) => parenthetical_text(segs@),
    }
}

pub fn message_is_parenthetical_only(message: &OutboundMessage) -> (r: bool)
    ensures
        r == parenthetical_only_spec(*message),
{
    let segments = match &message.body {
        OutboundBody::Forward(_) => {
            return false;
        },
        OutboundBody::Segments(s) => s,
    };
    let mut text: Vec<char> = Vec::new();
    let n = segments.len();
    let mut i: usize = 0;
    assert(segments@.take(0) =~= Seq::<OutboundSegment>::empty());
    while i < n
        invariant
            n == segments@.len(),
            i <= n,
            parenthetical_only_spec(*message) == parenthetical_text(segments@),
            plain_text_of(segments@.take(i as int)) == Some(text@),
        decreases n - i,
    {
        proof {
            let t = segments@.take(i as int + 1);
            assert(t.drop_last() =~= segments@.take(i as int));
            assert(t.last() == segments@[i as int]);
        }
        match &segments[i] {
            OutboundSegment::Markdown(p) => push_str(&mut text, p.as_str()),
            OutboundSegment::Text(p) => push_str(&mut text, p.as_str()),
            OutboundSegment::Mention(_) => {},
            _ => {
                proof {
                    lemma_plain_text_stays_none(segments@, i as int + 1);
                }
                return false;
            },
        }
        i = i + 1;
    }
    assert(segments@.take(n as int) =~= segments@);
    let (lo, hi) = trim_bounds(&text, 0, text.len());
    assert(text@.subrange(0, text@.len() as int) =~= text@);
    let ghost t = text@.subrange(lo as int, hi as int);
    if lo == hi || text[lo] != '（' || text[hi - 1] != '）' {
        return false;
    }
    let mut depth: usize = 0;
    let mut k: usize = lo;
    assert(parenthetical_only_spec(*message) == parenthesized_from(t, 0, 0));
    while k < hi
        invariant
            lo < hi <= text@.len(),
            parenthetical_only_spec(*message) == parenthesized_from(t, 0, 0),
            t == text@.subrange(lo as int, hi as int),
            lo <= k <= hi,
            depth <= k - lo,
            parenthesized_from(t, (k - lo) as int, depth as nat) == parenthesized_from(t, 0, 0),
        decreases hi - k,
    {
        let c = text[k];
        assert(t[k - lo] == c);
        if c == '（' {
            depth = depth + 1;
        } else if c == '）' {
            if depth == 0 {
                return false;
            }
            depth = depth - 1;
            if depth == 0 && k + 1 < hi {
                return false;
            }
        } else if depth == 0 {
            return false;
        }
        k = k + 1;
    }
    depth == 0
}

proof fn lemma_plain_text_stays_none(segs: Seq<OutboundSegment>, i: int)
    requires
        0 <= i <= segs.len(),
        plain_text_of(segs.take(i)) is None,
    ensures
        plain_text_of(segs) is None,
    decreases segs.len() - i,
{
    if i < segs.len() {
        let t = segs.take(i + 1);
        assert(t.drop_last() =~= segs.take(i));
        lemma_plain_text_stays_none(segs, i + 1);
    } else {
        assert(segs.take(i) =~= segs);
    }
}

/// The history parts of segments: non-blank text as it is, mentions as
/// `@id`; images and files leave none.
pub open spec fn history_parts(segs: Seq<OutboundSegment>) -> Seq<Seq<char>>
    decreases segs.len(),
{
    if segs.len() == 0 {
        Seq::empty()
    } else {
        let rest = history_parts(segs.drop_last());
        match segs.last() {
            OutboundSegment::Markdown(t) => if all_ws(t@) {
                rest
            } else {
                rest.push(t@)
            },
            OutboundSegment::Text(t) => if all_ws(t@) {
                rest
            } else {
                rest.push(t@)
            },
            OutboundSegment::Mention(u) => rest.push(seq!['@'] + u@),
            _ => rest,
        }
    }
}

pub open spec fn node_parts(nodes: Seq<OutboundForwardNode>) -> Seq<Seq<char>>
    decreases nodes.len(),
{
    if nodes.len() == 0 {
        Seq::empty()
    } else {
        node_parts(nodes.drop_last()) + history_parts(nodes.last().segments@)
    }
}

/// Parts joined with `\n`.
pub open spec fn join_parts(parts: Seq<Seq<char>>) -> Seq<char>
    decreases parts.len(),
{
    if parts.len() == 0 {
        Seq::empty()
    } else if parts.len() == 1 {
        parts[0]
    } else {
        join_parts(parts.drop_last()) + seq!['\n'] + parts.last()
    }
}

/// What an outbound message leaves in the chat history: its parts (of
/// every node, for a forward message) joined by lines, trimmed.
pub open spec fn history_text_spec(message: OutboundMessage) -> Seq<char> {
    match message.body {
        OutboundBody::Segments(segs) => trim(join_parts(history_parts(segs@))),
        OutboundBody::Forward(nodes) => trim(join_parts(node_parts(nodes@))),
    }
}

fn push_part(joined: &mut Vec<char>, started: &mut bool, part: &Vec<char>, parts: Ghost<Seq<Seq<char>>>)
    requires
        old(joined)@ == join_parts(parts@),
        *old(started) == (parts@.len() > 0),
    ensures
        final(joined)@ == join_parts(parts@.push(part@)),
        *final(started),
{
    let ghost p2 = parts@.push(part@);
    assert(p2.drop_last() =~= parts@);
    if *started {
        joined.push('\n');
    }
    push_all(joined, part);
    *started = true;
    proof {
        if parts@.len() == 0 {
            assert(joined@ =~= p2[0]);
        }
    }
}

fn segments_history(
    segs: &Vec<OutboundSegment>,
    joined: &mut Vec<char>,
    started: &mut bool,
    before: Ghost<Seq<Seq<char>>>,
)
    requires
        old(joined)@ == join_parts(before@),
        *old(started) == (before@.len() > 0),
    ensures
        final(joined)@ == join_parts(before@ + history_parts(segs@)),
        *final(started) == (before@.len() + history_parts(segs@).len() > 0),
{
    let n = segs.len();
    let mut i: usize = 0;
    assert(segs@.take(0) =~= Seq::<OutboundSegment>::empty());
    assert(before@ + history_parts(segs@.take(0)) =~= before@);
    while i < n
        invariant
            n == segs@.len(),
            i <= n,
            joined@ == join_parts(before@ + history_parts(segs@.take(i as int))),
            *started == (before@.len() + history_parts(segs@.take(i as int)).len() > 0),
        decreases n - i,
    {
        let ghost done = before@ + history_parts(segs@.take(i as int));
        proof {
            let t = segs@.take(i as int + 1);
            assert(t.drop_last() =~= segs@.take(i as int));
            assert(t.last() == segs@[i as int]);
        }
        match &segs[i] {
            OutboundSegment::Markdown(t) | OutboundSegment::Text(t) => {
                let v = chars_of(t.as_str());
                if crate::text::any_non_ws(&v, 0, v.len()) {
                    assert(v@.subrange(0, v@.len() as int) =~= v@);
                    push_part(joined, started, &v, Ghost(done));
                    assert(done.push(t@) =~= before@ + history_parts(segs@.take(i as int + 1)));
                } else {
                    assert(v@.subrange(0, v@.len() as int) =~= v@);
                }
            },
            OutboundSegment::Mention(u) => {
                let mut v: Vec<char> = Vec::new();
                v.push('@');
                push_str(&mut v, u.as_str());
                push_part(joined, started, &v, Ghost(done));
                assert(done.push(seq!['@'] + u@) =~= before@ + history_parts(segs@.take(i as int + 1)));
            },
            _ => {},
        }
        i = i + 1;
    }
    assert(segs@.take(n as int) =~= segs@);
}

/// The chat-history text of an outbound message.
pub fn outbound_text_for_history(message: &OutboundMessage) -> (r: String)
    ensures
        r@ == history_text_spec(*message),
{
    let mut joined: Vec<char> = Vec::new();
    let mut started = false;
    match &message.body {
        OutboundBody::Segments(segs) => {
            assert(joined@ =~= join_parts(Seq::<Seq<char>>::empty()));
            segments_history(segs, &mut joined, &mut started, Ghost(Seq::empty()));
            assert(Seq::<Seq<char>>::empty() + history_parts(segs@) =~= history_parts(segs@));
        },
        OutboundBody::Forward(nodes) => {
            let n = nodes.len();
            let mut i: usize = 0;
            assert(nodes@.take(0) =~= Seq::<OutboundForwardNode>::empty());
            assert(joined@ =~= join_parts(node_parts(nodes@.take(0))));
            while i < n
                invariant
                    n == nodes@.len(),
                    i <= n,
                    joined@ == join_parts(node_parts(nodes@.take(i as int))),
                    started == (node_parts(nodes@.take(i as int)).len() > 0),
                decreases n - i,
            {
                proof {
                    let t = nodes@.take(i as int + 1);
                    assert(t.drop_last() =~= nodes@.take(i as int));
                    assert(t.last() == nodes@[i as int]);
                }
                let ghost done = node_parts(nodes@.take(i as int));
                segments_history(&nodes[i].segments, &mut joined, &mut started, Ghost(done));
                i = i + 1;
            }
            assert(nodes@.take(n as int) =~= nodes@);
        },
    }
    let (lo, hi) = trim_bounds(&joined, 0, joined.len());
    assert(joined@.subrange(0, joined@.len() as int) =~= joined@);
    let mut out: Vec<char> = Vec::new();
    push_range(&mut out, &joined, lo, hi);
    string_of(&out)
}

} // verus!
