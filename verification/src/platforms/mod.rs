//! Messaging-platform bridges: the platform-neutral core (command parsing,
//! rate limiting, reply shaping) and the OneBot (QQ) protocol logic.

pub mod commands;
pub mod connection;
pub mod files;
pub mod inbound;
pub mod markdown;
pub mod onebot;
pub mod outbound;
pub mod plugins;
pub mod rate;
pub mod reply;
pub mod split;
pub mod suppression;
pub mod tool;
pub mod turn;

use vstd::prelude::*;
use crate::text::{push_all, push_str, string_of, chars_of};
use self::suppression::{cut_bytes, cut_suppressed_ranges};

pub use self::markdown::{markdown_to_plain, strip_inline_markup};
pub use self::rate::{RateDecision, RateWindow};
pub use self::split::split_reply;

verus! {

/// Private chat or group chat.
#[derive(Clone, Copy, Debug, PartialEq, Eq, Structural)]
pub enum ConversationKind {
    Private,
    Group,
}

pub open spec fn kind_str(kind: ConversationKind) -> Seq<char> {
    match kind {
        ConversationKind::Private => "private"@,
        ConversationKind::Group => "group"@,
    }
}

impl ConversationKind {
    pub fn as_str(self) -> (r: &'static str)
        ensures
            r@ == kind_str(self),
    {
        match self {
            ConversationKind::Private => "private",
            ConversationKind::Group => "group",
        }
    }
}

/// Stable identity of a transport conversation. The bot account is part of
/// the key so two accounts never share history or routing rules.
pub struct PlatformConversation {
    pub platform: String,
    pub account_id: String,
    pub kind: ConversationKind,
    pub conversation_id: String,
}

impl PlatformConversation {
    /// `platform:account:kind:conversation`.
    pub fn scope_key(&self) -> (r: String)
        ensures
            r@ == self.platform@ + seq![':'] + self.account_id@ + seq![':'] + kind_str(self.kind)
                + seq![':'] + self.conversation_id@,
    {
        let mut v = chars_of(self.platform.as_str());
        v.push(':');
        push_str(&mut v, self.account_id.as_str());
        v.push(':');
        push_str(&mut v, self.kind.as_str());
        v.push(':');
        push_str(&mut v, self.conversation_id.as_str());
        string_of(&v)
    }
}

/// The result of a completed platform turn.
pub struct TurnOutcome {
    pub text: String,
    /// Image asset ids published during the turn.
    pub image_assets: Vec<String>,
    /// Byte ranges of `text` produced after confirmed direct tool sends.
    pub suppressed_reply_ranges: Vec<(usize, usize)>,
    /// The last response segment was delivered by a successful direct tool
    /// send, so an otherwise empty reply must not add a placeholder.
    pub final_reply_already_sent: bool,
}

/// Tracks which parts of a streamed reply a direct tool send already delivered.
pub struct ReplySuppression {
    pub ranges: Vec<(usize, usize)>,
    pub open_at: Option<usize>,
    pub final_reply_already_sent: bool,
}

/// Every range is non-empty.
pub open spec fn ranges_nonempty(ranges: Seq<(usize, usize)>) -> bool {
    forall|i: int| 0 <= i < ranges.len() ==> #[trigger] ranges[i].0 < ranges[i].1
}

/// The ranges after closing the open range at `text_len`.
pub open spec fn closed_ranges(ranges: Seq<(usize, usize)>, open_at: Option<usize>, text_len: usize) -> Seq<
    (usize, usize),
> {
    match open_at {
        Some(start) => if start < text_len {
            ranges.push((start, text_len))
        } else {
            ranges
        },
        None => ranges,
    }
}

impl ReplySuppression {
    pub fn new() -> (r: Self)
        ensures
            r.ranges@.len() == 0,
            r.open_at is None,
            !r.final_reply_already_sent,
    {
        ReplySuppression { ranges: Vec::new(), open_at: None, final_reply_already_sent: false }
    }

    /// A direct send succeeded after `text_len` bytes of reply text: text from
    /// there on repeats what was sent.
    pub fn direct_send_succeeded(&mut self, text_len: usize)
        ensures
            final(self).ranges@ == old(self).ranges@,
            final(self).open_at == Some(
                match old(self).open_at {
                    Some(s) => s,
                    None => text_len,
                },
            ),
            final(self).final_reply_already_sent,
    {
        if self.open_at.is_none() {
            self.open_at = Some(text_len);
        }
        self.final_reply_already_sent = true;
    }

    /// A queued prompt was consumed at `text_len`: the open range ends there,
    /// and the direct send no longer answers the final reply.
    pub fn queued_prompt_consumed(&mut self, text_len: usize)
        ensures
            final(self).ranges@ == closed_ranges(old(self).ranges@, old(self).open_at, text_len),
            final(self).open_at is None,
            !final(self).final_reply_already_sent,
    {
        self.close_range(text_len);
        self.final_reply_already_sent = false;
    }

    /// The ranges to cut from a reply of `text_len` bytes, and whether the
    /// reply was already delivered.
    pub fn finish(self, text_len: usize) -> (r: (Vec<(usize, usize)>, bool))
        ensures
            r.0@ == closed_ranges(self.ranges@, self.open_at, text_len),
            r.1 == self.final_reply_already_sent,
            ranges_nonempty(self.ranges@) ==> ranges_nonempty(r.0@),
    {
        let mut s = self;
        s.close_range(text_len);
        (s.ranges, s.final_reply_already_sent)
    }

    /// Ends the open range at `text_len`; an empty range is dropped.
    pub fn close_range(&mut self, text_len: usize)
        ensures
            final(self).ranges@ == closed_ranges(old(self).ranges@, old(self).open_at, text_len),
            final(self).open_at is None,
            final(self).final_reply_already_sent == old(self).final_reply_already_sent,
    {
        if let Some(start) = self.open_at.take() {
            if start < text_len {
                self.ranges.push((start, text_len));
            }
        }
    }
}

/// The reply text of a turn: its text with the suppressed byte ranges cut
/// out.
pub open spec fn final_reply_spec(text: Seq<char>, ranges: Seq<(usize, usize)>) -> Seq<char> {
    if ranges.len() == 0 {
        text
    } else {
        vstd::utf8::decode_utf8(cut_bytes(vstd::utf8::encode_utf8(text), ranges))
    }
}

/// The reply text with the suppressed ranges cut out.
pub fn final_reply_text(outcome: &TurnOutcome) -> (r: String)
    ensures
        r@ == final_reply_spec(outcome.text@, outcome.suppressed_reply_ranges@),
{
    if outcome.suppressed_reply_ranges.len() == 0 {
        return outcome.text.clone();
    }
    cut_suppressed_ranges(outcome.text.as_str(), &outcome.suppressed_reply_ranges)
}

pub open spec fn sniff_spec(b: Seq<u8>) -> Seq<char> {
    if b.len() >= 4 && b[0] == 0x89u8 && b[1] == 0x50u8 && b[2] == 0x4eu8 && b[3] == 0x47u8 {
        "image/png"@
    } else if b.len() >= 3 && b[0] == 0xffu8 && b[1] == 0xd8u8 && b[2] == 0xffu8 {
        "image/jpeg"@
    } else if b.len() >= 4 && b[0] == 0x47u8 && b[1] == 0x49u8 && b[2] == 0x46u8 && b[3] == 0x38u8 {
        "image/gif"@
    } else if b.len() > 11 && b[0] == 0x52u8 && b[1] == 0x49u8 && b[2] == 0x46u8 && b[3] == 0x46u8
        && b[8] == 0x57u8 && b[9] == 0x45u8 && b[10] == 0x42u8 && b[11] == 0x50u8 {
        "image/webp"@
    } else {
        "image/png"@
    }
}

/// The mime type of image bytes by their magic number; PNG when unknown.
pub fn sniff_image_mime(bytes: &[u8]) -> (r: &'static str)
    ensures
        r@ == sniff_spec(bytes@),
{
    let n = bytes.len();
    if n >= 4 && bytes[0] == 0x89u8 && bytes[1] == 0x50u8 && bytes[2] == 0x4eu8 && bytes[3] == 0x47u8 {
        "image/png"
    } else if n >= 3 && bytes[0] == 0xffu8 && bytes[1] == 0xd8u8 && bytes[2] == 0xffu8 {
        "image/jpeg"
    } else if n >= 4 && bytes[0] == 0x47u8 && bytes[1] == 0x49u8 && bytes[2] == 0x46u8 && bytes[3]
        == 0x38u8 {
        "image/gif"
    } else if n > 11 && bytes[0] == 0x52u8 && bytes[1] == 0x49u8 && bytes[2] == 0x46u8 && bytes[3]
        == 0x46u8 && bytes[8] == 0x57u8 && bytes[9] == 0x45u8 && bytes[10] == 0x42u8 && bytes[11]
        == 0x50u8 {
        "image/webp"
    } else {
        "image/png"
    }
}

} // verus!
