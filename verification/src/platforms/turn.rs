//! One platform turn as the bridge sees it: the events of the run folded
//! into a reply, the attachments of prompts queued behind a running turn,
//! size caps on downloads, and who may use host tools.

use vstd::prelude::*;
use crate::codec::{base64_standard_encode, encode_base64};
use crate::i18n::{text, tr, Language};
use crate::platforms::{closed_ranges, ConversationKind, ReplySuppression, TurnOutcome};
use crate::lookup::{first_index, lemma_first_index};
use crate::text::{
    chars_of, decimal, parse_i64, parse_i64_spec, push_all, push_str, str_eq, string_of,
    u64_decimal,
};

verus! {

/// How a platform turn ended.
pub enum TurnDispatch {
    Completed(TurnOutcome),
    /// The session already had a running turn; the message was queued as a
    /// follow-up and its answer arrives with that run.
    Queued,
    Failed(String),
}

/// An event of the core's event stream, as it concerns one run.
pub enum TurnEvent {
    /// The event buffer overflowed; the run cannot be followed any further.
    ResyncRequired,
    /// An event of another run, or one that could not be read.
    Unrelated,
    AssistantDelta { delta: Option<String> },
    ToolImage { asset_id: Option<String> },
    /// A tool finished; `direct_send` when it was a confirmed successful
    /// `send_message_to_user` that asked to suppress the final reply.
    ToolFinished { direct_send: bool },
    QueueConsumed,
    RunCompleted,
    RunFailed { message: Option<String> },
    RunCancelled,
    /// Any other event kind of this run.
    Other,
    /// No event before the turn's deadline.
    TimedOut,
    /// The core stopped.
    Closed,
}

/// The reply of a run as its events arrive.
pub struct TurnCollector {
    text: String,
    image_assets: Vec<String>,
    suppression: ReplySuppression,
}

/// Byte length of text (`str::len`).
pub open spec fn byte_len(s: Seq<char>) -> usize {
    vstd::utf8::encode_utf8(s).len() as usize
}

pub open spec fn string_views(v: Seq<String>) -> Seq<Seq<char>> {
    v.map_values(|s: String| s@)
}

pub open spec fn failure_text(lang: Language, event: TurnEvent) -> Seq<char> {
    match event {
        TurnEvent::TimedOut => tr(lang, "the reply timed out"@, "回复超时，本轮已取消"@),
        TurnEvent::Closed => tr(lang, "Miyu core stopped"@, "Miyu 核心已停止"@),
        TurnEvent::ResyncRequired => tr(
            lang,
            "event history was exhausted; the turn was cancelled"@,
            "事件缓冲耗尽，本轮已取消"@,
        ),
        TurnEvent::RunCancelled => tr(lang, "the turn was cancelled"@, "本轮被取消了"@),
        TurnEvent::RunFailed { message } => match message {
            Some(m) => m@,
            None => "unknown error"@,
        },
        _ => Seq::empty(),
    }
}

/// Whether an event ends the turn.
pub open spec fn ends_turn(event: TurnEvent) -> bool {
    match event {
        TurnEvent::TimedOut | TurnEvent::Closed | TurnEvent::ResyncRequired | TurnEvent::RunCompleted
        | TurnEvent::RunFailed { .. } | TurnEvent::RunCancelled => true,
        _ => false,
    }
}

impl TurnCollector {
    pub closed spec fn text_view(&self) -> Seq<char> {
        self.text@
    }

    pub closed spec fn images_view(&self) -> Seq<Seq<char>> {
        string_views(self.image_assets@)
    }

    pub closed spec fn ranges_view(&self) -> Seq<(usize, usize)> {
        self.suppression.ranges@
    }

    pub closed spec fn open_view(&self) -> Option<usize> {
        self.suppression.open_at
    }

    pub closed spec fn sent_view(&self) -> bool {
        self.suppression.final_reply_already_sent
    }

    pub fn new() -> (r: Self)
        ensures
            r.text_view() == Seq::<char>::empty(),
            r.images_view() == Seq::<Seq<char>>::empty(),
            r.ranges_view() == Seq::<(usize, usize)>::empty(),
            r.open_view() is None,
            !r.sent_view(),
    {
        let r = TurnCollector { text: String::new(), image_assets: Vec::new(), suppression: ReplySuppression::new() };
        assert(r.images_view() =~= Seq::<Seq<char>>::empty());
        assert(r.ranges_view() =~= Seq::<(usize, usize)>::empty());
        r
    }

    /// Folds one event in. Returns how the turn ended when the event ends
    /// it: the collected reply on completion, or the failure shown to the
    /// user.
    pub fn step(&mut self, event: TurnEvent, lang: Language) -> (r: Option<TurnDispatch>)
        ensures
            r is Some <==> ends_turn(event),
            match event {
                TurnEvent::AssistantDelta { delta } => final(self).text_view() == old(self).text_view()
                    + match delta {
                    Some(d) => d@,
                    None => Seq::empty(),
                } && final(self).images_view() == old(self).images_view() && final(self).ranges_view()
                    == old(self).ranges_view() && final(self).open_view() == old(self).open_view()
                    && final(self).sent_view() == old(self).sent_view(),
                TurnEvent::ToolImage { asset_id } => final(self).text_view() == old(self).text_view()
                    && final(self).images_view() == match asset_id {
                    Some(a) => old(self).images_view().push(a@),
                    None => old(self).images_view(),
                } && final(self).ranges_view() == old(self).ranges_view() && final(self).open_view()
                    == old(self).open_view() && final(self).sent_view() == old(self).sent_view(),
                TurnEvent::ToolFinished { direct_send } => final(self).text_view() == old(self).text_view()
                    && final(self).images_view() == old(self).images_view() && final(self).ranges_view()
                    == old(self).ranges_view() && if direct_send {
                    final(self).open_view() == Some(
                        match old(self).open_view() {
                            Some(s) => s,
                            None => byte_len(old(self).text_view()),
                        },
                    ) && final(self).sent_view()
                } else {
                    final(self).open_view() == old(self).open_view() && final(self).sent_view()
                        == old(self).sent_view()
                },
                TurnEvent::QueueConsumed => final(self).text_view() == old(self).text_view()
                    && final(self).images_view() == old(self).images_view() && final(self).ranges_view()
                    == closed_ranges(
                    old(self).ranges_view(),
                    old(self).open_view(),
                    byte_len(old(self).text_view()),
                ) && final(self).open_view() is None && !final(self).sent_view(),
                TurnEvent::RunCompleted => r matches Some(TurnDispatch::Completed(o)) && o.text@
                    == old(self).text_view() && string_views(o.image_assets@) == old(self).images_view()
                    && o.suppressed_reply_ranges@ == closed_ranges(
                    old(self).ranges_view(),
                    old(self).open_view(),
                    byte_len(old(self).text_view()),
                ) && o.final_reply_already_sent == old(self).sent_view(),
                TurnEvent::RunFailed { .. } | TurnEvent::RunCancelled | TurnEvent::TimedOut
                | TurnEvent::Closed | TurnEvent::ResyncRequired => r matches Some(TurnDispatch::Failed(m))
                    && m@ == failure_text(lang, event),
                _ => final(self).text_view() == old(self).text_view() && final(self).images_view()
                    == old(self).images_view() && final(self).ranges_view() == old(self).ranges_view()
                    && final(self).open_view() == old(self).open_view() && final(self).sent_view()
                    == old(self).sent_view(),
            },
    {
        match event {
            TurnEvent::AssistantDelta { delta } => {
                if let Some(d) = delta {
                    append_str(&mut self.text, d.as_str());
                } else {
                    assert(self.text@ + Seq::<char>::empty() =~= self.text@);
                }
                None
            },
            TurnEvent::ToolImage { asset_id } => {
                if let Some(a) = asset_id {
                    let ghost before = self.image_assets@;
                    self.image_assets.push(a);
                    assert(string_views(self.image_assets@) =~= string_views(before).push(a@));
                }
                None
            },
            TurnEvent::ToolFinished { direct_send } => {
                if direct_send {
                    let n = self.text.as_str().len();
                    self.suppression.direct_send_succeeded(n);
                }
                None
            },
            TurnEvent::QueueConsumed => {
                let n = self.text.as_str().len();
                self.suppression.queued_prompt_consumed(n);
                None
            },
            TurnEvent::RunCompleted => {
                let n = self.text.as_str().len();
                let mut text = String::new();
                std::mem::swap(&mut text, &mut self.text);
                let mut images: Vec<String> = Vec::new();
                std::mem::swap(&mut images, &mut self.image_assets);
                let mut suppression = ReplySuppression::new();
                std::mem::swap(&mut suppression, &mut self.suppression);
                let (ranges, sent) = suppression.finish(n);
                Some(
                    TurnDispatch::Completed(
                        TurnOutcome {
                            text,
                            image_assets: images,
                            suppressed_reply_ranges: ranges,
                            final_reply_already_sent: sent,
                        },
                    ),
                )
            },
            TurnEvent::RunFailed { message } => {
                let m = match message {
                    Some(m) => m,
                    None => owned("unknown error"),
                };
                Some(TurnDispatch::Failed(m))
            },
            TurnEvent::RunCancelled => Some(
                TurnDispatch::Failed(owned(text(lang, "the turn was cancelled", "本轮被取消了"))),
            ),
            TurnEvent::TimedOut => Some(
                TurnDispatch::Failed(owned(text(lang, "the reply timed out", "回复超时，本轮已取消"))),
            ),
            TurnEvent::Closed => Some(
                TurnDispatch::Failed(owned(text(lang, "Miyu core stopped", "Miyu 核心已停止"))),
            ),
            TurnEvent::ResyncRequired => Some(
                TurnDispatch::Failed(
                    owned(
                        text(
                            lang,
                            "event history was exhausted; the turn was cancelled",
                            "事件缓冲耗尽，本轮已取消",
                        ),
                    ),
                ),
            ),
            TurnEvent::Unrelated | TurnEvent::Other => None,
        }
    }
}

fn owned(s: &str) -> (r: String)
    ensures
        r@ == s@,
{
    string_of(&chars_of(s))
}

/// `String::push_str`, one character at a time.
fn append_str(s: &mut String, t: &str)
    ensures
        final(s)@ == old(s)@ + t@,
{
    let v = chars_of(t);
    let mut out = chars_of(s.as_str());
    push_all(&mut out, &v);
    *s = string_of(&out);
}

/// An image of an inbound prompt, as the core takes it.
pub enum ImageAttachment {
    Binary { mime: String, data: Vec<u8> },
    Path { path: String },
}

/// An image of a prompt queued behind a running turn, as it is stored.
#[derive(Debug, PartialEq, Eq)]
pub enum QueuedPromptAttachment {
    Binary { mime: String, data_base64: String },
    Path { path: String },
}

/// A stored attachment as (is binary, MIME type or path, base64 data).
pub open spec fn queued_view(q: QueuedPromptAttachment) -> (bool, Seq<char>, Seq<char>) {
    match q {
        QueuedPromptAttachment::Binary { mime, data_base64 } => (true, mime@, data_base64@),
        QueuedPromptAttachment::Path { path } => (false, path@, Seq::empty()),
    }
}

/// The stored form of a prompt's images: binary images keep their MIME
/// type with their bytes in base64, paths stay paths, and images that
/// could not be read are left out; the order is kept.
pub open spec fn queued_attachments_spec(images: Seq<Option<ImageAttachment>>) -> Seq<
    (bool, Seq<char>, Seq<char>),
>
    decreases images.len(),
{
    if images.len() == 0 {
        Seq::empty()
    } else {
        let rest = queued_attachments_spec(images.drop_last());
        match images.last() {
            Some(ImageAttachment::Binary { mime, data }) => rest.push(
                (true, mime@, base64_standard_encode(data@)),
            ),
            Some(ImageAttachment::Path { path }) => rest.push((false, path@, Seq::empty())),
            None => rest,
        }
    }
}

/// The attachments a queued prompt keeps of its images.
pub fn queued_prompt_attachments(images: &Vec<Option<ImageAttachment>>) -> (r: Vec<
    QueuedPromptAttachment,
>)
    ensures
        r@.map_values(|q: QueuedPromptAttachment| queued_view(q)) == queued_attachments_spec(
            images@,
        ),
{
    let mut out: Vec<QueuedPromptAttachment> = Vec::new();
    let n = images.len();
    let mut i: usize = 0;
    while i < n
        invariant
            n == images@.len(),
            i <= n,
            out@.map_values(|q: QueuedPromptAttachment| queued_view(q)) == queued_attachments_spec(
                images@.take(i as int),
            ),
        decreases n - i,
    {
        let ghost before = out@.map_values(|q: QueuedPromptAttachment| queued_view(q));
        proof {
            let t = images@.take(i as int + 1);
            assert(t.drop_last() =~= images@.take(i as int));
            assert(t.last() == images@[i as int]);
        }
        match &images[i] {
            Some(ImageAttachment::Binary { mime, data }) => {
                let encoded = encode_base64(data);
                out.push(QueuedPromptAttachment::Binary { mime: owned(mime.as_str()), data_base64: encoded });
                assert(out@.map_values(|q: QueuedPromptAttachment| queued_view(q)) =~= before.push(
                    (true, mime@, base64_standard_encode(data@)),
                ));
            },
            Some(ImageAttachment::Path { path }) => {
                out.push(QueuedPromptAttachment::Path { path: owned(path.as_str()) });
                assert(out@.map_values(|q: QueuedPromptAttachment| queued_view(q)) =~= before.push(
                    (false, path@, Seq::empty()),
                ));
            },
            None => {},
        }
        i = i + 1;
    }
    assert(images@.take(n as int) =~= images@);
    out
}

/// Who may use the host's tools in a platform turn: admins always; other
/// senders only in a private chat, when non-admin host tools are switched
/// on and their numeric id is on the private-chat whitelist.
pub open spec fn host_tools_allowed_spec(
    is_admin: bool,
    kind: ConversationKind,
    allow_non_admin_host_tools: bool,
    sender_id: Seq<char>,
    whitelist: Seq<i64>,
) -> bool {
    is_admin || (kind == ConversationKind::Private && allow_non_admin_host_tools && match parse_i64_spec(
        sender_id,
    ) {
        Some(id) => whitelist.contains(id),
        None => false,
    })
}

pub fn host_tools_allowed(
    is_admin: bool,
    kind: ConversationKind,
    allow_non_admin_host_tools: bool,
    sender_id: &str,
    whitelist: &Vec<i64>,
) -> (r: bool)
    ensures
        r == host_tools_allowed_spec(is_admin, kind, allow_non_admin_host_tools, sender_id@, whitelist@),
{
    if is_admin {
        return true;
    }
    if !(kind == ConversationKind::Private && allow_non_admin_host_tools) {
        return false;
    }
    match parse_i64(sender_id) {
        None => false,
        Some(id) => {
            let n = whitelist.len();
            let mut i: usize = 0;
            while i < n
                invariant
                    n == whitelist@.len(),
                    i <= n,
                    !is_admin,
                    kind == ConversationKind::Private,
                    allow_non_admin_host_tools,
                    parse_i64_spec(sender_id@) == Some(id),
                    forall|k: int| 0 <= k < i ==> whitelist@[k] != id,
                decreases n - i,
            {
                if whitelist[i] == id {
                    assert(whitelist@.contains(id)) by {
                        assert(whitelist@[i as int] == id);
                    }
                    return true;
                }
                i = i + 1;
            }
            false
        },
    }
}

/// Whether a platform plugin is on: its configured switch where the
/// settings name it and set one, else its default.
pub open spec fn plugin_enabled_spec(settings: Seq<(Seq<char>, Option<bool>)>, id: Seq<char>, default_enabled: bool) -> bool {
    let keys = Seq::new(settings.len(), |i: int| settings[i].0);
    let k = first_index(keys, id);
    if k < settings.len() {
        match settings[k].1 {
            Some(b) => b,
            None => default_enabled,
        }
    } else {
        default_enabled
    }
}

pub fn plugin_enabled(settings: &Vec<(String, Option<bool>)>, id: &str, default_enabled: bool) -> (r:
    bool)
    ensures
        r == plugin_enabled_spec(
            Seq::new(settings@.len(), |i: int| (settings@[i].0@, settings@[i].1)),
            id@,
            default_enabled,
        ),
{
    let ghost sv = Seq::new(settings@.len(), |i: int| (settings@[i].0@, settings@[i].1));
    let ghost keys = Seq::new(sv.len(), |i: int| sv[i].0);
    let n = settings.len();
    let mut i: usize = 0;
    while i < n
        invariant
            n == settings@.len(),
            sv == Seq::new(settings@.len(), |i: int| (settings@[i].0@, settings@[i].1)),
            keys == Seq::new(sv.len(), |i: int| sv[i].0),
            i <= n,
            forall|k: int| 0 <= k < i ==> keys[k] != id@,
        decreases n - i,
    {
        if str_eq(settings[i].0.as_str(), id) {
            proof {
                lemma_first_index(keys, id@, i as int);
            }
            return match settings[i].1 {
                Some(b) => b,
                None => default_enabled,
            };
        }
        i = i + 1;
    }
    proof {
        lemma_first_index(keys, id@, n as int);
    }
    default_enabled
}

/// Whether a download declares a length over the cap.
pub fn declared_too_large(content_length: Option<u64>, max_bytes: usize) -> (r: bool)
    ensures
        r == match content_length {
            Some(n) => n > max_bytes,
            None => false,
        },
{
    match content_length {
        Some(n) => n as u128 > max_bytes as u128,
        None => false,
    }
}

/// Whether a streamed chunk still fits under the cap.
pub fn chunk_fits(received: usize, chunk: usize, max_bytes: usize) -> (r: bool)
    ensures
        r == (received + chunk <= max_bytes),
{
    chunk <= max_bytes && received <= max_bytes - chunk
}

/// The refusal of a download over the cap, in whole megabytes.
pub open spec fn size_limit_message_spec(max_bytes: nat) -> Seq<char> {
    "the file is larger than the "@ + decimal(max_bytes / 1024 / 1024) + "MB limit"@
}

pub fn size_limit_message(max_bytes: usize) -> (r: String)
    ensures
        r@ == size_limit_message_spec(max_bytes as nat),
{
    let mut v: Vec<char> = Vec::new();
    push_str(&mut v, "the file is larger than the ");
    let d = u64_decimal((max_bytes / 1024 / 1024) as u64);
    push_all(&mut v, &d);
    push_str(&mut v, "MB limit");
    string_of(&v)
}

/// A session a conversation could be bound to.
pub struct SessionCandidate {
    pub session_id: String,
    pub name: String,
    pub kind: String,
    pub archived: bool,
}

/// Whether a session carries the conversation's current or pre-binding
/// name and is a user session.
pub open spec fn adoptable(c: SessionCandidate, name: Seq<char>, legacy_name: Option<Seq<char>>) -> bool {
    c.kind@ == "user"@ && (c.name@ == name || legacy_name == Some(c.name@))
}

/// The positions of the adoptable sessions, in order.
pub open spec fn adoptable_positions(
    sessions: Seq<SessionCandidate>,
    name: Seq<char>,
    legacy_name: Option<Seq<char>>,
) -> Seq<int>
    decreases sessions.len(),
{
    if sessions.len() == 0 {
        Seq::empty()
    } else {
        let rest = adoptable_positions(sessions.drop_last(), name, legacy_name);
        if adoptable(sessions.last(), name, legacy_name) {
            rest.push(sessions.len() - 1)
        } else {
            rest
        }
    }
}

/// Whether an unbound conversation adopts an existing session.
#[derive(PartialEq, Eq, Structural, Debug, Clone, Copy)]
pub enum Adoption {
    /// Exactly one session carries the name: adopt it.
    Adopt(usize),
    /// Several do: create a fresh session rather than guess.
    Ambiguous,
    /// None does: create a fresh session.
    NoCandidate,
}

/// A session is adopted by name only when the name identifies exactly
/// one user session.
pub fn legacy_adoption(sessions: &Vec<SessionCandidate>, name: &str, legacy_name: Option<&str>) -> (r:
    Adoption)
    ensures
        ({
            let p = adoptable_positions(sessions@, name@, match legacy_name {
                Some(l) => Some(l@),
                None => None,
            });
            &&& (p.len() == 1 <==> r matches Adoption::Adopt(_))
            &&& (r matches Adoption::Adopt(i) ==> i == p[0])
            &&& (p.len() > 1 <==> r == Adoption::Ambiguous)
            &&& (p.len() == 0 <==> r == Adoption::NoCandidate)
        }),
{
    let ghost legacy = match legacy_name {
        Some(l) => Some(l@),
        None => None,
    };
    let n = sessions.len();
    let mut count: usize = 0;
    let mut first: usize = 0;
    let mut i: usize = 0;
    while i < n
        invariant
            n == sessions@.len(),
            i <= n,
            legacy == match legacy_name {
                Some(l) => Some(l@),
                None => None::<Seq<char>>,
            },
            count == adoptable_positions(sessions@.take(i as int), name@, legacy).len(),
            count > 0 ==> first == adoptable_positions(sessions@.take(i as int), name@, legacy)[0],
            count <= i,
        decreases n - i,
    {
        proof {
            let t = sessions@.take(i as int + 1);
            assert(t.drop_last() =~= sessions@.take(i as int));
            assert(t.last() == sessions@[i as int]);
        }
        let c = &sessions[i];
        let user = str_eq(c.kind.as_str(), "user");
        let named = str_eq(c.name.as_str(), name) || match legacy_name {
            Some(l) => str_eq(c.name.as_str(), l),
            None => false,
        };
        if user && named {
            if count == 0 {
                first = i;
            }
            count = count + 1;
        }
        i = i + 1;
    }
    assert(sessions@.take(n as int) =~= sessions@);
    if count == 1 {
        Adoption::Adopt(first)
    } else if count > 1 {
        Adoption::Ambiguous
    } else {
        Adoption::NoCandidate
    }
}

/// What a claim of the conversation's binding for a chosen session came
/// to.
#[derive(PartialEq, Eq, Structural, Debug, Clone, Copy)]
pub enum ClaimOutcome {
    /// The binding is ours: use the chosen session.
    Ours,
    /// Another claim won: use the session it bound.
    Theirs,
    /// The claim failed.
    Failed,
}

/// Reads a claim's result: the session the binding ended up with, or
/// `None` when the claim failed.
pub fn claim_outcome(claimed: Option<&str>, chosen_session_id: &str) -> (r: ClaimOutcome)
    ensures
        r == match claimed {
            Some(s) => if s@ == chosen_session_id@ {
                ClaimOutcome::Ours
            } else {
                ClaimOutcome::Theirs
            },
            None => ClaimOutcome::Failed,
        },
{
    match claimed {
        Some(s) => if str_eq(s, chosen_session_id) {
            ClaimOutcome::Ours
        } else {
            ClaimOutcome::Theirs
        },
        None => ClaimOutcome::Failed,
    }
}

/// What follows the adapter's answer to a plugin-prepared message.
#[derive(PartialEq, Eq, Structural, Debug, Clone, Copy)]
pub enum AfterPrimarySend {
    /// Delivered; `suppress_final_reply` when the turn's final reply is now
    /// redundant.
    Delivered { suppress_final_reply: bool },
    /// The transformed message failed: send the plain fallback instead,
    /// whose result is the send's result.
    SendFallback,
    /// Failed with no fallback.
    Failed,
}

/// A delivered tool message whose plugin asked for it makes the final
/// reply redundant; a message that only got through as its fallback
/// never does.
pub fn after_primary_send(
    primary_ok: bool,
    has_fallback: bool,
    suppress_requested: bool,
    origin_is_tool: bool,
) -> (r: AfterPrimarySend)
    ensures
        r == if primary_ok {
            AfterPrimarySend::Delivered { suppress_final_reply: suppress_requested && origin_is_tool }
        } else if has_fallback {
            AfterPrimarySend::SendFallback
        } else {
            AfterPrimarySend::Failed
        },
{
    if primary_ok {
        AfterPrimarySend::Delivered { suppress_final_reply: suppress_requested && origin_is_tool }
    } else if has_fallback {
        AfterPrimarySend::SendFallback
    } else {
        AfterPrimarySend::Failed
    }
}

/// The turn's pending "final reply already sent" mark.
pub struct FinalReplyMark {
    pending: bool,
}

impl FinalReplyMark {
    pub closed spec fn is_pending(self) -> bool {
        self.pending
    }

    pub fn new() -> (r: Self)
        ensures
            !r.is_pending(),
    {
        FinalReplyMark { pending: false }
    }

    /// Records a delivered message that makes the final reply redundant.
    pub fn mark(&mut self)
        ensures
            final(self).is_pending(),
    {
        self.pending = true;
    }

    /// Takes the mark: whether it was set, leaving it clear.
    pub fn take(&mut self) -> (r: bool)
        ensures
            r == old(self).is_pending(),
            !final(self).is_pending(),
    {
        let r = self.pending;
        self.pending = false;
        r
    }
}

} // verus!
