//! Fixed one-minute-window rate limiting per conversation.
//!
//! Empty whitelists admit everyone, so this is the backstop against strangers
//! (or an accidental bot loop) draining the model quota.

use vstd::prelude::*;
use crate::text::str_eq;

verus! {

/// Length of one rate window, in milliseconds.
pub const RATE_WINDOW_MILLIS: u64 = 60_000;

/// A conversation's use of the current window.
#[derive(Clone, Copy, Debug, PartialEq, Eq, Structural)]
pub struct SenderWindow {
    pub count: u32,
    pub notified: bool,
}

struct ConversationEntry {
    key: String,
    window: SenderWindow,
}

/// What to do with one inbound message.
#[derive(Clone, Copy, Debug, PartialEq, Eq, Structural)]
pub enum RateDecision {
    Allow,
    /// Over quota and already warned this window.
    DropSilently,
    /// Over quota for the first time this window: send one notice.
    DropWithNotice,
}

/// The limiter: when the current window started (milliseconds on the caller's
/// monotonic clock) and each conversation's use of it.
pub struct RateWindow {
    window_start: u64,
    conversations: Vec<ConversationEntry>,
}

pub struct RateView {
    pub window_start: u64,
    pub conversations: Map<Seq<char>, SenderWindow>,
}

pub open spec fn entries_map(entries: Seq<(Seq<char>, SenderWindow)>) -> Map<Seq<char>, SenderWindow>
    decreases entries.len(),
{
    if entries.len() == 0 {
        Map::empty()
    } else {
        entries_map(entries.drop_last()).insert(entries.last().0, entries.last().1)
    }
}

/// The decision for `conversation` at time `now` and the limiter state after it.
pub open spec fn check_spec(st: RateView, now: u64, conversation: Seq<char>, limit: u32) -> (
    RateView,
    RateDecision,
) {
    let st1 = if now >= st.window_start && now - st.window_start >= RATE_WINDOW_MILLIS {
        RateView { window_start: now, conversations: Map::empty() }
    } else {
        st
    };
    if limit == 0 {
        (st1, RateDecision::Allow)
    } else {
        let w = if st1.conversations.contains_key(conversation) {
            st1.conversations[conversation]
        } else {
            SenderWindow { count: 0, notified: false }
        };
        if w.count < limit {
            (
                RateView {
                    window_start: st1.window_start,
                    conversations: st1.conversations.insert(
                        conversation,
                        SenderWindow { count: (w.count + 1) as u32, notified: w.notified },
                    ),
                },
                RateDecision::Allow,
            )
        } else if w.notified {
            (
                RateView {
                    window_start: st1.window_start,
                    conversations: st1.conversations.insert(conversation, w),
                },
                RateDecision::DropSilently,
            )
        } else {
            (
                RateView {
                    window_start: st1.window_start,
                    conversations: st1.conversations.insert(
                        conversation,
                        SenderWindow { count: w.count, notified: true },
                    ),
                },
                RateDecision::DropWithNotice,
            )
        }
    }
}

impl RateWindow {
    pub closed spec fn entries(&self) -> Seq<(Seq<char>, SenderWindow)> {
        self.conversations@.map_values(|e: ConversationEntry| (e.key@, e.window))
    }

    pub closed spec fn view(&self) -> RateView {
        RateView { window_start: self.window_start, conversations: entries_map(self.entries()) }
    }

    /// Keys occur at most once.
    pub closed spec fn wf(&self) -> bool {
        forall|i: int, j: int|
            0 <= i < j < self.conversations@.len() ==> self.conversations@[i].key@
                != self.conversations@[j].key@
    }

    /// A limiter whose first window starts at `now`.
    pub fn new(now: u64) -> (r: Self)
        ensures
            r.wf(),
            r.view().window_start == now,
            r.view().conversations == Map::<Seq<char>, SenderWindow>::empty(),
    {
        let r = RateWindow { window_start: now, conversations: Vec::new() };
        assert(r.entries() =~= seq![]);
        r
    }

    /// Counts one message of `conversation` at `now` against `limit` messages per
    /// window; a limit of 0 admits everything.
    pub fn check_at(&mut self, now: u64, conversation: &str, limit: u32) -> (d: RateDecision)
        requires
            old(self).wf(),
        ensures
            final(self).wf(),
            (final(self).view(), d) == check_spec(old(self).view(), now, conversation@, limit),
    {
        if now >= self.window_start && now - self.window_start >= RATE_WINDOW_MILLIS {
            self.window_start = now;
            self.conversations = Vec::new();
            assert(self.entries() =~= seq![]);
        }
        if limit == 0 {
            return RateDecision::Allow;
        }
        let ghost st1 = self.view();
        let idx = self.find(conversation);
        match idx {
            Some(i) => {
                let w = self.conversations[i].window;
                let (nw, d) = if w.count < limit {
                    (SenderWindow { count: w.count + 1, notified: w.notified }, RateDecision::Allow)
                } else if w.notified {
                    (w, RateDecision::DropSilently)
                } else {
                    (SenderWindow { count: w.count, notified: true }, RateDecision::DropWithNotice)
                };
                self.set_at(i, nw);
                d
            },
            None => {
                let nw = SenderWindow { count: 1, notified: false };
                self.push_new(conversation, nw);
                RateDecision::Allow
            },
        }
    }

    proof fn lemma_entries_map_lookup(e: Seq<(Seq<char>, SenderWindow)>, i: int)
        requires
            0 <= i < e.len(),
            forall|a: int, b: int| 0 <= a < b < e.len() ==> e[a].0 != e[b].0,
        ensures
            entries_map(e).contains_key(e[i].0),
            entries_map(e)[e[i].0] == e[i].1,
        decreases e.len(),
    {
        if i < e.len() - 1 {
            Self::lemma_entries_map_lookup(e.drop_last(), i);
        }
    }

    proof fn lemma_entries_map_absent(e: Seq<(Seq<char>, SenderWindow)>, k: Seq<char>)
        requires
            forall|a: int| 0 <= a < e.len() ==> e[a].0 != k,
        ensures
            !entries_map(e).contains_key(k),
        decreases e.len(),
    {
        if e.len() > 0 {
            Self::lemma_entries_map_absent(e.drop_last(), k);
        }
    }

    proof fn lemma_entries_map_update(e: Seq<(Seq<char>, SenderWindow)>, i: int, w: SenderWindow)
        requires
            0 <= i < e.len(),
            forall|a: int, b: int| 0 <= a < b < e.len() ==> e[a].0 != e[b].0,
        ensures
            entries_map(e.update(i, (e[i].0, w))) == entries_map(e).insert(e[i].0, w),
        decreases e.len(),
    {
        let u = e.update(i, (e[i].0, w));
        if i == e.len() - 1 {
            assert(u.drop_last() =~= e.drop_last());
            Self::lemma_entries_map_absent(e.drop_last(), e[i].0);
            assert(entries_map(u) =~= entries_map(e).insert(e[i].0, w));
        } else {
            Self::lemma_entries_map_update(e.drop_last(), i, w);
            assert(u.drop_last() =~= e.drop_last().update(i, (e[i].0, w)));
            assert(entries_map(u) =~= entries_map(e).insert(e[i].0, w));
        }
    }

    proof fn lemma_wf_entries(&self)
        requires
            self.wf(),
        ensures
            forall|a: int, b: int|
                0 <= a < b < self.entries().len() ==> self.entries()[a].0 != self.entries()[b].0,
            self.entries().len() == self.conversations@.len(),
            forall|a: int|
                0 <= a < self.entries().len() ==> #[trigger] self.entries()[a] == (
                    self.conversations@[a].key@,
                    self.conversations@[a].window,
                ),
    {
    }

    fn find(&self, key: &str) -> (r: Option<usize>)
        requires
            self.wf(),
        ensures
            r matches Some(i) ==> i < self.conversations@.len() && self.entries()[i as int].0
                == key@ && self.view().conversations.contains_key(key@)
                && self.view().conversations[key@] == self.entries()[i as int].1,
            r is None ==> !self.view().conversations.contains_key(key@),
    {
        let mut i: usize = 0;
        while i < self.conversations.len()
            invariant
                self.wf(),
                i <= self.conversations@.len(),
                forall|j: int| 0 <= j < i ==> self.conversations@[j].key@ != key@,
            decreases self.conversations.len() - i,
        {
            if str_eq(self.conversations[i].key.as_str(), key) {
                proof {
                    self.lemma_wf_entries();
                    Self::lemma_entries_map_lookup(self.entries(), i as int);
                }
                return Some(i);
            }
            i = i + 1;
        }
        proof {
            self.lemma_wf_entries();
            Self::lemma_entries_map_absent(self.entries(), key@);
        }
        None
    }

    fn set_at(&mut self, i: usize, w: SenderWindow)
        requires
            old(self).wf(),
            i < old(self).conversations@.len(),
        ensures
            final(self).wf(),
            final(self).view().window_start == old(self).view().window_start,
            final(self).view().conversations == old(self).view().conversations.insert(
                old(self).entries()[i as int].0,
                w,
            ),
    {
        let ghost e = self.entries();
        proof {
            self.lemma_wf_entries();
            Self::lemma_entries_map_update(e, i as int, w);
        }
        self.conversations[i].window = w;
        assert(self.entries() =~= e.update(i as int, (e[i as int].0, w)));
    }

    fn push_new(&mut self, key: &str, w: SenderWindow)
        requires
            old(self).wf(),
            !old(self).view().conversations.contains_key(key@),
        ensures
            final(self).wf(),
            final(self).view().window_start == old(self).view().window_start,
            final(self).view().conversations == old(self).view().conversations.insert(key@, w),
    {
        let ghost e = self.entries();
        let k = crate::text::string_of(&crate::text::chars_of(key));
        proof {
            self.lemma_wf_entries();
            assert forall|a: int| 0 <= a < e.len() implies e[a].0 != key@ by {
                if e[a].0 == key@ {
                    Self::lemma_entries_map_lookup(e, a);
                }
            }
        }
        let ghost old_conv = self.conversations@;
        self.conversations.push(ConversationEntry { key: k, window: w });
        assert forall|a: int, b: int|
            0 <= a < b < self.conversations@.len() implies self.conversations@[a].key@
            != self.conversations@[b].key@ by {
            if b == old_conv.len() {
                assert(self.conversations@[a] == old_conv[a]);
                assert(e[a].0 == old_conv[a].key@);
            } else {
                assert(self.conversations@[a] == old_conv[a]);
                assert(self.conversations@[b] == old_conv[b]);
            }
        }
        assert(self.entries() =~= e.push((key@, w)));
        assert(self.entries().drop_last() =~= e);
    }
}

/// Within one window, once a conversation has been dropped it stays dropped
/// until the window ends, and the notice is sent at most once: after any drop,
/// the next message in the same window is dropped silently.
pub proof fn rate_notice_is_sent_once(
    st: RateView,
    now1: u64,
    now2: u64,
    conversation: Seq<char>,
    limit: u32,
)
    requires
        now1 <= now2,
        check_spec(st, now1, conversation, limit).1 != RateDecision::Allow,
        now2 - check_spec(st, now1, conversation, limit).0.window_start < RATE_WINDOW_MILLIS,
    ensures
        check_spec(check_spec(st, now1, conversation, limit).0, now2, conversation, limit).1
            == RateDecision::DropSilently,
{
}

/// A conversation gets exactly `limit` admitted messages per window: while
/// its count is below the limit it is admitted and counted, and a message of
/// one conversation never changes another conversation's count.
pub proof fn rate_counts_per_conversation(
    st: RateView,
    now: u64,
    conversation: Seq<char>,
    other: Seq<char>,
    limit: u32,
)
    requires
        limit > 0,
        other != conversation,
    ensures
        ({
            let (st2, d) = check_spec(st, now, conversation, limit);
            let st1_convs = if now >= st.window_start && now - st.window_start >= RATE_WINDOW_MILLIS {
                Map::<Seq<char>, SenderWindow>::empty()
            } else {
                st.conversations
            };
            let before = if st1_convs.contains_key(conversation) {
                st1_convs[conversation].count
            } else {
                0
            };
            &&& (d == RateDecision::Allow <==> before < limit)
            &&& st2.conversations[conversation].count == if before < limit {
                before + 1
            } else {
                before as int
            }
            &&& st2.conversations.contains_key(other) == st1_convs.contains_key(other)
            &&& st1_convs.contains_key(other) ==> st2.conversations[other] == st1_convs[other]
        }),
{
}

/// A limit of 0 admits every message.
pub proof fn rate_zero_limit_is_unlimited(st: RateView, now: u64, conversation: Seq<char>)
    ensures
        check_spec(st, now, conversation, 0).1 == RateDecision::Allow,
{
}

/// The limiter after `calls` (time, conversation) in order, and its decisions.
pub open spec fn run_checks(st: RateView, calls: Seq<(u64, Seq<char>)>, limit: u32) -> (RateView, Seq<RateDecision>)
    decreases calls.len(),
{
    if calls.len() == 0 {
        (st, seq![])
    } else {
        let (s1, ds) = run_checks(st, calls.drop_last(), limit);
        let (s2, d) = check_spec(s1, calls.last().0, calls.last().1, limit);
        (s2, ds.push(d))
    }
}

/// How many of `calls` come from `conversation`.
pub open spec fn count_of(calls: Seq<(u64, Seq<char>)>, conversation: Seq<char>) -> nat
    decreases calls.len(),
{
    if calls.len() == 0 {
        0
    } else {
        count_of(calls.drop_last(), conversation) + if calls.last().1 == conversation {
            1nat
        } else {
            0nat
        }
    }
}

/// The decision for a conversation's message after `before` earlier ones
/// in the same window.
pub open spec fn window_decision(before: nat, limit: u32) -> RateDecision {
    if limit == 0 || before < limit {
        RateDecision::Allow
    } else if before == limit {
        RateDecision::DropWithNotice
    } else {
        RateDecision::DropSilently
    }
}

/// Within one window, a conversation not seen before in it gets its first
/// `limit` messages admitted, one notice for the next, and silence after;
/// with a limit of 0 everything is admitted and nothing is counted. Other
/// conversations' messages never change these answers.
pub proof fn rate_window_sequence(st: RateView, calls: Seq<(u64, Seq<char>)>, conversation: Seq<char>, limit: u32)
    requires
        !st.conversations.contains_key(conversation),
        forall|i: int| 0 <= i < calls.len() ==> (#[trigger] calls[i]).0 < st.window_start + RATE_WINDOW_MILLIS,
    ensures
        run_checks(st, calls, limit).0.window_start == st.window_start,
        run_checks(st, calls, limit).1.len() == calls.len(),
        limit == 0 ==> run_checks(st, calls, limit).0.conversations == st.conversations,
        limit > 0 && count_of(calls, conversation) == 0 ==> !run_checks(
            st,
            calls,
            limit,
        ).0.conversations.contains_key(conversation),
        limit > 0 && count_of(calls, conversation) > 0 ==> run_checks(
            st,
            calls,
            limit,
        ).0.conversations.contains_key(conversation) && run_checks(st, calls, limit).0.conversations[conversation]
            == (SenderWindow {
            count: if count_of(calls, conversation) < limit {
                count_of(calls, conversation) as u32
            } else {
                limit
            },
            notified: count_of(calls, conversation) > limit,
        }),
        forall|i: int|
            0 <= i < calls.len() && (#[trigger] calls[i]).1 == conversation ==> run_checks(st, calls, limit).1[i]
                == window_decision(count_of(calls.take(i), conversation), limit),
    decreases calls.len(),
{
    if calls.len() > 0 {
        let prev = calls.drop_last();
        assert forall|i: int| 0 <= i < prev.len() implies (#[trigger] prev[i]).0 < st.window_start + RATE_WINDOW_MILLIS by {
            assert(prev[i] == calls[i]);
        }
        rate_window_sequence(st, prev, conversation, limit);
        let n = calls.len() - 1;
        assert(calls.take(n) =~= prev);
        assert(calls[n] == calls.last());
        assert forall|i: int|
            0 <= i < calls.len() && (#[trigger] calls[i]).1 == conversation implies run_checks(st, calls, limit).1[i]
                == window_decision(count_of(calls.take(i), conversation), limit) by {
            if i < n {
                assert(prev[i] == calls[i]);
                assert(prev.take(i) =~= calls.take(i));
            }
        }
    }
}

} // verus!
