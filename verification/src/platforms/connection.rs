//! One OneBot connection's request/response bookkeeping, and the reverse
//! WebSocket listener's rebinding.
//!
//! Sockets, timers and the tasks that serve them are the host's.

use vstd::prelude::*;
use crate::platforms::onebot::ConnectionRegistry;
use crate::lookup::{first_index, lemma_first_index, lemma_first_index_bounds, lemma_first_index_push};
use crate::text::{chars_of, push_all, push_str, signed_decimal, string_of, str_eq, i64_decimal};

verus! {

/// The callers waiting for API responses, by the echo their request
/// carried.
pub struct PendingCalls<W> {
    echoes: Vec<String>,
    waiters: Vec<W>,
}

impl<W> PendingCalls<W> {
    pub closed spec fn wf(self) -> bool {
        &&& self.echoes@.len() == self.waiters@.len()
        &&& forall|i: int, j: int|
            0 <= i < j < self.echoes@.len() ==> #[trigger] self.echoes@[i]@ != #[trigger] self.echoes@[j]@
    }

    closed spec fn keys(self) -> Seq<Seq<char>> {
        Seq::new(self.echoes@.len(), |i: int| self.echoes@[i]@)
    }

    /// The caller waiting for `echo`.
    pub closed spec fn waiter_of(self, echo: Seq<char>) -> Option<W> {
        let k = first_index(self.keys(), echo);
        if k < self.waiters@.len() {
            Some(self.waiters@[k])
        } else {
            None
        }
    }

    /// Nobody waits.
    pub open spec fn is_idle(self) -> bool {
        forall|e: Seq<char>| #[trigger] self.waiter_of(e) is None
    }

    pub fn new() -> (r: Self)
        ensures
            r.wf(),
            r.is_idle(),
    {
        let r = PendingCalls { echoes: Vec::new(), waiters: Vec::new() };
        assert forall|e: Seq<char>| #[trigger] r.waiter_of(e) is None by {
            lemma_first_index_bounds(r.keys(), e);
        }
        r
    }

    /// Whether nobody waits.
    pub fn is_empty(&self) -> (r: bool)
        requires
            self.wf(),
        ensures
            r == self.is_idle(),
    {
        if self.echoes.len() == 0 {
            assert forall|e: Seq<char>| #[trigger] self.waiter_of(e) is None by {
                lemma_first_index_bounds(self.keys(), e);
            }
            true
        } else {
            proof {
                let e0 = self.echoes@[0]@;
                lemma_first_index(self.keys(), e0, 0);
                assert(self.waiter_of(e0) is Some);
            }
            false
        }
    }

    fn find(&self, echo: &str) -> (r: Option<usize>)
        requires
            self.wf(),
        ensures
            match r {
                Some(k) => k < self.waiters@.len() && first_index(self.keys(), echo@) == k,
                None => first_index(self.keys(), echo@) == self.waiters@.len(),
            },
    {
        let n = self.echoes.len();
        let mut i: usize = 0;
        while i < n
            invariant
                n == self.echoes@.len(),
                self.wf(),
                i <= n,
                forall|k: int| 0 <= k < i ==> self.keys()[k] != echo@,
            decreases n - i,
        {
            if str_eq(self.echoes[i].as_str(), echo) {
                proof {
                    lemma_first_index(self.keys(), echo@, i as int);
                }
                return Some(i);
            }
            i = i + 1;
        }
        proof {
            lemma_first_index(self.keys(), echo@, n as int);
        }
        None
    }

    /// Registers the caller waiting for `echo`, replacing (and handing
    /// back) an earlier one.
    pub fn insert(&mut self, echo: &str, waiter: W) -> (r: Option<W>)
        requires
            old(self).wf(),
        ensures
            final(self).wf(),
            r == old(self).waiter_of(echo@),
            final(self).waiter_of(echo@) == Some(waiter),
            forall|e: Seq<char>| e != echo@ ==> #[trigger] final(self).waiter_of(e) == old(self).waiter_of(e),
    {
        let ghost old_keys = self.keys();
        proof {
            lemma_first_index_bounds(old_keys, echo@);
        }
        match self.find(echo) {
            Some(k) => {
                let mut w = waiter;
                std::mem::swap(&mut w, &mut self.waiters[k]);
                proof {
                    assert(self.keys() =~= old_keys);
                    assert forall|e: Seq<char>| e != echo@ implies #[trigger] self.waiter_of(e)
                        == old(self).waiter_of(e) by {
                        lemma_first_index_bounds(old_keys, e);
                        let f = first_index(old_keys, e);
                        if f < old_keys.len() {
                            assert(old_keys[f] == e);
                        }
                    }
                }
                Some(w)
            },
            None => {
                self.echoes.push(string_of(&chars_of(echo)));
                self.waiters.push(waiter);
                proof {
                    assert(self.keys() =~= old_keys.push(echo@));
                    assert forall|i: int, j: int|
                        0 <= i < j < self.echoes@.len() implies #[trigger] self.echoes@[i]@
                        != #[trigger] self.echoes@[j]@ by {
                        if j == old_keys.len() {
                            assert(old_keys[i] == self.echoes@[i]@);
                        }
                    }
                    lemma_first_index_push(old_keys, echo@, echo@);
                    assert forall|e: Seq<char>| e != echo@ implies #[trigger] self.waiter_of(e)
                        == old(self).waiter_of(e) by {
                        lemma_first_index_push(old_keys, e, echo@);
                        lemma_first_index_bounds(old_keys, e);
                    }
                }
                None
            },
        }
    }

    /// Takes the caller waiting for `echo`, if any.
    pub fn remove(&mut self, echo: &str) -> (r: Option<W>)
        requires
            old(self).wf(),
        ensures
            final(self).wf(),
            r == old(self).waiter_of(echo@),
            final(self).waiter_of(echo@) is None,
            forall|e: Seq<char>| e != echo@ ==> #[trigger] final(self).waiter_of(e) == old(self).waiter_of(e),
    {
        let ghost old_keys = self.keys();
        let ghost old_waiters = self.waiters@;
        proof {
            lemma_first_index_bounds(old_keys, echo@);
        }
        match self.find(echo) {
            None => {
                None
            },
            Some(k) => {
                self.echoes.remove(k);
                let w = self.waiters.remove(k);
                proof {
                    let nk = self.keys();
                    assert(nk =~= old_keys.remove(k as int));
                    assert forall|e: Seq<char>| e != echo@ implies #[trigger] self.waiter_of(e)
                        == old(self).waiter_of(e) by {
                        lemma_first_index_bounds(old_keys, e);
                        let f = first_index(old_keys, e);
                        if f < old_keys.len() {
                            assert(old_keys[f] == e);
                            assert(f != k);
                            if f < k {
                                lemma_first_index(nk, e, f);
                            } else {
                                assert forall|j: int| 0 <= j < f - 1 implies nk[j] != e by {
                                    if j < k {
                                        assert(nk[j] == old_keys[j]);
                                    } else {
                                        assert(nk[j] == old_keys[j + 1]);
                                    }
                                }
                                assert(nk[f - 1] == old_keys[f]);
                                lemma_first_index(nk, e, f - 1);
                                assert(self.waiters@[f - 1] == old_waiters[f]);
                            }
                        } else {
                            assert forall|j: int| 0 <= j < nk.len() implies nk[j] != e by {
                                if j < k {
                                    assert(nk[j] == old_keys[j]);
                                } else {
                                    assert(nk[j] == old_keys[j + 1]);
                                }
                            }
                            lemma_first_index(nk, e, nk.len() as int);
                        }
                    }
                    assert(old_keys[k as int] == echo@);
                    assert forall|j: int| 0 <= j < nk.len() implies nk[j] != echo@ by {
                        if j < k {
                            assert(old(self).echoes@[j]@ != old(self).echoes@[k as int]@);
                            assert(nk[j] == old_keys[j]);
                        } else {
                            assert(old(self).echoes@[k as int]@ != old(self).echoes@[j + 1]@);
                            assert(nk[j] == old_keys[j + 1]);
                        }
                    }
                    lemma_first_index(nk, echo@, nk.len() as int);
                    assert forall|i: int, j: int|
                        0 <= i < j < self.echoes@.len() implies #[trigger] self.echoes@[i]@
                        != #[trigger] self.echoes@[j]@ by {
                        let oi = if i < k { i } else { i + 1 };
                        let oj = if j < k { j } else { j + 1 };
                        assert(self.echoes@[i] == old(self).echoes@[oi]);
                        assert(self.echoes@[j] == old(self).echoes@[oj]);
                    }
                }
                Some(w)
            },
        }
    }
}

/// What an API response's `retcode` (−1 when it has none) says: 0 is
/// success, anything else the failure code.
pub fn api_outcome(retcode: Option<i64>) -> (r: Result<(), i64>)
    ensures
        r == match retcode {
            Some(0) => Ok::<(), i64>(()),
            Some(c) => Err::<(), i64>(c),
            None => Err::<(), i64>(-1i64),
        },
{
    match retcode {
        Some(c) => if c == 0 {
            Ok(())
        } else {
            Err(c)
        },
        None => Err(-1),
    }
}

/// Whether a response that no caller waits for reports a failed send
/// (`retcode`, 0 when it has none, other than 0).
pub fn unmatched_response_failed(retcode: Option<i64>) -> (r: bool)
    ensures
        r == match retcode {
            Some(c) => c != 0,
            None => false,
        },
{
    match retcode {
        Some(c) => c != 0,
        None => false,
    }
}

/// The error of an API call that failed.
pub fn api_failure_message(action: &str, retcode: i64) -> (r: String)
    ensures
        r@ == "OneBot API "@ + action@ + " failed with retcode "@ + signed_decimal(retcode as int),
{
    let mut v: Vec<char> = Vec::new();
    push_str(&mut v, "OneBot API ");
    push_str(&mut v, action);
    push_str(&mut v, " failed with retcode ");
    let d = i64_decimal(retcode);
    push_all(&mut v, &d);
    string_of(&v)
}

/// The error of an API call that got no answer in time.
pub fn api_timeout_message(action: &str) -> (r: String)
    ensures
        r@ == "OneBot API "@ + action@ + " timed out"@,
{
    let mut v: Vec<char> = Vec::new();
    push_str(&mut v, "OneBot API ");
    push_str(&mut v, action);
    push_str(&mut v, " timed out");
    string_of(&v)
}

/// The reverse WebSocket settings that decide the listener.
pub struct ReverseWsConfig {
    pub enabled: bool,
    pub port: u16,
    pub access_token: String,
}

/// A listener change prepared before it is made.
#[derive(PartialEq, Eq, Structural, Debug, Clone, Copy)]
pub struct ListenerPlan {
    /// The port to serve on, when enabled.
    pub desired_port: Option<u16>,
    /// A port of its own must be bound (not the web port, not the one
    /// already served).
    pub dedicated_bind: bool,
    /// Existing connections must go: the switch, port or token changed.
    pub disconnect_connections: bool,
}

/// The change from `current` settings (none at start-up) to `next`.
pub fn plan_listener(current: Option<&ReverseWsConfig>, next: &ReverseWsConfig, web_port: u16, active_port: Option<u16>) -> (r:
    ListenerPlan)
    ensures
        r.desired_port == if next.enabled {
            Some(next.port)
        } else {
            None::<u16>
        },
        r.dedicated_bind == (next.enabled && next.port != web_port && active_port != Some(next.port)),
        r.disconnect_connections == match current {
            Some(c) => c.enabled != next.enabled || c.port != next.port || c.access_token@
                != next.access_token@,
            None => false,
        },
{
    let desired_port = if next.enabled {
        Some(next.port)
    } else {
        None
    };
    let same_active = match active_port {
        Some(p) => p == next.port,
        None => false,
    };
    let dedicated_bind = next.enabled && next.port != web_port && !same_active;
    let disconnect_connections = match current {
        Some(c) => c.enabled != next.enabled || c.port != next.port || !str_eq(
            c.access_token.as_str(),
            next.access_token.as_str(),
        ),
        None => false,
    };
    ListenerPlan { desired_port, dedicated_bind, disconnect_connections }
}

/// What committing a plan does besides updating the state.
#[derive(PartialEq, Eq, Structural, Debug, Clone, Copy)]
pub struct ListenerCommit {
    /// Stop the task that served the previous port.
    pub stop_previous: bool,
    /// Drop the open connections.
    pub disconnect: bool,
    /// The served port changed (worth a log line).
    pub port_changed: bool,
}

/// The served port and whether a task of its own serves it.
pub struct ListenerState {
    active_port: Option<u16>,
    has_task: bool,
}

impl ListenerState {
    pub closed spec fn port(self) -> Option<u16> {
        self.active_port
    }

    pub closed spec fn serving(self) -> bool {
        self.has_task
    }

    pub fn new() -> (r: Self)
        ensures
            r.port() is None,
            !r.serving(),
    {
        ListenerState { active_port: None, has_task: false }
    }

    pub fn active_port(&self) -> (r: Option<u16>)
        ensures
            r == self.port(),
    {
        self.active_port
    }

    pub fn has_task(&self) -> (r: bool)
        ensures
            r == self.serving(),
    {
        self.has_task
    }

    /// Commits a prepared plan; `bound` says whether its dedicated port
    /// was bound. A plan for the port already served changes nothing but
    /// the connections; any other replaces the serving task.
    pub fn commit(&mut self, plan: &ListenerPlan, bound: bool) -> (r: ListenerCommit)
        ensures
            old(self).port() == plan.desired_port ==> final(self).port() == old(self).port()
                && final(self).serving() == old(self).serving() && !r.stop_previous && !r.port_changed,
            old(self).port() != plan.desired_port ==> final(self).port() == plan.desired_port
                && final(self).serving() == bound && r.stop_previous == old(self).serving()
                && r.port_changed,
            r.disconnect == plan.disconnect_connections,
    {
        if self.active_port == plan.desired_port {
            ListenerCommit { stop_previous: false, disconnect: plan.disconnect_connections, port_changed: false }
        } else {
            let previous = self.has_task;
            self.active_port = plan.desired_port;
            self.has_task = bound;
            ListenerCommit { stop_previous: previous, disconnect: plan.disconnect_connections, port_changed: true }
        }
    }

    /// Stops serving: no port, no task; says whether a task was running.
    pub fn shutdown(&mut self) -> (r: bool)
        ensures
            r == old(self).serving(),
            final(self).port() is None,
            !final(self).serving(),
    {
        let r = self.has_task;
        self.active_port = None;
        self.has_task = false;
        r
    }
}

/// Which account a live connection speaks for (0 until it says) and the
/// generation it was registered under.
pub struct ConnectionIdentity {
    pub bound_self_id: i64,
    pub generation: u64,
}

/// What a frame's `self_id` means for the connection.
#[derive(PartialEq, Eq, Structural, Debug, Clone, Copy)]
pub enum IdentityVerdict {
    /// Go on.
    Continue,
    /// The account already has a newer connection: close this one.
    IdentityTaken,
    /// The connection changed accounts mid-stream: close it.
    SelfIdChanged,
}

/// What kind of frame arrived: no `post_type` is an API response; a
/// `message` post is handled; notices, requests and meta events are not.
#[derive(PartialEq, Eq, Structural, Debug, Clone, Copy)]
pub enum FrameKind {
    ApiResponse,
    Message,
    Ignored,
}

pub fn frame_kind(has_post_type: bool, post_type: Option<&str>) -> (r: FrameKind)
    ensures
        r == if !has_post_type {
            FrameKind::ApiResponse
        } else if (match post_type {
            Some(p) => p@ == "message"@,
            None => false,
        }) {
            FrameKind::Message
        } else {
            FrameKind::Ignored
        },
{
    if !has_post_type {
        FrameKind::ApiResponse
    } else {
        match post_type {
            Some(p) => if str_eq(p, "message") {
                FrameKind::Message
            } else {
                FrameKind::Ignored
            },
            None => FrameKind::Ignored,
        }
    }
}

impl ConnectionIdentity {
    /// Whether the connection is still the live one of its account (one
    /// that has not said its account yet always is).
    pub fn still_current<H>(&self, registry: &ConnectionRegistry<H>) -> (r: bool)
        requires
            registry.wf(),
        ensures
            r == (self.bound_self_id == 0 || registry.current(self.bound_self_id) == Some(self.generation)),
    {
        self.bound_self_id == 0 || registry.is_current(self.bound_self_id, self.generation)
    }

    /// Takes the `self_id` a frame carries (0 or none says nothing): the
    /// first one binds the connection to that account unless a newer
    /// connection owns it; a different one later ends the connection.
    pub fn on_event_self_id<H>(
        &mut self,
        registry: &mut ConnectionRegistry<H>,
        event_self_id: Option<i64>,
        handle: H,
    ) -> (r: IdentityVerdict)
        requires
            old(registry).wf(),
            old(self).generation <= old(registry).last_generation(),
        ensures
            final(registry).wf(),
            final(registry).last_generation() == old(registry).last_generation(),
            final(self).generation == old(self).generation,
            match event_self_id {
                Some(id) if id != 0 => if old(self).bound_self_id == 0 {
                    &&& final(self).bound_self_id == id
                    &&& if old(registry).current(id) matches Some(g) && g > old(self).generation {
                        &&& r == IdentityVerdict::IdentityTaken
                        &&& forall|k: i64| #[trigger] final(registry).current(k) == old(registry).current(k)
                            && final(registry).handle_of(k) == old(registry).handle_of(k)
                    } else {
                        &&& r == IdentityVerdict::Continue
                        &&& final(registry).current(id) == Some(old(self).generation)
                        &&& final(registry).handle_of(id) == Some(handle)
                        &&& forall|k: i64| k != id ==> #[trigger] final(registry).current(k) == old(registry).current(k)
                            && final(registry).handle_of(k) == old(registry).handle_of(k)
                    }
                } else {
                    &&& final(self).bound_self_id == old(self).bound_self_id
                    &&& r == if old(self).bound_self_id == id {
                        IdentityVerdict::Continue
                    } else {
                        IdentityVerdict::SelfIdChanged
                    }
                    &&& forall|k: i64| #[trigger] final(registry).current(k) == old(registry).current(k)
                        && final(registry).handle_of(k) == old(registry).handle_of(k)
                },
                _ => r == IdentityVerdict::Continue && final(self).bound_self_id == old(self).bound_self_id
                    && forall|k: i64| #[trigger] final(registry).current(k) == old(registry).current(k)
                    && final(registry).handle_of(k) == old(registry).handle_of(k),
            },
    {
        let id = match event_self_id {
            Some(id) => id,
            None => {
                return IdentityVerdict::Continue;
            },
        };
        if id == 0 {
            return IdentityVerdict::Continue;
        }
        if self.bound_self_id == 0 {
            self.bound_self_id = id;
            if registry.bind(id, self.generation, handle) {
                IdentityVerdict::Continue
            } else {
                IdentityVerdict::IdentityTaken
            }
        } else if self.bound_self_id != id {
            IdentityVerdict::SelfIdChanged
        } else {
            IdentityVerdict::Continue
        }
    }
}

} // verus!
