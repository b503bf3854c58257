//! Process-level runtime state: engine status, the per-configuration turn
//! resource cache and web login throttling.

use vstd::prelude::*;
use crate::hashing::{blake3_hash, blake3_of, sha256_text, sha256_of_text};
use crate::runtime::{LOGIN_ATTEMPT_LIMIT, LOGIN_WINDOW_MILLIS};

verus! {

/// Status of the turn engine, as the web UI shows it.
pub struct TurnEngineState {
    state: u8,
}

impl TurnEngineState {
    pub const COLD: u8 = 0;
    pub const INITIALIZING: u8 = 1;
    pub const READY: u8 = 2;
    pub const FAILED: u8 = 3;

    pub closed spec fn value(&self) -> u8 {
        self.state
    }

    /// A cold engine.
    pub fn new() -> (r: Self)
        ensures
            r.value() == Self::COLD,
    {
        TurnEngineState { state: Self::COLD }
    }

    pub fn set(&mut self, state: u8)
        ensures
            final(self).value() == state,
    {
        self.state = state;
    }

    pub fn is_ready(&self) -> (r: bool)
        ensures
            r == (self.value() == Self::READY),
    {
        self.state == Self::READY
    }

    /// `initializing`, `ready`, `failed`, or `cold` for any other value.
    pub fn label(&self) -> (r: &'static str)
        ensures
            r@ == if self.value() == Self::INITIALIZING {
                "initializing"@
            } else if self.value() == Self::READY {
                "ready"@
            } else if self.value() == Self::FAILED {
                "failed"@
            } else {
                "cold"@
            },
    {
        if self.state == Self::INITIALIZING {
            "initializing"
        } else if self.state == Self::READY {
            "ready"
        } else if self.state == Self::FAILED {
            "failed"
        } else {
            "cold"
        }
    }
}

/// Configurations whose turn resources are kept at once.
pub const MAX_CACHED_TURN_RESOURCE_CONFIGS: usize = 16;

/// The cache key of an effective configuration: the BLAKE3 hash of its
/// JSON encoding.
pub fn resource_key(config_json: &[u8]) -> (r: [u8; 32])
    ensures
        r@ == blake3_of(config_json@),
{
    blake3_hash(config_json)
}

fn keys_equal(a: &[u8; 32], b: &[u8; 32]) -> (r: bool)
    ensures
        r == (a@ == b@),
{
    let mut i: usize = 0;
    while i < 32
        invariant
            i <= 32,
            a@.len() == 32,
            b@.len() == 32,
            forall|k: int| 0 <= k < i ==> a@[k] == b@[k],
        decreases 32 - i,
    {
        if a[i] != b[i] {
            return false;
        }
        i = i + 1;
    }
    assert(a@ =~= b@);
    true
}

/// Turn resources by configuration key, least recently used first.
/// Expensive per-turn dependencies are built on first use and shared by
/// later turns with the same effective configuration.
pub struct TurnResourceCache<V> {
    entries: Vec<([u8; 32], V)>,
}

pub open spec fn cache_keys<V>(entries: Seq<([u8; 32], V)>) -> Seq<Seq<u8>> {
    entries.map_values(|e: ([u8; 32], V)| e.0@)
}

impl<V> TurnResourceCache<V> {
    /// The cached `(key, value)` pairs, least recently used first.
    pub closed spec fn view(&self) -> Seq<(Seq<u8>, V)> {
        self.entries@.map_values(|e: ([u8; 32], V)| (e.0@, e.1))
    }

    /// At most `MAX_CACHED_TURN_RESOURCE_CONFIGS` entries, no key twice.
    pub closed spec fn wf(&self) -> bool {
        &&& self.entries@.len() <= MAX_CACHED_TURN_RESOURCE_CONFIGS
        &&& forall|i: int, j: int|
            0 <= i < self.entries@.len() && 0 <= j < self.entries@.len() && i != j
                ==> #[trigger] self.entries@[i].0@ != #[trigger] self.entries@[j].0@
    }

    pub fn new() -> (r: Self)
        ensures
            r.wf(),
            r@ == Seq::<(Seq<u8>, V)>::empty(),
    {
        let r = TurnResourceCache { entries: Vec::new() };
        assert(r@ =~= Seq::<(Seq<u8>, V)>::empty());
        r
    }

    /// Forgets every entry (configuration reload).
    pub fn clear(&mut self)
        ensures
            final(self).wf(),
            final(self)@ == Seq::<(Seq<u8>, V)>::empty(),
    {
        self.entries.clear();
        assert(self@ =~= Seq::<(Seq<u8>, V)>::empty());
    }

    fn position(&self, key: &[u8; 32]) -> (r: Option<usize>)
        ensures
            match r {
                Some(i) => i < self.entries@.len() && self.entries@[i as int].0@ == key@,
                None => forall|i: int| 0 <= i < self.entries@.len() ==> #[trigger] self.entries@[i].0@ != key@,
            },
    {
        let mut i: usize = 0;
        while i < self.entries.len()
            invariant
                i <= self.entries@.len(),
                forall|k: int| 0 <= k < i ==> #[trigger] self.entries@[k].0@ != key@,
            decreases self.entries.len() - i,
        {
            if keys_equal(&self.entries[i].0, key) {
                return Some(i);
            }
            i = i + 1;
        }
        None
    }

    /// The resources cached under `key`, which becomes the most recently
    /// used.
    pub fn lookup(&mut self, key: &[u8; 32]) -> (r: Option<&V>)
        requires
            old(self).wf(),
        ensures
            final(self).wf(),
            match r {
                Some(v) => exists|i: int|
                    0 <= i < old(self)@.len() && old(self)@[i].0 == key@ && old(self)@[i].1 == *v
                        && final(self)@ == old(self)@.remove(i).push(old(self)@[i]),
                None => final(self)@ == old(self)@ && forall|i: int|
                    0 <= i < old(self)@.len() ==> #[trigger] old(self)@[i].0 != key@,
            },
    {
        let ghost before = self.entries@;
        match self.position(key) {
            None => {
                proof {
                    assert forall|i: int| 0 <= i < self@.len() implies #[trigger] self@[i].0 != key@ by {
                        assert(self.entries@[i].0@ != key@);
                    }
                }
                None
            },
            Some(i) => {
                let e = self.entries.remove(i);
                self.entries.push(e);
                proof {
                    let a = self.entries@;
                    assert(a =~= before.remove(i as int).push(before[i as int]));
                    assert forall|x: int, y: int|
                        0 <= x < a.len() && 0 <= y < a.len() && x != y implies #[trigger] a[x].0@
                        != #[trigger] a[y].0@ by {
                        let x0 = if x == a.len() - 1 { i as int } else if x < i { x } else { x + 1 };
                        let y0 = if y == a.len() - 1 { i as int } else if y < i { y } else { y + 1 };
                        assert(a[x] == before[x0]);
                        assert(a[y] == before[y0]);
                    }
                    let o = before.map_values(|e: ([u8; 32], V)| (e.0@, e.1));
                    assert(self@ =~= o.remove(i as int).push(o[i as int]));
                }
                let n = self.entries.len();
                let v = &self.entries[n - 1].1;
                proof {
                    let o = before.map_values(|e: ([u8; 32], V)| (e.0@, e.1));
                    assert(o == old(self)@);
                    assert(o[i as int].0 == key@ && o[i as int].1 == *v && self@ == o.remove(i as int).push(
                        o[i as int],
                    ));
                }
                Some(v)
            },
        }
    }

    /// Caches `value` under `key` as the most recently used entry,
    /// replacing an earlier value of that key; when full, the least
    /// recently used entry makes room.
    pub fn store(&mut self, key: [u8; 32], value: V)
        requires
            old(self).wf(),
        ensures
            final(self).wf(),
            final(self)@.len() > 0,
            final(self)@.last() == (key@, value),
            ({
                let rest = match cache_slot(old(self)@, key@) {
                    Some(i) => old(self)@.remove(i),
                    None => old(self)@,
                };
                final(self)@ == if rest.len() >= MAX_CACHED_TURN_RESOURCE_CONFIGS {
                    rest.drop_first().push((key@, value))
                } else {
                    rest.push((key@, value))
                }
            }),
    {
        let ghost before = self.entries@;
        let ghost bv = self@;
        match self.position(&key) {
            Some(i) => {
                let _ = self.entries.remove(i);
                proof {
                    assert(cache_slot(bv, key@) == Some(i as int)) by {
                        assert(bv[i as int].0 == key@);
                        let j = cache_slot(bv, key@)->0;
                        assert(bv[j].0 == key@);
                        assert(before[j].0@ == before[i as int].0@);
                    }
                    assert(self@ =~= bv.remove(i as int));
                }
            },
            None => {
                proof {
                    assert forall|k: int| 0 <= k < bv.len() implies #[trigger] bv[k].0 != key@ by {
                        assert(before[k].0@ != key@);
                    }
                }
            },
        }
        let ghost mid = self.entries@;
        let ghost mv = self@;
        if self.entries.len() >= MAX_CACHED_TURN_RESOURCE_CONFIGS {
            let _ = self.entries.remove(0);
            proof {
                assert(self@ =~= mv.drop_first());
            }
        }
        let ghost before_push = self.entries@;
        self.entries.push((key, value));
        proof {
            let a = self.entries@;
            assert forall|k: int| 0 <= k < before_push.len() implies #[trigger] before_push[k].0@ != key@ by {
                let k1 = if mid.len() >= MAX_CACHED_TURN_RESOURCE_CONFIGS { k + 1 } else { k };
                assert(before_push[k] == mid[k1]);
                let k0 = match cache_slot(bv, key@) {
                    Some(i) => if k1 < i { k1 } else { k1 + 1 },
                    None => k1,
                };
                assert(mid[k1] == before[k0]);
            }
            assert forall|x: int, y: int|
                0 <= x < a.len() && 0 <= y < a.len() && x != y implies #[trigger] a[x].0@ != #[trigger] a[y].0@ by {
                if x < before_push.len() && y < before_push.len() {
                    let x1 = if mid.len() >= MAX_CACHED_TURN_RESOURCE_CONFIGS { x + 1 } else { x };
                    let y1 = if mid.len() >= MAX_CACHED_TURN_RESOURCE_CONFIGS { y + 1 } else { y };
                    let x0 = match cache_slot(bv, key@) {
                        Some(i) => if x1 < i { x1 } else { x1 + 1 },
                        None => x1,
                    };
                    let y0 = match cache_slot(bv, key@) {
                        Some(i) => if y1 < i { y1 } else { y1 + 1 },
                        None => y1,
                    };
                    assert(a[x] == before[x0]);
                    assert(a[y] == before[y0]);
                }
            }
            let pushed = (key@, value);
            assert(self@ =~= self.entries@.drop_last().map_values(|e: ([u8; 32], V)| (e.0@, e.1)).push(pushed));
        }
    }
}

/// Position of the entry of `key`.
pub open spec fn cache_slot<V>(entries: Seq<(Seq<u8>, V)>, key: Seq<u8>) -> Option<int> {
    if exists|i: int| 0 <= i < entries.len() && #[trigger] entries[i].0 == key {
        Some(choose|i: int| 0 <= i < entries.len() && #[trigger] entries[i].0 == key)
    } else {
        None
    }
}

/// Failed web logins of one peer in the current window.
#[derive(Clone, Copy, Debug, PartialEq, Eq, Structural)]
pub struct LoginAttempt {
    /// Start of the window, in milliseconds on the host's monotonic clock.
    pub window_started: u64,
    pub failures: u8,
}

/// Why a login was refused.
#[derive(Clone, Copy, Debug, PartialEq, Eq, Structural)]
pub enum LoginFailure {
    Invalid,
    RateLimited,
}

/// Web sessions kept at once; the oldest makes room for a new login.
pub const MAX_WEB_SESSIONS: usize = 64;

/// Password protection of the web UI: the password digest, the issued
/// session tokens (oldest first) and per-peer login throttling.
pub struct WebAuth {
    password_digest: Option<Vec<u8>>,
    sessions: Vec<String>,
    attempts: Vec<(String, LoginAttempt)>,
}

/// A peer's attempts once the window is checked at `now`: a new window
/// when the peer has none or the old one is over.
pub open spec fn window_checked(a: Option<LoginAttempt>, now: u64) -> LoginAttempt {
    let e = match a {
        Some(e) => e,
        None => LoginAttempt { window_started: now, failures: 0 },
    };
    if now >= e.window_started && now - e.window_started >= LOGIN_WINDOW_MILLIS {
        LoginAttempt { window_started: now, failures: 0 }
    } else {
        e
    }
}

pub open spec fn session_views(v: Seq<String>) -> Seq<Seq<char>> {
    v.map_values(|s: String| s@)
}

/// The sessions after issuing `token`: appended, the oldest dropped beyond
/// `MAX_WEB_SESSIONS`.
pub open spec fn sessions_after_login(sessions: Seq<Seq<char>>, token: Seq<char>) -> Seq<Seq<char>> {
    let s = sessions.push(token);
    if s.len() > MAX_WEB_SESSIONS {
        s.drop_first()
    } else {
        s
    }
}

impl WebAuth {
    pub closed spec fn digest(&self) -> Option<Seq<u8>> {
        match self.password_digest {
            Some(d) => Some(d@),
            None => None,
        }
    }

    /// Issued tokens, oldest first.
    pub closed spec fn tokens(&self) -> Seq<Seq<char>> {
        session_views(self.sessions@)
    }

    /// The login attempts of `peer`.
    pub closed spec fn attempt_of(&self, peer: Seq<char>) -> Option<LoginAttempt> {
        if exists|i: int| 0 <= i < self.attempts@.len() && #[trigger] self.attempts@[i].0@ == peer {
            Some(
                self.attempts@[choose|i: int|
                    0 <= i < self.attempts@.len() && #[trigger] self.attempts@[i].0@ == peer].1,
            )
        } else {
            None
        }
    }

    /// Peers appear once; at most `MAX_WEB_SESSIONS` tokens.
    pub closed spec fn wf(&self) -> bool {
        &&& self.sessions@.len() <= MAX_WEB_SESSIONS
        &&& forall|i: int, j: int|
            0 <= i < self.attempts@.len() && 0 <= j < self.attempts@.len() && i != j
                ==> #[trigger] self.attempts@[i].0@ != #[trigger] self.attempts@[j].0@
    }

    /// Protection by `password`, or none.
    pub fn new(password: Option<&str>) -> (r: Self)
        ensures
            r.wf(),
            r.digest() == match password {
                Some(p) => Some(sha256_of_text(p@)),
                None => None::<Seq<u8>>,
            },
            r.tokens() == Seq::<Seq<char>>::empty(),
            forall|peer: Seq<char>| r.attempt_of(peer) is None,
    {
        let password_digest = match password {
            Some(p) => Some(sha256_text(p)),
            None => None,
        };
        let r = WebAuth { password_digest, sessions: Vec::new(), attempts: Vec::new() };
        assert(r.tokens() =~= Seq::<Seq<char>>::empty());
        r
    }

    /// Whether a password is set.
    pub fn required(&self) -> (r: bool)
        ensures
            r == self.digest() is Some,
    {
        self.password_digest.is_some()
    }

    /// Whether a request may proceed: always without a password, else only
    /// with an issued token.
    pub fn is_authenticated(&self, supplied: Option<&str>) -> (r: bool)
        ensures
            r == (self.digest() is None || (supplied matches Some(t) && self.tokens().contains(t@))),
    {
        if self.password_digest.is_none() {
            return true;
        }
        let t = match supplied {
            Some(t) => t,
            None => return false,
        };
        let mut i: usize = 0;
        while i < self.sessions.len()
            invariant
                i <= self.sessions@.len(),
                supplied == Some(t),
                forall|k: int| 0 <= k < i ==> self.sessions@[k]@ != t@,
            decreases self.sessions.len() - i,
        {
            if crate::text::str_eq(self.sessions[i].as_str(), t) {
                assert(self.tokens()[i as int] == t@);
                return true;
            }
            i = i + 1;
        }
        assert forall|k: int| 0 <= k < self.tokens().len() implies self.tokens()[k] != t@ by {}
        false
    }

    fn set_attempt(&mut self, peer: &str, attempt: LoginAttempt)
        requires
            old(self).wf(),
        ensures
            final(self).wf(),
            final(self).attempt_of(peer@) == Some(attempt),
            forall|other: Seq<char>| other != peer@ ==> final(self).attempt_of(other) == old(self).attempt_of(other),
            final(self).tokens() == old(self).tokens(),
            final(self).digest() == old(self).digest(),
    {
        let ghost before = self.attempts@;
        let mut i: usize = 0;
        while i < self.attempts.len() && !crate::text::str_eq(self.attempts[i].0.as_str(), peer)
            invariant
                i <= self.attempts@.len(),
                self.attempts@ == before,
                forall|k: int| 0 <= k < i ==> #[trigger] before[k].0@ != peer@,
            decreases self.attempts.len() - i,
        {
            i = i + 1;
        }
        let key = crate::text::string_of(&crate::text::chars_of(peer));
        let ghost pos = i as int;
        if i < self.attempts.len() {
            self.attempts.set(i, (key, attempt));
        } else {
            self.attempts.push((key, attempt));
        }
        proof {
            let a = self.attempts@;
            assert(a[pos].0@ == peer@ && a[pos].1 == attempt);
            assert forall|k: int| 0 <= k < before.len() && k != pos implies #[trigger] a[k] == before[k] by {}
            if pos < before.len() {
                assert(before[pos].0@ == peer@);
            }
            assert forall|k: int| 0 <= k < a.len() && k != pos implies #[trigger] a[k].0@ != peer@ by {
                if pos < before.len() {
                    assert(before[k].0@ != before[pos].0@);
                }
            }
            assert forall|x: int, y: int|
                0 <= x < a.len() && 0 <= y < a.len() && x != y implies #[trigger] a[x].0@ != #[trigger] a[y].0@ by {
                if x != pos && y != pos {
                    assert(before[x].0@ != before[y].0@);
                }
            }
            let j = choose|j: int| 0 <= j < a.len() && #[trigger] a[j].0@ == peer@;
            assert(j == pos);
            assert forall|other: Seq<char>| other != peer@ implies self.attempt_of(other) == old(self).attempt_of(other) by {
                if exists|k: int| 0 <= k < before.len() && #[trigger] before[k].0@ == other {
                    let k0 = choose|k: int| 0 <= k < before.len() && #[trigger] before[k].0@ == other;
                    assert(k0 != pos);
                    assert(a[k0] == before[k0]);
                    let k1 = choose|k: int| 0 <= k < a.len() && #[trigger] a[k].0@ == other;
                    assert(k1 != pos);
                    assert(a[k1] == before[k1]);
                    assert(k0 == k1);
                } else {
                    assert forall|k: int| 0 <= k < a.len() implies #[trigger] a[k].0@ != other by {
                        if k != pos {
                            assert(a[k] == before[k]);
                        }
                    }
                }
            }
        }
    }

    fn lookup_attempt(&self, peer: &str) -> (r: Option<LoginAttempt>)
        requires
            self.wf(),
        ensures
            r == self.attempt_of(peer@),
    {
        let mut i: usize = 0;
        while i < self.attempts.len()
            invariant
                self.wf(),
                i <= self.attempts@.len(),
                forall|k: int| 0 <= k < i ==> #[trigger] self.attempts@[k].0@ != peer@,
            decreases self.attempts.len() - i,
        {
            if crate::text::str_eq(self.attempts[i].0.as_str(), peer) {
                proof {
                    let j = choose|j: int|
                        0 <= j < self.attempts@.len() && #[trigger] self.attempts@[j].0@ == peer@;
                    assert(self.attempts@[i as int].0@ == peer@);
                    assert(j == i);
                }
                return Some(self.attempts[i].1);
            }
            i = i + 1;
        }
        None
    }

    fn digest_matches(&self, supplied: &Vec<u8>) -> (r: bool)
        requires
            self.digest() is Some,
        ensures
            r == (self.digest() == Some(supplied@)),
    {
        let expected = match &self.password_digest {
            Some(d) => d,
            None => return false,
        };
        if expected.len() != supplied.len() {
            return false;
        }
        let mut same = true;
        let mut i: usize = 0;
        while i < expected.len()
            invariant
                i <= expected@.len(),
                expected@.len() == supplied@.len(),
                same == forall|k: int| 0 <= k < i ==> expected@[k] == supplied@[k],
            decreases expected.len() - i,
        {
            same = same && expected[i] == supplied[i];
            i = i + 1;
        }
        if same {
            assert(expected@ =~= supplied@);
        }
        same
    }

    /// A login from `peer` at `now`; `new_token` is the session token to
    /// issue when the password is right. Without a password every login
    /// succeeds with an empty token. A peer with `LOGIN_ATTEMPT_LIMIT`
    /// failures in the current window is refused before the password is
    /// looked at; a wrong password counts one more failure.
    pub fn login(&mut self, peer: &str, password: &str, now: u64, new_token: String) -> (r: Result<
        String,
        LoginFailure,
    >)
        requires
            old(self).wf(),
        ensures
            final(self).wf(),
            final(self).digest() == old(self).digest(),
            match old(self).digest() {
                None => r matches Ok(t) && t@ == Seq::<char>::empty() && final(self).tokens()
                    == old(self).tokens() && forall|p: Seq<char>|
                    final(self).attempt_of(p) == old(self).attempt_of(p),
                Some(d) => {
                    let a = window_checked(old(self).attempt_of(peer@), now);
                    &&& forall|p: Seq<char>|
                        p != peer@ ==> final(self).attempt_of(p) == old(self).attempt_of(p)
                    &&& if a.failures >= LOGIN_ATTEMPT_LIMIT {
                        &&& r == Err::<String, LoginFailure>(LoginFailure::RateLimited)
                        &&& final(self).attempt_of(peer@) == Some(a)
                        &&& final(self).tokens() == old(self).tokens()
                    } else if sha256_of_text(password@) != d {
                        &&& r == Err::<String, LoginFailure>(LoginFailure::Invalid)
                        &&& final(self).attempt_of(peer@) == Some(
                            LoginAttempt {
                                window_started: a.window_started,
                                failures: (a.failures + 1) as u8,
                            },
                        )
                        &&& final(self).tokens() == old(self).tokens()
                    } else {
                        &&& r matches Ok(t) && t@ == new_token@
                        &&& final(self).attempt_of(peer@) == Some(a)
                        &&& final(self).tokens() == sessions_after_login(old(self).tokens(), new_token@)
                    }
                },
            },
    {
        if self.password_digest.is_none() {
            return Ok(String::new());
        }
        let current = self.lookup_attempt(peer);
        let mut a = match current {
            Some(e) => e,
            None => LoginAttempt { window_started: now, failures: 0 },
        };
        if now >= a.window_started && now - a.window_started >= LOGIN_WINDOW_MILLIS {
            a = LoginAttempt { window_started: now, failures: 0 };
        }
        self.set_attempt(peer, a);
        if a.failures >= LOGIN_ATTEMPT_LIMIT {
            return Err(LoginFailure::RateLimited);
        }
        let supplied = sha256_text(password);
        if !self.digest_matches(&supplied) {
            let failed = LoginAttempt { window_started: a.window_started, failures: a.failures + 1 };
            self.set_attempt(peer, failed);
            return Err(LoginFailure::Invalid);
        }
        let token = new_token.clone();
        let ghost before = self.sessions@;
        let ghost toks = self.tokens();
        let ghost after_check = *self;
        assert(toks == old(self).tokens());
        assert(after_check.attempt_of(peer@) == Some(a));
        self.sessions.push(new_token);
        proof {
            assert(session_views(self.sessions@) =~= session_views(before).push(token@));
        }
        if self.sessions.len() > MAX_WEB_SESSIONS {
            let ghost full = self.sessions@;
            let _ = self.sessions.remove(0);
            proof {
                assert(session_views(self.sessions@) =~= session_views(full).drop_first());
            }
        }
        assert(self.tokens() == sessions_after_login(toks, new_token@));
        assert(self.attempts@ == after_check.attempts@);
        assert(self.attempt_of(peer@) == Some(a));
        Ok(token)
    }
}

/// A peer that reached `LOGIN_ATTEMPT_LIMIT` failures is locked out, right
/// password or not, until its window is over; once it is over, the count
/// starts again from zero.
pub proof fn login_lockout_lasts_one_window(attempt: LoginAttempt, now: u64)
    requires
        attempt.failures >= LOGIN_ATTEMPT_LIMIT,
    ensures
        (now < attempt.window_started + LOGIN_WINDOW_MILLIS) ==> window_checked(Some(attempt), now).failures
            >= LOGIN_ATTEMPT_LIMIT,
        (now >= attempt.window_started + LOGIN_WINDOW_MILLIS) ==> window_checked(Some(attempt), now).failures
            == 0,
{
}

} // verus!
