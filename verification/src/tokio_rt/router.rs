//! The listener's routing of datagrams on a shared socket: to the session
//! of their `(peer address, conversation id)`, to a new session, or
//! nowhere.
//!
//! A session whose receiver went away is remembered as closed for a
//! minute, so that late retransmissions of its peer do not open a new
//! session in its place.

use vstd::prelude::*;
use super::addr::{PeerAddr, SessionKey};
use crate::kcp_core::Kcp;
use crate::sys::codec::read_u32_le;
use crate::sys::IKCP_OVERHEAD;

verus! {

/// How long a closed session is remembered, in nanoseconds.
pub const CLOSED_SESSION_TTL_NS: u128 = 60_000_000_000;

/// Above this many remembered closed sessions, the expired ones are
/// forgotten.
pub const CLOSED_SESSION_PRUNE_LEN: usize = 100;

/// Where a datagram goes.
pub enum Route {
    /// Nowhere: too short for a header, or of a recently closed session.
    Drop,
    /// To the live session at this position of the router.
    Forward(usize),
    /// To a new session with this key, which the caller creates and then
    /// registers.
    Create(SessionKey),
}

/// What the contracts of a [`SessionRouter`] speak of: the live sessions
/// with what reaches each, and the closed ones with the time each closed.
pub struct RouterState<T> {
    pub sessions: Seq<(SessionKey, T)>,
    pub closed: Seq<(SessionKey, u128)>,
}

/// Whether some entry of `s` has key `k`.
pub open spec fn has_key<V>(s: Seq<(SessionKey, V)>, k: SessionKey) -> bool {
    exists|i: int| 0 <= i < s.len() && s[i].0 == k
}

/// Whether no two entries of `s` have the same key.
pub open spec fn unique_keys<V>(s: Seq<(SessionKey, V)>) -> bool {
    forall|i: int, j: int| 0 <= i < j < s.len() ==> s[i].0 != s[j].0
}

/// The position of the entry with key `k` in `s`, when there is one.
pub open spec fn key_index<V>(s: Seq<(SessionKey, V)>, k: SessionKey) -> int {
    choose|i: int| 0 <= i < s.len() && s[i].0 == k
}

/// `s` without its entry of key `k`.
pub open spec fn without_key<V>(s: Seq<(SessionKey, V)>, k: SessionKey) -> Seq<(SessionKey, V)> {
    if has_key(s, k) {
        s.remove(key_index(s, k))
    } else {
        s
    }
}

/// Whether a session closed at `t` is still remembered at `now`.
pub open spec fn recent(t: u128, now: u128) -> bool {
    now - t < CLOSED_SESSION_TTL_NS
}

/// The entries of `c` still remembered at `now`, in order.
pub open spec fn keep_recent(c: Seq<(SessionKey, u128)>, now: u128) -> Seq<(SessionKey, u128)>
    decreases c.len(),
{
    if c.len() == 0 {
        c
    } else {
        let r = keep_recent(c.drop_last(), now);
        if recent(c.last().1, now) {
            r.push(c.last())
        } else {
            r
        }
    }
}

/// `c` with the expired entries forgotten when it has grown too long.
pub open spec fn prune(c: Seq<(SessionKey, u128)>, now: u128) -> Seq<(SessionKey, u128)> {
    if c.len() > CLOSED_SESSION_PRUNE_LEN {
        keep_recent(c, now)
    } else {
        c
    }
}

/// Whether `c` remembers `k` as closed at `now`.
pub open spec fn closed_recently(c: Seq<(SessionKey, u128)>, k: SessionKey, now: u128) -> bool {
    exists|i: int| 0 <= i < c.len() && c[i].0 == k && recent(c[i].1, now)
}

/// The key of a datagram from `addr` (at least a header long).
pub open spec fn key_of(addr: PeerAddr, packet: Seq<u8>) -> SessionKey {
    SessionKey { addr, conv: read_u32_le(packet, 0) }
}

/// Whether a datagram of key `k` at `now` is dropped by a router in
/// state `s`: it belongs to no live session and to a recently closed one.
pub open spec fn drops<T>(s: RouterState<T>, k: SessionKey, now: u128) -> bool {
    !has_key(s.sessions, k) && closed_recently(s.closed, k, now)
}

/// The state after a datagram of key `k` that opens a new session at
/// `now`: the key is no longer remembered as closed, and the expired
/// entries may be forgotten.
pub open spec fn after_create<T>(s: RouterState<T>, k: SessionKey, now: u128) -> RouterState<T> {
    RouterState { sessions: s.sessions, closed: prune(without_key(s.closed, k), now) }
}

/// The state after the session of key `k` went away at `now`.
pub open spec fn after_failure<T>(s: RouterState<T>, k: SessionKey, now: u128) -> RouterState<T> {
    RouterState {
        sessions: without_key(s.sessions, k),
        closed: without_key(s.closed, k).push((k, now)),
    }
}

/// The state after a session of key `k` reached by `v` was registered.
pub open spec fn after_register<T>(s: RouterState<T>, k: SessionKey, v: T) -> RouterState<T> {
    RouterState { sessions: without_key(s.sessions, k).push((k, v)), closed: s.closed }
}

/// `without_key` keeps keys unique and removes exactly `k`.
proof fn lemma_without_key<V>(s: Seq<(SessionKey, V)>, k: SessionKey)
    requires
        unique_keys(s),
    ensures
        unique_keys(without_key(s, k)),
        !has_key(without_key(s, k), k),
        forall|j: SessionKey| j != k ==> (has_key(without_key(s, k), j) == has_key(s, j)),
{
    if has_key(s, k) {
        let x = key_index(s, k);
        assert(0 <= x < s.len() && s[x].0 == k);
        s.remove_ensures(x);
        let t = s.remove(x);
        assert forall|i: int, j: int| 0 <= i < j < t.len() implies t[i].0 != t[j].0 by {
            let a = if i < x {
                i
            } else {
                i + 1
            };
            let b = if j < x {
                j
            } else {
                j + 1
            };
            assert(s[a] == t[i]);
            assert(s[b] == t[j]);
        }
        assert forall|j: SessionKey| j != k implies (has_key(t, j) == has_key(s, j)) by {
            if has_key(s, j) {
                let m = choose|m: int| 0 <= m < s.len() && s[m].0 == j;
                if m < x {
                    assert(t[m].0 == j);
                } else {
                    assert(m != x);
                    assert(t[m - 1].0 == j);
                }
            }
            if has_key(t, j) {
                let m = choose|m: int| 0 <= m < t.len() && t[m].0 == j;
                if m < x {
                    assert(s[m].0 == j);
                } else {
                    assert(s[m + 1].0 == j);
                }
            }
        }
        assert(!has_key(t, k)) by {
            if has_key(t, k) {
                let m = choose|m: int| 0 <= m < t.len() && t[m].0 == k;
                if m < x {
                    assert(s[m].0 == k);
                } else {
                    assert(s[m + 1].0 == k);
                }
            }
        }
    }
}

/// Pushing an entry of a key not present keeps keys unique.
proof fn lemma_push_unique<V>(s: Seq<(SessionKey, V)>, e: (SessionKey, V))
    requires
        unique_keys(s),
        !has_key(s, e.0),
    ensures
        unique_keys(s.push(e)),
        forall|j: SessionKey| has_key(s.push(e), j) == (has_key(s, j) || j == e.0),
{
    let t = s.push(e);
    assert forall|i: int, j: int| 0 <= i < j < t.len() implies t[i].0 != t[j].0 by {
        if j == s.len() {
            assert(s[i].0 != e.0);
        }
    }
    assert forall|j: SessionKey| has_key(t, j) == (has_key(s, j) || j == e.0) by {
        if has_key(s, j) {
            let m = choose|m: int| 0 <= m < s.len() && s[m].0 == j;
            assert(t[m].0 == j);
        }
        if j == e.0 {
            assert(t[s.len() as int].0 == j);
        }
        if has_key(t, j) && j != e.0 {
            let m = choose|m: int| 0 <= m < t.len() && t[m].0 == j;
            assert(m < s.len());
            assert(s[m].0 == j);
        }
    }
}

/// Every entry of `keep_recent(c, now)` is recent and comes from `c`, and
/// keys stay unique.
proof fn lemma_keep_recent(c: Seq<(SessionKey, u128)>, now: u128)
    requires
        unique_keys(c),
    ensures
        unique_keys(keep_recent(c, now)),
        forall|j: SessionKey| has_key(keep_recent(c, now), j) ==> has_key(c, j),
        forall|i: int|
            0 <= i < keep_recent(c, now).len() ==> recent(#[trigger] keep_recent(c, now)[i].1, now),
    decreases c.len(),
{
    if c.len() > 0 {
        let p = c.drop_last();
        assert(unique_keys(p));
        lemma_keep_recent(p, now);
        let r = keep_recent(p, now);
        assert forall|j: SessionKey| has_key(p, j) implies has_key(c, j) by {
            let m = choose|m: int| 0 <= m < p.len() && p[m].0 == j;
            assert(c[m].0 == j);
        }
        if recent(c.last().1, now) {
            assert(!has_key(p, c.last().0)) by {
                if has_key(p, c.last().0) {
                    let m = choose|m: int| 0 <= m < p.len() && p[m].0 == c.last().0;
                    assert(c[m].0 == c[c.len() - 1].0);
                }
            }
            lemma_push_unique(r, c.last());
            assert(has_key(c, c.last().0)) by {
                assert(c[c.len() - 1].0 == c.last().0);
            }
        }
    }
}

/// The position of the entry of key `k` in `s`.
fn find_key<V>(s: &Vec<(SessionKey, V)>, k: &SessionKey) -> (r: Option<usize>)
    requires
        unique_keys(s@),
    ensures
        r is None <==> !has_key(s@, *k),
        r matches Some(i) ==> i < s@.len() && s@[i as int].0 == *k && i == key_index(s@, *k),
{
    let mut i: usize = 0;
    while i < s.len()
        invariant
            i <= s@.len(),
            unique_keys(s@),
            forall|m: int| 0 <= m < i ==> s@[m].0 != *k,
        decreases s@.len() - i,
    {
        if s[i].0 == *k {
            assert(has_key(s@, *k)) by {
                assert(s@[i as int].0 == *k);
            }
            let ghost x = key_index(s@, *k);
            proof {
                assert(0 <= x < s@.len() && s@[x].0 == *k);
                if x < i as int {
                    assert(s@[x].0 != s@[i as int].0);
                }
                if x > i as int {
                    assert(s@[i as int].0 != s@[x].0);
                }
            }
            return Some(i);
        }
        i = i + 1;
    }
    None
}

/// The entries of `c` still remembered at `now_ns`, in order.
fn keep_recent_entries(c: &Vec<(SessionKey, u128)>, now_ns: u128) -> (kept: Vec<(SessionKey, u128)>)
    ensures
        kept@ == keep_recent(c@, now_ns),
{
    let mut kept: Vec<(SessionKey, u128)> = Vec::new();
    let mut i: usize = 0;
    while i < c.len()
        invariant
            i <= c@.len(),
            kept@ == keep_recent(c@.take(i as int), now_ns),
        decreases c@.len() - i,
    {
        let e = c[i];
        assert(c@.take(i + 1).drop_last() =~= c@.take(i as int));
        if now_ns < e.1 || now_ns - e.1 < CLOSED_SESSION_TTL_NS {
            kept.push(e);
        }
        i = i + 1;
    }
    assert(c@.take(c@.len() as int) =~= c@);
    kept
}

/// Every entry of `without_key(s, k)` is an entry of `s`.
proof fn lemma_entry_in_without<V>(s: Seq<(SessionKey, V)>, k: SessionKey, n: int)
    requires
        0 <= n < without_key(s, k).len(),
    ensures
        exists|m: int| 0 <= m < s.len() && s[m] == without_key(s, k)[n],
{
    if has_key(s, k) {
        let x = key_index(s, k);
        s.remove_ensures(x);
        if n < x {
            assert(s[n] == without_key(s, k)[n]);
        } else {
            assert(s[n + 1] == without_key(s, k)[n]);
        }
    } else {
        assert(s[n] == without_key(s, k)[n]);
    }
}

/// A recent entry of `c` stays in `keep_recent(c, now)`.
proof fn lemma_recent_kept(c: Seq<(SessionKey, u128)>, n: int, now: u128)
    requires
        0 <= n < c.len(),
        recent(c[n].1, now),
    ensures
        closed_recently(keep_recent(c, now), c[n].0, now),
        closed_recently(prune(c, now), c[n].0, now),
    decreases c.len(),
{
    let p = c.drop_last();
    let r = keep_recent(p, now);
    if n == c.len() - 1 {
        let q = r.push(c.last());
        assert(q[r.len() as int] == c[n]);
    } else {
        assert(p[n] == c[n]);
        lemma_recent_kept(p, n, now);
        if recent(c.last().1, now) {
            let m = choose|m: int| 0 <= m < r.len() && r[m].0 == c[n].0 && recent(r[m].1, now);
            assert(r.push(c.last())[m] == r[m]);
        }
    }
    assert(closed_recently(c, c[n].0, now));
}

/// Once the session of key `k` has gone away at `t`, datagrams of key `k`
/// are dropped for as long as it is remembered: late retransmissions do
/// not open a new session in its place.
pub proof fn law_failed_session_stays_closed<T>(s: RouterState<T>, k: SessionKey, t: u128, now: u128)
    requires
        unique_keys(s.sessions),
        unique_keys(s.closed),
        recent(t, now),
    ensures
        drops(after_failure(s, k, t), k, now),
{
    lemma_without_key(s.sessions, k);
    let c = without_key(s.closed, k).push((k, t));
    assert(c[c.len() - 1] == (k, t));
}

/// Once a session of key `k` is registered, every datagram of key `k` is
/// forwarded to it.
pub proof fn law_registered_session_receives<T>(s: RouterState<T>, k: SessionKey, v: T)
    requires
        unique_keys(s.sessions),
    ensures
        ({
            let post = after_register(s, k, v).sessions;
            &&& has_key(post, k)
            &&& post[key_index(post, k)] == (k, v)
        }),
{
    lemma_without_key(s.sessions, k);
    let w = without_key(s.sessions, k);
    lemma_push_unique(w, (k, v));
    let post = w.push((k, v));
    assert(post[w.len() as int].0 == k);
    let x = key_index(post, k);
    assert(0 <= x < post.len() && post[x].0 == k);
    if x < w.len() {
        assert(post[x].0 != post[w.len() as int].0);
    }
}

/// A datagram that opens a session leaves its key no longer remembered
/// as closed, and the other remembered sessions that are still recent
/// stay remembered.
pub proof fn law_create_forgets_key<T>(s: RouterState<T>, k: SessionKey, now: u128)
    requires
        unique_keys(s.closed),
    ensures
        !has_key(after_create(s, k, now).closed, k),
        forall|j: SessionKey|
            j != k && closed_recently(s.closed, j, now) ==> closed_recently(
                after_create(s, k, now).closed,
                j,
                now,
            ),
{
    lemma_without_key(s.closed, k);
    let w = without_key(s.closed, k);
    assert forall|j: SessionKey|
        j != k && closed_recently(s.closed, j, now) implies closed_recently(
            after_create(s, k, now).closed,
            j,
            now,
        ) by {
        let m = choose|m: int| 0 <= m < s.closed.len() && s.closed[m].0 == j && recent(s.closed[m].1, now);
        assert(has_key(s.closed, j)) by {
            assert(s.closed[m].0 == j);
        }
        assert(has_key(w, j));
        let n = choose|n: int| 0 <= n < w.len() && w[n].0 == j;
        lemma_entry_in_without(s.closed, k, n);
        let m2 = choose|m2: int| 0 <= m2 < s.closed.len() && s.closed[m2] == w[n];
        if m2 != m {
            if m2 < m {
                assert(s.closed[m2].0 != s.closed[m].0);
            } else {
                assert(s.closed[m].0 != s.closed[m2].0);
            }
        }
        assert(recent(w[n].1, now));
        lemma_recent_kept(w, n, now);
    }
    if has_key(after_create(s, k, now).closed, k) {
        lemma_keep_recent(w, now);
    }
}

/// The routing state of a listener: its live sessions, each with what
/// reaches it (`T`), and its recently closed sessions.
pub struct SessionRouter<T> {
    sessions: Vec<(SessionKey, T)>,
    closed: Vec<(SessionKey, u128)>,
}

impl<T> View for SessionRouter<T> {
    type V = RouterState<T>;

    closed spec fn view(&self) -> RouterState<T> {
        RouterState { sessions: self.sessions@, closed: self.closed@ }
    }
}

impl<T> SessionRouter<T> {
    #[verifier::type_invariant]
    spec fn inv(self) -> bool {
        unique_keys(self.sessions@) && unique_keys(self.closed@)
    }

    /// A router with no sessions.
    pub fn new() -> (r: SessionRouter<T>)
        ensures
            r@.sessions.len() == 0,
            r@.closed.len() == 0,
    {
        SessionRouter { sessions: Vec::new(), closed: Vec::new() }
    }

    /// What reaches the live session at position `i`, if there is one.
    pub fn get(&self, i: usize) -> (r: Option<&T>)
        ensures
            i < self@.sessions.len() ==> r == Some(&self@.sessions[i as int].1),
            i >= self@.sessions.len() ==> r is None,
    {
        if i < self.sessions.len() {
            Some(&self.sessions[i].1)
        } else {
            None
        }
    }

    /// The number of live sessions.
    pub fn len(&self) -> (n: usize)
        ensures
            n == self@.sessions.len(),
    {
        self.sessions.len()
    }

    /// Decides where a datagram from `addr` received at `now_ns` goes:
    /// nowhere when it is shorter than a header; to its live session; nowhere
    /// when its session closed less than [`CLOSED_SESSION_TTL_NS`] ago;
    /// else to a new session, after which the key is no longer
    /// remembered as closed.
    pub fn route(&mut self, addr: PeerAddr, packet: &[u8], now_ns: u128) -> (r: Route)
        ensures
            packet@.len() < IKCP_OVERHEAD ==> r is Drop && final(self)@ == old(self)@,
            packet@.len() >= IKCP_OVERHEAD ==> {
                let k = key_of(addr, packet@);
                if has_key(old(self)@.sessions, k) {
                    &&& r matches Route::Forward(i) && i == key_index(old(self)@.sessions, k)
                    &&& final(self)@ == old(self)@
                } else if drops(old(self)@, k, now_ns) {
                    r is Drop && final(self)@ == old(self)@
                } else {
                    r == Route::Create(k) && final(self)@ == after_create(old(self)@, k, now_ns)
                }
            },
            unique_keys(final(self)@.sessions) && unique_keys(final(self)@.closed),
    {
        proof {
            use_type_invariant(&*self);
        }
        if packet.len() < IKCP_OVERHEAD {
            return Route::Drop;
        }
        let key = SessionKey { addr, conv: Kcp::get_conv(packet) };
        if let Some(i) = find_key(&self.sessions, &key) {
            return Route::Forward(i);
        }
        let mut closed: Vec<(SessionKey, u128)> = Vec::new();
        if let Some(j) = find_key(&self.closed, &key) {
            let t = self.closed[j].1;
            if now_ns < t || now_ns - t < CLOSED_SESSION_TTL_NS {
                assert(closed_recently(self@.closed, key, now_ns)) by {
                    assert(self.closed@[j as int].0 == key);
                }
                return Route::Drop;
            }
            assert(!closed_recently(self@.closed, key, now_ns)) by {
                if closed_recently(self@.closed, key, now_ns) {
                    let m = choose|m: int|
                        0 <= m < self.closed@.len() && self.closed@[m].0 == key && recent(
                            self.closed@[m].1,
                            now_ns,
                        );
                    assert(m == j as int);
                }
            }
            std::mem::swap(&mut closed, &mut self.closed);
            closed.remove(j);
        } else {
            assert(!closed_recently(self@.closed, key, now_ns));
            std::mem::swap(&mut closed, &mut self.closed);
        }
        proof {
            lemma_without_key(old(self)@.closed, key);
        }
        if closed.len() > CLOSED_SESSION_PRUNE_LEN {
            proof {
                lemma_keep_recent(closed@, now_ns);
            }
            closed = keep_recent_entries(&closed, now_ns);
        }
        std::mem::swap(&mut closed, &mut self.closed);
        Route::Create(key)
    }

    /// The session of key `k` went away at `now_ns` (its receiver is gone):
    /// it is no longer live, and it is remembered as closed at `now_ns`.
    pub fn forward_failed(&mut self, k: SessionKey, now_ns: u128)
        ensures
            final(self)@ == after_failure(old(self)@, k, now_ns),
            unique_keys(final(self)@.sessions) && unique_keys(final(self)@.closed),
    {
        proof {
            use_type_invariant(&*self);
            lemma_without_key(self.sessions@, k);
            lemma_without_key(self.closed@, k);
            lemma_push_unique(without_key(self.closed@, k), (k, now_ns));
        }
        let mut sessions: Vec<(SessionKey, T)> = Vec::new();
        std::mem::swap(&mut sessions, &mut self.sessions);
        if let Some(i) = find_key(&sessions, &k) {
            sessions.remove(i);
        }
        std::mem::swap(&mut sessions, &mut self.sessions);
        let mut closed: Vec<(SessionKey, u128)> = Vec::new();
        std::mem::swap(&mut closed, &mut self.closed);
        if let Some(j) = find_key(&closed, &k) {
            closed.remove(j);
        }
        closed.push((k, now_ns));
        std::mem::swap(&mut closed, &mut self.closed);
    }

    /// Registers the live session of key `k`, reached by `v`, in place of
    /// any earlier one of that key.
    pub fn register(&mut self, k: SessionKey, v: T)
        ensures
            final(self)@ == after_register(old(self)@, k, v),
            unique_keys(final(self)@.sessions) && unique_keys(final(self)@.closed),
    {
        proof {
            use_type_invariant(&*self);
            lemma_without_key(self.sessions@, k);
            lemma_push_unique(without_key(self.sessions@, k), (k, v));
        }
        let mut sessions: Vec<(SessionKey, T)> = Vec::new();
        std::mem::swap(&mut sessions, &mut self.sessions);
        if let Some(i) = find_key(&sessions, &k) {
            sessions.remove(i);
        }
        sessions.push((k, v));
        std::mem::swap(&mut sessions, &mut self.sessions);
    }
}

} // verus!
