//! The session store: which keys are authorised, and until when.
//!
//! The store is a map from key to the instant at which the session expires,
//! in nanoseconds on the clock of `crate::clock`. Registering a key that is
//! already there never shortens its life; the sweep removes exactly what has
//! expired. Each operation comes in two forms: one that takes the present
//! instant as an argument, with an exact contract, and one that reads the
//! clock and then does the same.

use crate::clock::precise_time_ns;
use crate::details::{FlowNoSrcPort, SessionDetails};
use vstd::hash_map::StringHashMap;
use vstd::prelude::*;
use vstd::set_lib::lemma_set_difference_len;

verus! {

/// Nanoseconds in a second.
pub const S2NS: u64 = 1000 * 1000 * 1000;

/// The time that a session is kept beyond its timeout while it still carries
/// traffic: 300 seconds, in nanoseconds.
pub const TIMEOUT_PHANTOMS_NS: u64 = 300 * S2NS;

/// The port that phantoms are reached at.
pub const DEFAULT_PHANTOM_PORT: u16 = 443;

/// The instant at which a session expires that is registered at `now` with
/// `timeout`: `now + timeout`, or the last instant that the clock can show
/// where the sum lies beyond it.
pub open spec fn expiry_after(now: u64, timeout: u64) -> u64 {
    if now + timeout > u64::MAX {
        u64::MAX
    } else {
        (now + timeout) as u64
    }
}

/// The store `m` after a registration of `key` that expires at `expiry`: a
/// new key is entered, and a key that is there keeps the later of its two
/// expiry instants.
pub open spec fn merged(m: Map<Seq<char>, u64>, key: Seq<char>, expiry: u64) -> Map<
    Seq<char>,
    u64,
> {
    if m.contains_key(key) && m[key] >= expiry {
        m
    } else {
        m.insert(key, expiry)
    }
}

/// The store `m` after traffic was seen on `key`: a key that is there keeps
/// the later of its expiry instant and `expiry`; a key that is not there is
/// not entered.
pub open spec fn extended(m: Map<Seq<char>, u64>, key: Seq<char>, expiry: u64) -> Map<
    Seq<char>,
    u64,
> {
    if m.contains_key(key) {
        merged(m, key, expiry)
    } else {
        m
    }
}

/// The keys of `m` whose sessions have expired at `now`.
pub open spec fn stale(m: Map<Seq<char>, u64>, now: u64) -> Set<Seq<char>> {
    Set::new(|k: Seq<char>| m.contains_key(k) && m[k] <= now)
}

/// The store `m` after a sweep at `now`: the sessions that expire later than
/// `now`, each as it was.
pub open spec fn swept(m: Map<Seq<char>, u64>, now: u64) -> Map<Seq<char>, u64> {
    Map::new(|k: Seq<char>| m.contains_key(k) && m[k] > now, |k: Seq<char>| m[k])
}

/// The texts of the keys `keys`.
spec fn key_views(keys: Seq<String>) -> Seq<Seq<char>> {
    Seq::new(keys.len(), |i: int| keys[i]@)
}

/// Whether `keys` lists the keys of `sessions`, each once.
spec fn lists_keys(sessions: Map<Seq<char>, u64>, keys: Seq<String>) -> bool {
    &&& key_views(keys).no_duplicates()
    &&& key_views(keys).to_set() == sessions.dom()
}

/// A sequence without repetition stays so when an item that it lacks is
/// appended, and then holds that item too.
proof fn lemma_distinct_push(s: Seq<Seq<char>>, x: Seq<char>)
    requires
        s.no_duplicates(),
        !s.contains(x),
    ensures
        s.push(x).no_duplicates(),
        s.push(x).to_set() == s.to_set().insert(x),
{
    let t = s.push(x);
    assert forall|i: int, j: int| 0 <= i < t.len() && 0 <= j < t.len() && i != j implies t[i]
        != t[j] by {
        if i < s.len() && j < s.len() {
        } else if i < s.len() {
            assert(s.contains(s[i]));
        } else {
            assert(s.contains(s[j]));
        }
    }
    assert forall|a: Seq<char>| t.to_set().contains(a) <==> s.to_set().insert(x).contains(a) by {
        if t.contains(a) {
            let i = choose|i: int| 0 <= i < t.len() && t[i] == a;
            if i < s.len() {
                assert(s[i] == a);
            }
        }
        if s.contains(a) {
            let i = choose|i: int| 0 <= i < s.len() && s[i] == a;
            assert(t[i] == a);
        }
        if a == x {
            assert(t[s.len() as int] == a);
        }
    }
    assert(t.to_set() =~= s.to_set().insert(x));
}

/// A sequence without repetition stays so when the item at `p` gives way to
/// the last item, and then lacks the item that was at `p`.
proof fn lemma_distinct_swap_remove(s: Seq<Seq<char>>, p: int)
    requires
        s.no_duplicates(),
        0 <= p < s.len(),
    ensures
        s.update(p, s.last()).drop_last().no_duplicates(),
        s.update(p, s.last()).drop_last().to_set() == s.to_set().remove(s[p]),
{
    let t = s.update(p, s.last()).drop_last();
    let last = s.len() - 1;
    assert forall|i: int| 0 <= i < t.len() implies t[i] == s[if i == p {
        last
    } else {
        i
    }] by {}
    assert forall|i: int, j: int| 0 <= i < t.len() && 0 <= j < t.len() && i != j implies t[i]
        != t[j] by {
        let a = if i == p {
            last
        } else {
            i
        };
        let b = if j == p {
            last
        } else {
            j
        };
        assert(t[i] == s[a] && t[j] == s[b]);
    }
    assert forall|a: Seq<char>| t.to_set().contains(a) <==> s.to_set().remove(s[p]).contains(
        a,
    ) by {
        if t.contains(a) {
            let i = choose|i: int| 0 <= i < t.len() && t[i] == a;
            let k = if i == p {
                last
            } else {
                i
            };
            assert(s[k] == a);
        }
        if s.contains(a) && a != s[p] {
            let k = choose|k: int| 0 <= k < s.len() && s[k] == a;
            let i = if k == last {
                p
            } else {
                k
            };
            assert(t[i] == a);
        }
    }
    assert(t.to_set() =~= s.to_set().remove(s[p]));
}

/// A store whose keys are listed holds as many sessions as the list is long.
proof fn lemma_listed_len(sessions: Map<Seq<char>, u64>, keys: Seq<String>)
    requires
        lists_keys(sessions, keys),
    ensures
        sessions.dom().finite(),
        sessions.len() == keys.len(),
{
    vstd::seq_lib::seq_to_set_is_finite(key_views(keys));
    key_views(keys).unique_seq_to_set();
}

/// Registers `key` until `expiry`.
fn merge_entry(sessions: &mut StringHashMap<u64>, keys: &mut Vec<String>, key: String, expiry: u64)
    requires
        lists_keys(old(sessions)@, old(keys)@),
    ensures
        lists_keys(final(sessions)@, final(keys)@),
        final(sessions)@ == merged(old(sessions)@, key@, expiry),
{
    let known: Option<u64> = match sessions.get(key.as_str()) {
        Some(v) => Some(*v),
        None => None,
    };
    match known {
        Some(v) => {
            if v < expiry {
                sessions.insert(key, expiry);
                assert(sessions@.dom() =~= old(sessions)@.dom());
            }
        },
        None => {
            let ghost ks = key_views(keys@);
            proof {
                if ks.contains(key@) {
                    assert(ks.to_set().contains(key@));
                }
                lemma_distinct_push(ks, key@);
            }
            keys.push(key.clone());
            sessions.insert(key, expiry);
            assert(key_views(keys@) =~= ks.push(key@));
        },
    }
}

/// Keeps `key`, if it is there, until `expiry` at least.
fn extend_entry(sessions: &mut StringHashMap<u64>, key: String, expiry: u64)
    ensures
        final(sessions)@ == extended(old(sessions)@, key@, expiry),
        final(sessions)@.dom() == old(sessions)@.dom(),
{
    let known: Option<u64> = match sessions.get(key.as_str()) {
        Some(v) => Some(*v),
        None => None,
    };
    match known {
        Some(v) => {
            if v < expiry {
                sessions.insert(key, expiry);
                assert(sessions@.dom() =~= old(sessions)@.dom());
            }
        },
        None => {},
    }
}

/// Takes `key` out, if it is there.
fn remove_entry(sessions: &mut StringHashMap<u64>, keys: &mut Vec<String>, key: String)
    requires
        lists_keys(old(sessions)@, old(keys)@),
    ensures
        lists_keys(final(sessions)@, final(keys)@),
        final(sessions)@ == old(sessions)@.remove(key@),
{
    let ghost ks = key_views(keys@);
    let n: usize = keys.len();
    let mut i: usize = 0;
    while i < n
        invariant
            i <= n,
            n == keys@.len(),
            keys@ == old(keys)@,
            sessions@ == old(sessions)@,
            ks == key_views(keys@),
            lists_keys(sessions@, keys@),
            forall|j: int| 0 <= j < i ==> ks[j] != key@,
        decreases n - i,
    {
        if keys[i] == key {
            proof {
                assert(ks[i as int] == key@);
                lemma_distinct_swap_remove(ks, i as int);
            }
            keys.swap_remove(i);
            sessions.remove(key.as_str());
            assert(key_views(keys@) =~= ks.update(i as int, ks.last()).drop_last());
            return ;
        }
        i += 1;
    }
    proof {
        if sessions@.contains_key(key@) {
            assert(ks.to_set().contains(key@));
            assert(ks.contains(key@));
        }
    }
    sessions.remove(key.as_str());
    assert(sessions@.dom() =~= old(sessions)@.dom());
}

/// Takes out every session that has expired at `now`, and returns how many
/// there were.
fn sweep(sessions: &mut StringHashMap<u64>, keys: &mut Vec<String>, now: u64) -> (dropped: usize)
    requires
        lists_keys(old(sessions)@, old(keys)@),
    ensures
        lists_keys(final(sessions)@, final(keys)@),
        final(sessions)@ == swept(old(sessions)@, now),
        dropped == stale(old(sessions)@, now).len(),
        dropped == old(sessions)@.len() - final(sessions)@.len(),
{
    let ghost m0 = sessions@;
    let before: usize = keys.len();
    let mut i: usize = 0;
    while i < keys.len()
        invariant
            i <= keys@.len() <= before,
            m0 == old(sessions)@,
            lists_keys(sessions@, keys@),
            forall|k: Seq<char>| #[trigger]
                sessions@.contains_key(k) ==> m0.contains_key(k) && sessions@[k] == m0[k],
            forall|k: Seq<char>| #[trigger]
                m0.contains_key(k) && m0[k] > now ==> sessions@.contains_key(k),
            forall|j: int| 0 <= j < i ==> m0[#[trigger] key_views(keys@)[j]] > now,
        decreases keys@.len() - i,
    {
        let ghost ks = key_views(keys@);
        proof {
            assert(ks.to_set().contains(ks[i as int]));
        }
        let live: bool = match sessions.get(keys[i].as_str()) {
            Some(v) => *v > now,
            None => false,
        };
        if live {
            i += 1;
        } else {
            sessions.remove(keys[i].as_str());
            keys.swap_remove(i);
            proof {
                lemma_distinct_swap_remove(ks, i as int);
                assert(key_views(keys@) =~= ks.update(i as int, ks.last()).drop_last());
            }
        }
    }
    proof {
        let ks = key_views(keys@);
        assert forall|x: Seq<char>| sessions@.contains_key(x) implies m0[x] > now by {
            assert(ks.to_set().contains(x));
            let j = choose|j: int| 0 <= j < ks.len() && ks[j] == x;
            assert(m0[key_views(keys@)[j]] > now);
        }
        assert(sessions@ =~= swept(m0, now));
        lemma_listed_len(m0, old(keys)@);
        lemma_listed_len(sessions@, keys@);
        assert(m0.dom().intersect(sessions@.dom()) =~= sessions@.dom());
        assert(m0.dom().difference(sessions@.dom()) =~= stale(m0, now));
        lemma_set_difference_len(m0.dom(), sessions@.dom());
    }
    before - keys.len()
}

/// The session store.
pub struct SessionTracker {
    /// The instant at which each session expires, by key.
    sessions: StringHashMap<u64>,
    /// The keys of `sessions`, each once: what the sweep walks through.
    keys: Vec<String>,
}

impl View for SessionTracker {
    type V = Map<Seq<char>, u64>;

    /// The store as a map from key to expiry instant.
    closed spec fn view(&self) -> Map<Seq<char>, u64> {
        self.sessions@
    }
}

impl SessionTracker {
    /// Whether the store is in order: every value that `new` or a method
    /// of the store has made is.
    pub closed spec fn wf(&self) -> bool {
        lists_keys(self.sessions@, self.keys@)
    }

    /// A store in order holds finitely many sessions.
    pub proof fn lemma_finite(&self)
        requires
            self.wf(),
        ensures
            self@.dom().finite(),
    {
        lemma_listed_len(self.sessions@, self.keys@);
    }

    /// An empty store.
    pub fn new() -> (r: SessionTracker)
        ensures
            r.wf(),
            r@ == Map::<Seq<char>, u64>::empty(),
    {
        let r = SessionTracker { sessions: StringHashMap::new(), keys: Vec::new() };
        assert(key_views(r.keys@).to_set() =~= r.sessions@.dom());
        r
    }

    /// How many sessions the store holds.
    pub fn len(&self) -> (r: usize)
        ensures
            r == self@.len(),
    {
        self.sessions.len()
    }

    /// Whether the store holds a session under the key `id`.
    pub fn session_exists(&self, id: &String) -> (r: bool)
        ensures
            r == self@.contains_key(id@),
    {
        self.sessions.contains_key(id.as_str())
    }

    /// Whether the store holds a session for `flow`. The answer does not
    /// look at the clock: a session that has expired is there until the
    /// next sweep.
    pub fn is_tracked_session(&self, flow: &FlowNoSrcPort) -> (r: bool)
        ensures
            r == self@.contains_key(flow.key()),
    {
        let key = flow.get_key();
        self.session_exists(&key)
    }

    /// Registers `session` at the instant `now`.
    pub fn insert_session_at(&mut self, session: SessionDetails, now: u64)
        requires
            old(self).wf(),
        ensures
            final(self).wf(),
            final(self)@ == merged(
                old(self)@,
                session.key(),
                expiry_after(now, session.timeout),
            ),
    {
        let key = session.get_key();
        let expiry: u64 = now.saturating_add(session.timeout);
        merge_entry(&mut self.sessions, &mut self.keys, key, expiry);
    }

    /// Keeps the session under `key`, if there is one, until `extra_time`
    /// after the instant `now` at least.
    pub fn try_update_session_timeout_at(&mut self, key: String, extra_time: u64, now: u64)
        requires
            old(self).wf(),
        ensures
            final(self).wf(),
            final(self)@ == extended(old(self)@, key@, expiry_after(now, extra_time)),
    {
        let expiry: u64 = now.saturating_add(extra_time);
        extend_entry(&mut self.sessions, key, expiry);
    }

    /// Notes at the instant `now` that `flow` still carries traffic: its
    /// session, if there is one, is kept for `TIMEOUT_PHANTOMS_NS` more at
    /// least.
    pub fn update_session_at(&mut self, flow: &FlowNoSrcPort, now: u64)
        requires
            old(self).wf(),
        ensures
            final(self).wf(),
            final(self)@ == extended(
                old(self)@,
                flow.key(),
                expiry_after(now, TIMEOUT_PHANTOMS_NS),
            ),
    {
        let key = flow.get_key();
        if !self.session_exists(&key) {
            return ;
        }
        self.try_update_session_timeout_at(key, TIMEOUT_PHANTOMS_NS, now);
    }

    /// Sweeps the store at the instant `now`: takes out every session that
    /// has expired, leaves the others as they are, and returns how many
    /// were taken out.
    pub fn drop_stale_sessions_at(&mut self, now: u64) -> (dropped: usize)
        requires
            old(self).wf(),
        ensures
            final(self).wf(),
            final(self)@ == swept(old(self)@, now),
            dropped == stale(old(self)@, now).len(),
            dropped == old(self)@.len() - final(self)@.len(),
    {
        sweep(&mut self.sessions, &mut self.keys, now)
    }

    /// Takes out the session of `session`, if there is one.
    pub fn _delete_session(&mut self, session: SessionDetails)
        requires
            old(self).wf(),
        ensures
            final(self).wf(),
            final(self)@ == old(self)@.remove(session.key()),
    {
        let key = session.get_key();
        remove_entry(&mut self.sessions, &mut self.keys, key);
    }

    /// Registers `session` at the present instant.
    pub fn insert_session(&mut self, session: SessionDetails)
        requires
            old(self).wf(),
        ensures
            final(self).wf(),
            exists|now: u64|
                final(self)@ == merged(
                    old(self)@,
                    session.key(),
                    #[trigger] expiry_after(now, session.timeout),
                ),
    {
        let now: u64 = precise_time_ns();
        self.insert_session_at(session, now);
    }

    /// Registers `det` at the present instant.
    pub fn add_session(&mut self, det: SessionDetails)
        requires
            old(self).wf(),
        ensures
            final(self).wf(),
            exists|now: u64|
                final(self)@ == merged(
                    old(self)@,
                    det.key(),
                    #[trigger] expiry_after(now, det.timeout),
                ),
    {
        self.insert_session(det)
    }

    /// Keeps the session under `key`, if there is one, until `extra_time`
    /// after the present instant at least.
    pub fn try_update_session_timeout(&mut self, key: String, extra_time: u64)
        requires
            old(self).wf(),
        ensures
            final(self).wf(),
            exists|now: u64|
                final(self)@ == extended(old(self)@, key@, #[trigger] expiry_after(now, extra_time)),
    {
        let now: u64 = precise_time_ns();
        self.try_update_session_timeout_at(key, extra_time, now);
    }

    /// Notes that `flow` still carries traffic: its session, if there is
    /// one, is kept for `TIMEOUT_PHANTOMS_NS` from the present instant at
    /// least.
    pub fn update_session(&mut self, flow: &FlowNoSrcPort)
        requires
            old(self).wf(),
        ensures
            final(self).wf(),
            exists|now: u64|
                final(self)@ == extended(
                    old(self)@,
                    flow.key(),
                    #[trigger] expiry_after(now, TIMEOUT_PHANTOMS_NS),
                ),
    {
        let now: u64 = precise_time_ns();
        self.update_session_at(flow, now);
    }

    /// Sweeps the store at the present instant, and returns how many
    /// sessions were taken out.
    pub fn drop_stale_sessions(&mut self) -> (dropped: usize)
        requires
            old(self).wf(),
        ensures
            final(self).wf(),
            exists|now: u64|
                {
                    &&& final(self)@ == #[trigger] swept(old(self)@, now)
                    &&& dropped == stale(old(self)@, now).len()
                    &&& dropped == old(self)@.len() - final(self)@.len()
                },
    {
        let now: u64 = precise_time_ns();
        self.drop_stale_sessions_at(now)
    }
}

} // verus!
