//! Registrations never shorten a session, and a sweep takes out exactly what
//! has expired.

use crate::tracker::{expiry_after, extended, merged, stale, swept};
use vstd::prelude::*;
use vstd::set_lib::{lemma_len_subset, lemma_set_difference_len};

verus! {

/// A registration never shortens a session: after it the key is there, it
/// expires at the later of the two instants, and every other key is as it
/// was.
pub proof fn lemma_merge_keeps_later(m: Map<Seq<char>, u64>, key: Seq<char>, expiry: u64)
    ensures
        merged(m, key, expiry).contains_key(key),
        merged(m, key, expiry)[key] >= expiry,
        m.contains_key(key) ==> merged(m, key, expiry)[key] >= m[key],
        merged(m, key, expiry)[key] == expiry || (m.contains_key(key) && merged(m, key, expiry)[key]
            == m[key]),
        forall|k: Seq<char>|
            k != key ==> (#[trigger] merged(m, key, expiry).contains_key(k) <==> m.contains_key(k)),
        forall|k: Seq<char>|
            k != key && m.contains_key(k) ==> #[trigger] merged(m, key, expiry)[k] == m[k],
{
}

/// A registration adds one session where the key is new, and none where it
/// is there.
pub proof fn lemma_merge_len(m: Map<Seq<char>, u64>, key: Seq<char>, expiry: u64)
    requires
        m.dom().finite(),
    ensures
        merged(m, key, expiry).dom().finite(),
        merged(m, key, expiry).len() == m.len() + (if m.contains_key(key) {
            0nat
        } else {
            1nat
        }),
{
    if m.contains_key(key) {
        assert(merged(m, key, expiry).dom() =~= m.dom());
    } else {
        assert(merged(m, key, expiry).dom() =~= m.dom().insert(key));
    }
}

/// Registering a new key at one instant with timeout `t1` and again with a
/// shorter timeout `t2` leaves it to expire `t1` after that instant; and
/// whatever the two timeouts and the store, the second registration does not
/// bring the expiry below what the first one left.
pub proof fn lemma_merge_twice(
    m: Map<Seq<char>, u64>,
    key: Seq<char>,
    now: u64,
    t1: u64,
    t2: u64,
)
    ensures
        ({
            let first = merged(m, key, expiry_after(now, t1));
            let second = merged(first, key, expiry_after(now, t2));
            &&& second.contains_key(key)
            &&& second[key] >= first[key]
            &&& !m.contains_key(key) && t2 < t1 ==> second[key] == expiry_after(now, t1)
            &&& !m.contains_key(key) && t2 < t1 && now + t1 <= u64::MAX ==> second[key] == now + t1
        }),
{
}

/// Two registrations of one key leave the same store in either order.
pub proof fn lemma_merge_commutes(m: Map<Seq<char>, u64>, key: Seq<char>, e1: u64, e2: u64)
    ensures
        merged(merged(m, key, e1), key, e2) == merged(merged(m, key, e2), key, e1),
{
    assert(merged(merged(m, key, e1), key, e2) =~= merged(merged(m, key, e2), key, e1));
}

/// Traffic on a key never shortens its session and enters no key.
pub proof fn lemma_extend_keeps_later(m: Map<Seq<char>, u64>, key: Seq<char>, expiry: u64)
    ensures
        extended(m, key, expiry).dom() == m.dom(),
        m.contains_key(key) ==> extended(m, key, expiry)[key] >= m[key] && extended(
            m,
            key,
            expiry,
        )[key] >= expiry,
        forall|k: Seq<char>|
            k != key && m.contains_key(k) ==> #[trigger] extended(m, key, expiry)[k] == m[k],
{
    assert(extended(m, key, expiry).dom() =~= m.dom());
}

/// A sweep takes out exactly what has expired: a key is there afterwards if
/// and only if it was there and expires later than the instant of the
/// sweep, and then with the expiry that it had.
pub proof fn lemma_sweep_exact(m: Map<Seq<char>, u64>, now: u64)
    ensures
        forall|k: Seq<char>| #[trigger]
            swept(m, now).contains_key(k) <==> m.contains_key(k) && m[k] > now,
        forall|k: Seq<char>| swept(m, now).contains_key(k) ==> #[trigger] swept(m, now)[k] == m[k],
        forall|k: Seq<char>| #[trigger]
            stale(m, now).contains(k) <==> m.contains_key(k) && m[k] <= now,
{
}

/// No session is taken out early: a session that was registered until
/// `expiry` is there after every sweep before that instant.
pub proof fn lemma_session_outlives_earlier_sweeps(
    m: Map<Seq<char>, u64>,
    key: Seq<char>,
    expiry: u64,
    now: u64,
)
    requires
        now < expiry,
    ensures
        swept(merged(m, key, expiry), now).contains_key(key),
        swept(merged(m, key, expiry), now)[key] == merged(m, key, expiry)[key],
{
}

/// No session is left over: after a sweep every session expires later than
/// the instant of the sweep, and a session that nobody registers again is
/// gone after the first sweep at or after its expiry.
pub proof fn lemma_sweep_leaves_no_expired(m: Map<Seq<char>, u64>, now: u64)
    ensures
        forall|k: Seq<char>| swept(m, now).contains_key(k) ==> #[trigger] swept(m, now)[k] > now,
        forall|k: Seq<char>| m.contains_key(k) && m[k] <= now ==> !#[trigger] swept(
            m,
            now,
        ).contains_key(k),
{
}

/// What a sweep takes out and what it leaves make up the store.
pub proof fn lemma_sweep_counts(m: Map<Seq<char>, u64>, now: u64)
    requires
        m.dom().finite(),
    ensures
        swept(m, now).dom().finite(),
        stale(m, now).finite(),
        stale(m, now).len() + swept(m, now).len() == m.len(),
{
    let kept = swept(m, now).dom();
    lemma_len_subset(kept, m.dom());
    lemma_len_subset(stale(m, now), m.dom());
    assert(m.dom().intersect(kept) =~= kept);
    assert(m.dom().difference(kept) =~= stale(m, now));
    lemma_set_difference_len(m.dom(), kept);
}

/// A second sweep takes out nothing, where no session has expired between
/// the two: the store is as the first sweep left it.
pub proof fn lemma_second_sweep_removes_nothing(m: Map<Seq<char>, u64>, now1: u64, now2: u64)
    requires
        forall|k: Seq<char>| m.contains_key(k) && m[k] > now1 ==> #[trigger] m[k] > now2,
    ensures
        swept(swept(m, now1), now2) == swept(m, now1),
        stale(swept(m, now1), now2) == Set::<Seq<char>>::empty(),
        stale(swept(m, now1), now2).len() == 0,
{
    assert(swept(swept(m, now1), now2) =~= swept(m, now1));
    assert(stale(swept(m, now1), now2) =~= Set::<Seq<char>>::empty());
}

} // verus!
